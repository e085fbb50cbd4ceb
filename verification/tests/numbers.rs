//! Tests of the number model: parsing, formatting, the round trip, and the
//! error diagnostics.
use basecalc::{Base, EvalError, Number, Operation};

#[test]
fn parse_decimal() {
    assert_eq!(
        Number::parse("d42").unwrap(),
        Number { value: 42, base: Base::Decimal }
    );
    assert_eq!(
        Number::parse("d-7").unwrap(),
        Number { value: -7, base: Base::Decimal }
    );
    assert_eq!(
        Number::parse("d0").unwrap(),
        Number { value: 0, base: Base::Decimal }
    );
}

#[test]
fn parse_hexadecimal_both_cases() {
    assert_eq!(
        Number::parse("hff").unwrap(),
        Number { value: 255, base: Base::Hexadecimal }
    );
    assert_eq!(
        Number::parse("hFF").unwrap(),
        Number { value: 255, base: Base::Hexadecimal }
    );
    assert_eq!(
        Number::parse("h-A").unwrap(),
        Number { value: -10, base: Base::Hexadecimal }
    );
}

#[test]
fn parse_rejects_empty_and_bad_base() {
    assert_eq!(Number::parse("").unwrap_err(), EvalError::EmptyNumber);
    assert_eq!(Number::parse("x1").unwrap_err(), EvalError::InvalidBase('x'));
}

#[test]
fn parse_rejects_bad_bodies() {
    assert_eq!(
        Number::parse("d").unwrap_err(),
        EvalError::InvalidNumber(String::new())
    );
    assert_eq!(
        Number::parse("d-").unwrap_err(),
        EvalError::InvalidNumber("-".to_string())
    );
    assert_eq!(
        Number::parse("dA").unwrap_err(),
        EvalError::InvalidNumber("A".to_string())
    );
    assert_eq!(
        Number::parse("hG").unwrap_err(),
        EvalError::InvalidNumber("G".to_string())
    );
    // only a minus sign is recognized, never a plus
    assert_eq!(
        Number::parse("d+5").unwrap_err(),
        EvalError::InvalidNumber("+5".to_string())
    );
}

#[test]
fn parse_rejects_overflow() {
    // one more than i64::MAX
    assert_eq!(
        Number::parse("d9223372036854775808").unwrap_err(),
        EvalError::InvalidNumber("9223372036854775808".to_string())
    );
    // i64::MIN itself parses
    assert_eq!(
        Number::parse("d-9223372036854775808").unwrap().value,
        i64::MIN
    );
    assert_eq!(
        Number::parse("h-8000000000000000").unwrap().value,
        i64::MIN
    );
}

#[test]
fn format_decimal_and_hex() {
    assert_eq!(Number { value: 42, base: Base::Decimal }.format(), "d42");
    assert_eq!(Number { value: 0, base: Base::Decimal }.format(), "d0");
    assert_eq!(Number { value: -7, base: Base::Decimal }.format(), "d-7");
    assert_eq!(Number { value: 255, base: Base::Hexadecimal }.format(), "hFF");
    assert_eq!(Number { value: 0, base: Base::Hexadecimal }.format(), "h0");
}

#[test]
fn format_negative_hex_is_sign_magnitude() {
    assert_eq!(Number { value: -10, base: Base::Hexadecimal }.format(), "h-A");
    assert_eq!(
        Number { value: i64::MIN, base: Base::Hexadecimal }.format(),
        "h-8000000000000000"
    );
}

#[test]
fn round_trip_parse_of_format() {
    let cases: [i64; 9] = [0, 1, -1, 10, -10, 255, i64::MAX, i64::MIN, 123456789];
    for &v in cases.iter() {
        for &b in [Base::Decimal, Base::Hexadecimal].iter() {
            let n = Number { value: v, base: b };
            let text = n.format();
            assert_eq!(Number::parse(&text).unwrap(), n);
            // formatting is idempotent through a parse
            assert_eq!(Number::parse(&text).unwrap().format(), text);
        }
    }
}

#[test]
fn base_from_char() {
    assert_eq!(Base::from_char('d').unwrap(), Base::Decimal);
    assert_eq!(Base::from_char('h').unwrap(), Base::Hexadecimal);
    assert_eq!(Base::from_char('D').unwrap_err(), EvalError::InvalidBase('D'));
}

#[test]
fn operation_from_char() {
    assert_eq!(Operation::from_char('+').unwrap(), Operation::Add);
    assert_eq!(Operation::from_char('-').unwrap(), Operation::Subtract);
    assert_eq!(Operation::from_char('*').unwrap(), Operation::Multiply);
    assert_eq!(Operation::from_char('(').unwrap(), Operation::OpenParen);
    assert_eq!(Operation::from_char(')').unwrap(), Operation::CloseParen);
    assert_eq!(
        Operation::from_char('/').unwrap_err(),
        EvalError::InvalidOperator('/')
    );
}

#[test]
fn operation_precedence_ranks() {
    assert_eq!(Operation::Add.precedence(), 1);
    assert_eq!(Operation::Subtract.precedence(), 1);
    assert_eq!(Operation::Multiply.precedence(), 2);
    assert_eq!(Operation::OpenParen.precedence(), 0);
    assert_eq!(Operation::CloseParen.precedence(), 0);
}

#[test]
fn operation_apply_wraps() {
    assert_eq!(Operation::Add.apply(2, 3), 5);
    assert_eq!(Operation::Subtract.apply(2, 3), -1);
    assert_eq!(Operation::Multiply.apply(2, 3), 6);
    assert_eq!(Operation::Add.apply(i64::MAX, 1), i64::MIN);
    assert_eq!(Operation::Subtract.apply(i64::MIN, 1), i64::MAX);
    assert_eq!(Operation::Multiply.apply(i64::MAX, 2), -2);
}

#[test]
fn error_messages() {
    assert_eq!(EvalError::EmptyExpression.message(), "Empty expression");
    assert_eq!(EvalError::EmptyNumber.message(), "Empty number");
    assert_eq!(EvalError::InvalidBase('x').message(), "Invalid base: x");
    assert_eq!(
        EvalError::InvalidNumber("1z".to_string()).message(),
        "Invalid number: 1z"
    );
    assert_eq!(
        EvalError::InvalidCharacter('%').message(),
        "Invalid character: %"
    );
    assert_eq!(
        EvalError::InvalidOperator('/').message(),
        "Invalid operator: /"
    );
    assert_eq!(
        EvalError::UnmatchedOpenParen.message(),
        "Unmatched open parenthesis"
    );
    assert_eq!(EvalError::InvalidExpression.message(), "Invalid expression");
}
