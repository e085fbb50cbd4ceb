//! End-to-end tests of `process_expression` and the pipeline stages.
use basecalc::{
    evaluate_rpn, process_expression, shunting_yard, tokenize, Base, EvalError, Number, Operation,
    Token,
};

#[test]
fn precedence_multiply_binds_tighter() {
    assert_eq!(process_expression("d2+d3*d4d").unwrap(), "d14");
}

#[test]
fn left_associativity_of_subtraction() {
    assert_eq!(process_expression("d10-d2-d3d").unwrap(), "d5");
}

#[test]
fn parentheses_override_precedence() {
    assert_eq!(process_expression("(d2+d3)*d4d").unwrap(), "d20");
}

#[test]
fn parentheses_override_precedence_hex_output() {
    assert_eq!(process_expression("(d2+d3)*d4h").unwrap(), "h14");
}

#[test]
fn base_marker_before_paren_is_a_dangling_literal() {
    // `d(` flushes a bare `d` accumulator: a literal with no digits
    assert_eq!(
        process_expression("d(d2+d3)*d4d").unwrap_err(),
        EvalError::InvalidNumber(String::new())
    );
}

#[test]
fn base_conversion_hex_to_decimal() {
    assert_eq!(process_expression("hAd").unwrap(), "d10");
}

#[test]
fn base_conversion_decimal_to_hex() {
    assert_eq!(process_expression("d10h").unwrap(), "hA");
}

#[test]
fn empty_input_is_rejected() {
    assert_eq!(process_expression("").unwrap_err(), EvalError::EmptyExpression);
    assert_eq!(process_expression("   ").unwrap_err(), EvalError::EmptyExpression);
}

#[test]
fn marker_without_digits_is_rejected() {
    // the body `d+` flushes a bare `d` accumulator, which has no digits
    let err = process_expression("d+d").unwrap_err();
    assert_eq!(err, EvalError::InvalidNumber(String::new()));
}

#[test]
fn missing_operand_is_rejected() {
    assert_eq!(process_expression("d1+d").unwrap_err(), EvalError::InvalidExpression);
}

#[test]
fn lone_output_marker_has_nothing_to_evaluate() {
    assert_eq!(process_expression("d").unwrap_err(), EvalError::InvalidExpression);
    assert_eq!(process_expression("()d").unwrap_err(), EvalError::InvalidExpression);
}

#[test]
fn unmatched_open_paren_is_rejected() {
    assert_eq!(process_expression("(d1+d2d").unwrap_err(), EvalError::UnmatchedOpenParen);
}

#[test]
fn stray_close_paren_is_tolerated() {
    assert_eq!(process_expression("d1+d2)d").unwrap(), "d3");
}

#[test]
fn whitespace_is_ignored() {
    assert_eq!(
        process_expression(" d1 + d2 d "),
        process_expression("d1+d2d")
    );
    assert_eq!(process_expression(" d1 + d2 d ").unwrap(), "d3");
}

#[test]
fn invalid_character_is_rejected() {
    assert_eq!(process_expression("d1%d2d").unwrap_err(), EvalError::InvalidCharacter('%'));
}

#[test]
fn invalid_output_base_is_rejected() {
    assert_eq!(process_expression("d1+d2x").unwrap_err(), EvalError::InvalidBase('x'));
}

#[test]
fn subtraction_can_go_negative() {
    assert_eq!(process_expression("d2-d5d").unwrap(), "d-3");
    assert_eq!(process_expression("d2-d5h").unwrap(), "h-3");
}

#[test]
fn hex_literals_mix_with_decimal() {
    assert_eq!(process_expression("hA*d2d").unwrap(), "d20");
    assert_eq!(process_expression("hff+d1h").unwrap(), "h100");
}

#[test]
fn leftover_values_return_the_topmost() {
    // two numbers and no operator: the evaluator returns the last value
    assert_eq!(process_expression("d1 d2 d").unwrap(), "d2");
}

#[test]
fn tokenize_splits_literals_and_operators() {
    let toks = tokenize("d12+h1F").unwrap();
    assert_eq!(
        toks,
        vec![
            Token::Number(Number { value: 12, base: Base::Decimal }),
            Token::Operation(Operation::Add),
            Token::Number(Number { value: 31, base: Base::Hexadecimal }),
        ]
    );
}

#[test]
fn tokenize_adjacent_literals() {
    // a second base marker ends the previous literal
    let toks = tokenize("d1d2").unwrap();
    assert_eq!(
        toks,
        vec![
            Token::Number(Number { value: 1, base: Base::Decimal }),
            Token::Number(Number { value: 2, base: Base::Decimal }),
        ]
    );
}

#[test]
fn tokenize_rejects_invalid_character() {
    assert_eq!(tokenize("d1?d2").unwrap_err(), EvalError::InvalidCharacter('?'));
}

#[test]
fn shunting_yard_orders_by_precedence() {
    let toks = tokenize("d2+d3*d4").unwrap();
    let postfix = shunting_yard(toks).unwrap();
    let values: Vec<i64> = postfix
        .iter()
        .filter_map(|t| match t {
            Token::Number(n) => Some(n.value),
            Token::Operation(_) => None,
        })
        .collect();
    assert_eq!(values, vec![2, 3, 4]);
    assert_eq!(
        postfix[3],
        Token::Operation(Operation::Multiply)
    );
    assert_eq!(postfix[4], Token::Operation(Operation::Add));
}

#[test]
fn shunting_yard_reports_unmatched_open_paren() {
    let toks = tokenize("(d1+d2").unwrap();
    assert_eq!(shunting_yard(toks).unwrap_err(), EvalError::UnmatchedOpenParen);
}

#[test]
fn evaluate_rpn_subtracts_in_order() {
    // 10 2 - : left operand is below the right one
    let toks = vec![
        Token::Number(Number { value: 10, base: Base::Decimal }),
        Token::Number(Number { value: 2, base: Base::Decimal }),
        Token::Operation(Operation::Subtract),
    ];
    assert_eq!(evaluate_rpn(toks).unwrap(), 8);
}

#[test]
fn evaluate_rpn_rejects_operator_without_operands() {
    let toks = vec![
        Token::Number(Number { value: 1, base: Base::Decimal }),
        Token::Operation(Operation::Add),
    ];
    assert_eq!(evaluate_rpn(toks).unwrap_err(), EvalError::InvalidExpression);
    assert_eq!(evaluate_rpn(vec![]).unwrap_err(), EvalError::InvalidExpression);
}

#[test]
fn arithmetic_wraps_on_overflow() {
    // i64::MAX + 1 wraps to i64::MIN
    let input = format!("d{}+d1d", i64::MAX);
    assert_eq!(
        process_expression(&input).unwrap(),
        format!("d{}", i64::MIN)
    );
}
