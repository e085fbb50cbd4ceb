//! Operators, tokens, and the tokenizer: a whitespace-insensitive scan that
//! groups base markers with their digits and emits one token per operator.
use vstd::prelude::*;
use vstd::string::StrSliceExecFns;
use crate::chars::{chars_to_string, is_ws, strip_ws};
use crate::error::{ErrKind, EvalError};
use crate::number::{
    hex_digit_value, is_base_char, parse_spec, char_digit_value, Number,
};

verus! {

/// An operator or parenthesis of the expression grammar.
#[derive(Debug, Clone, Copy, PartialEq, Eq, Structural)]
pub enum Operation {
    Add,
    Subtract,
    Multiply,
    OpenParen,
    CloseParen,
}

pub open spec fn is_op_char(c: char) -> bool {
    c == '+' || c == '-' || c == '*' || c == '(' || c == ')'
}

pub open spec fn op_of_char(c: char) -> Operation {
    if c == '+' {
        Operation::Add
    } else if c == '-' {
        Operation::Subtract
    } else if c == '*' {
        Operation::Multiply
    } else if c == '(' {
        Operation::OpenParen
    } else {
        Operation::CloseParen
    }
}

impl Operation {
    /// Binding strength: multiplication binds tighter than addition and
    /// subtraction; parentheses rank lowest and are never reduced by rank.
    pub open spec fn precedence_spec(self) -> u8 {
        match self {
            Operation::Add | Operation::Subtract => 1,
            Operation::Multiply => 2,
            Operation::OpenParen | Operation::CloseParen => 0,
        }
    }

    pub fn precedence(&self) -> (r: u8)
        ensures
            r == self.precedence_spec(),
    {
        match self {
            Operation::Add | Operation::Subtract => 1,
            Operation::Multiply => 2,
            Operation::OpenParen | Operation::CloseParen => 0,
        }
    }

    /// Decodes an operator or parenthesis character.
    pub fn from_char(c: char) -> (r: Result<Operation, EvalError>)
        ensures
            is_op_char(c) ==> r == Ok::<Operation, EvalError>(op_of_char(c)),
            !is_op_char(c) ==> r == Err::<Operation, EvalError>(EvalError::InvalidOperator(c)),
    {
        match c {
            '+' => Ok(Operation::Add),
            '-' => Ok(Operation::Subtract),
            '*' => Ok(Operation::Multiply),
            '(' => Ok(Operation::OpenParen),
            ')' => Ok(Operation::CloseParen),
            _ => Err(EvalError::InvalidOperator(c)),
        }
    }

    /// The arithmetic meaning of `Add`, `Subtract` and `Multiply`: 64-bit
    /// wrapping arithmetic.  Parentheses have none and are excluded.
    pub open spec fn apply_spec(self, left: i64, right: i64) -> i64 {
        match self {
            Operation::Add => left.wrapping_add(right),
            Operation::Subtract => left.wrapping_sub(right),
            Operation::Multiply => left.wrapping_mul(right),
            Operation::OpenParen | Operation::CloseParen => 0,
        }
    }

    /// Applies the operator to two operands with wrapping 64-bit semantics.
    pub fn apply(&self, left: i64, right: i64) -> (r: i64)
        requires
            *self is Add || *self is Subtract || *self is Multiply,
        ensures
            r == self.apply_spec(left, right),
    {
        match self {
            Operation::Add => left.wrapping_add(right),
            Operation::Subtract => left.wrapping_sub(right),
            Operation::Multiply => left.wrapping_mul(right),
            Operation::OpenParen | Operation::CloseParen => 0,
        }
    }
}

/// A unit of the intermediate representation between the pipeline stages.
#[derive(Debug, Clone, Copy, PartialEq, Eq, Structural)]
pub enum Token {
    Number(Number),
    Operation(Operation),
}

/// Flushing the literal accumulator: nothing when it is empty, otherwise the
/// parsed literal is appended to the token stream (or parsing fails).
pub open spec fn flush(acc: Seq<char>, out: Seq<Token>) -> Result<Seq<Token>, ErrKind> {
    if acc.len() == 0 {
        Ok(out)
    } else {
        match parse_spec(acc) {
            Ok(n) => Ok(out.push(Token::Number(n))),
            Err(e) => Err(e),
        }
    }
}

/// The tokenizer's scan over whitespace-free text: a base marker starts a
/// fresh literal (flushing any pending one), a hexadecimal digit extends the
/// pending literal, an operator flushes it and stands alone, and anything
/// else is an invalid character.
pub open spec fn tok_loop(s: Seq<char>, acc: Seq<char>, out: Seq<Token>) -> Result<
    Seq<Token>,
    ErrKind,
>
    decreases s.len(),
{
    if s.len() == 0 {
        flush(acc, out)
    } else {
        let c = s[0];
        if is_base_char(c) {
            match flush(acc, out) {
                Ok(out2) => tok_loop(s.drop_first(), seq![c], out2),
                Err(e) => Err(e),
            }
        } else if hex_digit_value(c) < 16 {
            tok_loop(s.drop_first(), acc.push(c), out)
        } else if is_op_char(c) {
            match flush(acc, out) {
                Ok(out2) => tok_loop(
                    s.drop_first(),
                    Seq::empty(),
                    out2.push(Token::Operation(op_of_char(c))),
                ),
                Err(e) => Err(e),
            }
        } else {
            Err(ErrKind::InvalidCharacter(c))
        }
    }
}

/// What `tokenize` returns: the scan over the text with its whitespace
/// removed.
pub open spec fn tokenize_spec(s: Seq<char>) -> Result<Seq<Token>, ErrKind> {
    tok_loop(strip_ws(s), Seq::empty(), Seq::empty())
}

/// Parses the accumulated literal characters as a number.
fn parse_accumulator(acc: &Vec<char>) -> (r: Result<Number, EvalError>)
    ensures
        (match r {
            Ok(num) => Ok::<Number, ErrKind>(num),
            Err(e) => Err(e.sv()),
        }) == parse_spec(acc@),
{
    let s = chars_to_string(acc.as_slice());
    Number::parse(s.as_str())
}

/// Splits the expression text into number and operator tokens, exactly as
/// `tokenize_spec` describes; whitespace is ignored wherever it stands.
pub fn tokenize(expr: &str) -> (r: Result<Vec<Token>, EvalError>)
    ensures
        (match r {
            Ok(v) => Ok::<Seq<Token>, ErrKind>(v@),
            Err(e) => Err(e.sv()),
        }) == tokenize_spec(expr@),
{
    let n = expr.unicode_len();
    let mut cs: Vec<char> = Vec::new();
    let mut i: usize = 0;
    while i < n
        invariant
            i <= n == expr@.len(),
            cs@ == strip_ws(expr@.take(i as int)),
        decreases n - i,
    {
        let c = expr.get_char(i);
        proof {
            assert(expr@.take(i as int + 1).drop_last() =~= expr@.take(i as int));
            assert(expr@.take(i as int + 1).last() == c);
        }
        if !is_ws(c) {
            cs.push(c);
        }
        i += 1;
    }
    proof {
        assert(expr@.take(n as int) =~= expr@);
    }
    let m = cs.len();
    let mut acc: Vec<char> = Vec::new();
    let mut tokens: Vec<Token> = Vec::new();
    let mut j: usize = 0;
    proof {
        assert(cs@.skip(0) =~= cs@);
    }
    while j < m
        invariant
            j <= m == cs@.len(),
            cs@ == strip_ws(expr@),
            tokenize_spec(expr@) == tok_loop(cs@.skip(j as int), acc@, tokens@),
        decreases m - j,
    {
        let c = cs[j];
        proof {
            assert(cs@.skip(j as int)[0] == c);
            assert(cs@.skip(j as int).drop_first() =~= cs@.skip(j as int + 1));
        }
        if c == 'd' || c == 'h' {
            if acc.len() > 0 {
                let num = match parse_accumulator(&acc) {
                    Ok(x) => x,
                    Err(e) => return Err(e),
                };
                tokens.push(Token::Number(num));
                acc.clear();
            }
            acc.push(c);
            proof {
                assert(acc@ =~= seq![c]);
            }
        } else if char_digit_value(c) < 16 {
            acc.push(c);
        } else if c == '+' || c == '-' || c == '*' || c == '(' || c == ')' {
            if acc.len() > 0 {
                let num = match parse_accumulator(&acc) {
                    Ok(x) => x,
                    Err(e) => return Err(e),
                };
                tokens.push(Token::Number(num));
                acc.clear();
            }
            let op = match Operation::from_char(c) {
                Ok(o) => o,
                Err(e) => return Err(e),
            };
            tokens.push(Token::Operation(op));
            proof {
                assert(acc@ =~= Seq::<char>::empty());
            }
        } else {
            return Err(EvalError::InvalidCharacter(c));
        }
        j += 1;
    }
    proof {
        assert(cs@.skip(m as int) =~= Seq::<char>::empty());
    }
    if acc.len() > 0 {
        let num = match parse_accumulator(&acc) {
            Ok(x) => x,
            Err(e) => return Err(e),
        };
        tokens.push(Token::Number(num));
    }
    Ok(tokens)
}

} // verus!
