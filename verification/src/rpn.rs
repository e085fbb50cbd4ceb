//! Evaluation of a postfix token stream with a value stack.
use vstd::prelude::*;
use crate::error::{ErrKind, EvalError};
use crate::shunting::rpn_wf;
use crate::token::Token;

verus! {

/// One configuration of the evaluator: the tokens still to consume and the
/// value stack.  A number is pushed; an operator takes the two topmost
/// values (the topmost is the right operand) and pushes the wrapped result;
/// fewer than two operands is a malformed expression.  At the end the result
/// is the topmost value; an empty stack means there was nothing to evaluate.
pub open spec fn rpn_loop(toks: Seq<Token>, stack: Seq<i64>) -> Result<i64, ErrKind>
    decreases toks.len(),
{
    if toks.len() == 0 {
        if stack.len() == 0 {
            Err(ErrKind::InvalidExpression)
        } else {
            Ok(stack.last())
        }
    } else {
        match toks[0] {
            Token::Number(n) => rpn_loop(toks.drop_first(), stack.push(n.value)),
            Token::Operation(op) => {
                if stack.len() < 2 {
                    Err(ErrKind::InvalidExpression)
                } else {
                    let right = stack.last();
                    let left = stack[stack.len() - 2];
                    rpn_loop(
                        toks.drop_first(),
                        stack.drop_last().drop_last().push(op.apply_spec(left, right)),
                    )
                }
            },
        }
    }
}

/// What `evaluate_rpn` returns.
pub open spec fn evaluate_spec(toks: Seq<Token>) -> Result<i64, ErrKind> {
    rpn_loop(toks, Seq::empty())
}

/// Evaluates a postfix token stream, as `evaluate_spec` describes.  The
/// input may hold only numbers and the three arithmetic operators; the
/// shunting yard guarantees that of its output (`lemma_shunting_output_wf`).
pub fn evaluate_rpn(tokens: Vec<Token>) -> (r: Result<i64, EvalError>)
    requires
        rpn_wf(tokens@),
    ensures
        (match r {
            Ok(v) => Ok::<i64, ErrKind>(v),
            Err(e) => Err(e.sv()),
        }) == evaluate_spec(tokens@),
{
    let mut stack: Vec<i64> = Vec::new();
    let n = tokens.len();
    let mut i: usize = 0;
    proof {
        assert(tokens@.skip(0) =~= tokens@);
    }
    while i < n
        invariant
            i <= n == tokens@.len(),
            rpn_wf(tokens@),
            evaluate_spec(tokens@) == rpn_loop(tokens@.skip(i as int), stack@),
        decreases n - i,
    {
        let t = tokens[i];
        proof {
            assert(tokens@.skip(i as int)[0] == t);
            assert(tokens@.skip(i as int).drop_first() =~= tokens@.skip(i as int + 1));
        }
        match t {
            Token::Number(num) => {
                stack.push(num.value);
            },
            Token::Operation(op) => {
                proof {
                    assert(tokens@[i as int] matches Token::Operation(o) && o == op);
                }
                if stack.len() < 2 {
                    return Err(EvalError::InvalidExpression);
                }
                let ghost old_stack = stack@;
                let right = match stack.pop() {
                    Some(x) => x,
                    None => 0,
                };
                let left = match stack.pop() {
                    Some(x) => x,
                    None => 0,
                };
                proof {
                    assert(right == old_stack.last());
                    assert(left == old_stack[old_stack.len() - 2]);
                    assert(stack@ == old_stack.drop_last().drop_last());
                }
                stack.push(op.apply(left, right));
            },
        }
        i += 1;
    }
    proof {
        assert(tokens@.skip(n as int) =~= Seq::<Token>::empty());
    }
    match stack.pop() {
        Some(v) => Ok(v),
        None => Err(EvalError::InvalidExpression),
    }
}

} // verus!
