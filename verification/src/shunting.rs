//! Infix to postfix conversion by the shunting-yard algorithm, with
//! left-associative operators and two precedence levels.
use vstd::prelude::*;
use crate::error::{ErrKind, EvalError};
use crate::token::{Operation, Token};

verus! {

/// Draining the operator stack at end of scan: every operator is appended to
/// the output; a parenthesis still open at this point is unmatched.
pub open spec fn sy_drain(stack: Seq<Operation>, out: Seq<Token>) -> Result<Seq<Token>, ErrKind>
    decreases stack.len(),
{
    if stack.len() == 0 {
        Ok(out)
    } else if stack.last() is OpenParen {
        Err(ErrKind::UnmatchedOpenParen)
    } else {
        sy_drain(stack.drop_last(), out.push(Token::Operation(stack.last())))
    }
}

/// One configuration of the shunting yard: the tokens still to scan, the
/// operator stack, and the output so far.  Numbers pass straight through; an
/// opening parenthesis is pushed; a closing one pops down to its match (and
/// is tolerated when there is none); any other operator first pops operators
/// of equal or higher precedence, ties resolving left-associatively.
pub open spec fn sy_step(toks: Seq<Token>, stack: Seq<Operation>, out: Seq<Token>) -> Result<
    Seq<Token>,
    ErrKind,
>
    decreases toks.len(), stack.len(),
{
    if toks.len() == 0 {
        sy_drain(stack, out)
    } else {
        match toks[0] {
            Token::Number(_) => sy_step(toks.drop_first(), stack, out.push(toks[0])),
            Token::Operation(op) => {
                if op is OpenParen {
                    sy_step(toks.drop_first(), stack.push(op), out)
                } else if op is CloseParen {
                    if stack.len() == 0 {
                        sy_step(toks.drop_first(), stack, out)
                    } else if stack.last() is OpenParen {
                        sy_step(toks.drop_first(), stack.drop_last(), out)
                    } else {
                        sy_step(toks, stack.drop_last(), out.push(Token::Operation(stack.last())))
                    }
                } else {
                    if stack.len() > 0 && !(stack.last() is OpenParen)
                        && stack.last().precedence_spec() >= op.precedence_spec() {
                        sy_step(toks, stack.drop_last(), out.push(Token::Operation(stack.last())))
                    } else {
                        sy_step(toks.drop_first(), stack.push(op), out)
                    }
                }
            },
        }
    }
}

/// What `shunting_yard` returns.
pub open spec fn shunting_spec(toks: Seq<Token>) -> Result<Seq<Token>, ErrKind> {
    sy_step(toks, Seq::empty(), Seq::empty())
}

/// A token stream in which every operation is one of the three arithmetic
/// operators: what the RPN evaluator can consume.
pub open spec fn rpn_wf(toks: Seq<Token>) -> bool {
    forall|k: int|
        0 <= k < toks.len() ==> (#[trigger] toks[k] matches Token::Operation(op) ==> (op is Add
            || op is Subtract || op is Multiply))
}

/// An operator stack of the shunting yard never holds a closing parenthesis.
pub open spec fn stack_wf(stack: Seq<Operation>) -> bool {
    forall|k: int| 0 <= k < stack.len() ==> !(#[trigger] stack[k] is CloseParen)
}

proof fn lemma_sy_drain_wf(stack: Seq<Operation>, out: Seq<Token>)
    requires
        stack_wf(stack),
        rpn_wf(out),
    ensures
        sy_drain(stack, out) matches Ok(o) ==> rpn_wf(o),
    decreases stack.len(),
{
    if stack.len() > 0 && !(stack.last() is OpenParen) {
        let out2 = out.push(Token::Operation(stack.last()));
        assert(stack[stack.len() - 1] == stack.last());
        assert(rpn_wf(out2)) by {
            assert forall|k: int|
                0 <= k < out2.len() implies (#[trigger] out2[k] matches Token::Operation(op)
                ==> (op is Add || op is Subtract || op is Multiply)) by {
                if k < out.len() {
                    assert(out2[k] == out[k]);
                }
            }
        }
        lemma_sy_drain_wf(stack.drop_last(), out2);
    }
}

proof fn lemma_sy_step_wf(toks: Seq<Token>, stack: Seq<Operation>, out: Seq<Token>)
    requires
        stack_wf(stack),
        rpn_wf(out),
    ensures
        sy_step(toks, stack, out) matches Ok(o) ==> rpn_wf(o),
    decreases toks.len(), stack.len(),
{
    if toks.len() == 0 {
        lemma_sy_drain_wf(stack, out);
    } else {
        let push_wf = |t: Token, os: Seq<Token>|
            {
                &&& rpn_wf(os)
                &&& (t matches Token::Operation(op) ==> (op is Add || op is Subtract
                    || op is Multiply))
            };
        assert forall|t: Token, os: Seq<Token>| push_wf(t, os) implies rpn_wf(os.push(t)) by {
            let os2 = os.push(t);
            assert forall|k: int|
                0 <= k < os2.len() implies (#[trigger] os2[k] matches Token::Operation(op) ==> (
            op is Add || op is Subtract || op is Multiply)) by {
                if k < os.len() {
                    assert(os2[k] == os[k]);
                }
            }
        }
        assert forall|op: Operation, st: Seq<Operation>|
            stack_wf(st) && !(op is CloseParen) implies stack_wf(st.push(op)) by {
            let st2 = st.push(op);
            assert forall|k: int| 0 <= k < st2.len() implies !(#[trigger] st2[k] is CloseParen) by {
                if k < st.len() {
                    assert(st2[k] == st[k]);
                }
            }
        }
        assert forall|st: Seq<Operation>| stack_wf(st) && st.len() > 0 implies stack_wf(
            st.drop_last(),
        ) by {
            assert forall|k: int|
                0 <= k < st.drop_last().len() implies !(#[trigger] st.drop_last()[
            k] is CloseParen) by {
                assert(st.drop_last()[k] == st[k]);
            }
        }
        match toks[0] {
            Token::Number(_) => {
                assert(push_wf(toks[0], out));
                lemma_sy_step_wf(toks.drop_first(), stack, out.push(toks[0]));
            },
            Token::Operation(op) => {
                if op is OpenParen {
                    lemma_sy_step_wf(toks.drop_first(), stack.push(op), out);
                } else if op is CloseParen {
                    if stack.len() == 0 {
                        lemma_sy_step_wf(toks.drop_first(), stack, out);
                    } else if stack.last() is OpenParen {
                        lemma_sy_step_wf(toks.drop_first(), stack.drop_last(), out);
                    } else {
                        assert(stack[stack.len() - 1] == stack.last());
                        assert(push_wf(Token::Operation(stack.last()), out));
                        lemma_sy_step_wf(
                            toks,
                            stack.drop_last(),
                            out.push(Token::Operation(stack.last())),
                        );
                    }
                } else {
                    if stack.len() > 0 && !(stack.last() is OpenParen)
                        && stack.last().precedence_spec() >= op.precedence_spec() {
                        assert(stack[stack.len() - 1] == stack.last());
                        assert(push_wf(Token::Operation(stack.last()), out));
                        lemma_sy_step_wf(
                            toks,
                            stack.drop_last(),
                            out.push(Token::Operation(stack.last())),
                        );
                    } else {
                        lemma_sy_step_wf(toks.drop_first(), stack.push(op), out);
                    }
                }
            },
        }
    }
}

/// Whatever token stream the shunting yard accepts, its output holds only
/// numbers and the three arithmetic operators: parentheses never reach the
/// evaluator.
pub proof fn lemma_shunting_output_wf(toks: Seq<Token>)
    ensures
        shunting_spec(toks) matches Ok(o) ==> rpn_wf(o),
{
    lemma_sy_step_wf(toks, Seq::empty(), Seq::empty());
}

/// Reorders an infix token stream into postfix (reverse Polish) order, as
/// `shunting_spec` describes.  A parenthesis left open at the end of the
/// scan is reported; a stray closing parenthesis is tolerated.
pub fn shunting_yard(tokens: Vec<Token>) -> (r: Result<Vec<Token>, EvalError>)
    ensures
        (match r {
            Ok(v) => Ok::<Seq<Token>, ErrKind>(v@),
            Err(e) => Err(e.sv()),
        }) == shunting_spec(tokens@),
{
    let mut output: Vec<Token> = Vec::new();
    let mut stack: Vec<Operation> = Vec::new();
    let n = tokens.len();
    let mut i: usize = 0;
    proof {
        assert(tokens@.skip(0) =~= tokens@);
    }
    while i < n
        invariant
            i <= n == tokens@.len(),
            shunting_spec(tokens@) == sy_step(tokens@.skip(i as int), stack@, output@),
        decreases n - i,
    {
        let t = tokens[i];
        proof {
            assert(tokens@.skip(i as int)[0] == t);
            assert(tokens@.skip(i as int).drop_first() =~= tokens@.skip(i as int + 1));
        }
        match t {
            Token::Number(_) => {
                output.push(t);
            },
            Token::Operation(op) => {
                match op {
                    Operation::OpenParen => {
                        stack.push(op);
                    },
                    Operation::CloseParen => {
                        let mut done = false;
                        while !done
                            invariant
                                i < n == tokens@.len(),
                                tokens@.skip(i as int)[0] == t,
                                tokens@.skip(i as int).drop_first() == tokens@.skip(i as int + 1),
                                t == Token::Operation(Operation::CloseParen),
                                !done ==> shunting_spec(tokens@) == sy_step(
                                    tokens@.skip(i as int),
                                    stack@,
                                    output@,
                                ),
                                done ==> shunting_spec(tokens@) == sy_step(
                                    tokens@.skip(i as int + 1),
                                    stack@,
                                    output@,
                                ),
                            decreases stack@.len() + (if done {
                                0int
                            } else {
                                1int
                            }),
                        {
                            if stack.len() == 0 {
                                done = true;
                            } else {
                                let ghost old_stack = stack@;
                                let top = match stack.pop() {
                                    Some(x) => x,
                                    None => Operation::CloseParen,
                                };
                                proof {
                                    assert(top == old_stack.last());
                                    assert(stack@ == old_stack.drop_last());
                                }
                                if matches!(top, Operation::OpenParen) {
                                    done = true;
                                } else {
                                    output.push(Token::Operation(top));
                                }
                            }
                        }
                    },
                    _ => {
                        let mut done = false;
                        while !done
                            invariant
                                i < n == tokens@.len(),
                                tokens@.skip(i as int)[0] == t,
                                tokens@.skip(i as int).drop_first() == tokens@.skip(i as int + 1),
                                t == Token::Operation(op),
                                !(op is OpenParen) && !(op is CloseParen),
                                shunting_spec(tokens@) == sy_step(
                                    tokens@.skip(i as int),
                                    stack@,
                                    output@,
                                ),
                                done ==> (stack@.len() == 0 || stack@.last() is OpenParen
                                    || stack@.last().precedence_spec() < op.precedence_spec()),
                            decreases stack@.len() + (if done {
                                0int
                            } else {
                                1int
                            }),
                        {
                            if stack.len() == 0 {
                                done = true;
                            } else {
                                let top = stack[stack.len() - 1];
                                proof {
                                    assert(top == stack@.last());
                                }
                                if matches!(top, Operation::OpenParen) || top.precedence()
                                    < op.precedence() {
                                    done = true;
                                } else {
                                    let ghost old_stack = stack@;
                                    stack.pop();
                                    proof {
                                        assert(stack@ == old_stack.drop_last());
                                    }
                                    output.push(Token::Operation(top));
                                }
                            }
                        }
                        stack.push(op);
                    },
                }
            },
        }
        i += 1;
    }
    proof {
        assert(tokens@.skip(n as int) =~= Seq::<Token>::empty());
    }
    while stack.len() > 0
        invariant
            shunting_spec(tokens@) == sy_drain(stack@, output@),
        decreases stack@.len(),
    {
        let ghost old_stack = stack@;
        let top = match stack.pop() {
            Some(x) => x,
            None => Operation::CloseParen,
        };
        proof {
            assert(top == old_stack.last());
            assert(stack@ == old_stack.drop_last());
        }
        if matches!(top, Operation::OpenParen) {
            return Err(EvalError::UnmatchedOpenParen);
        }
        output.push(Token::Operation(top));
    }
    Ok(output)
}

} // verus!
