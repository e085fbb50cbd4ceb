//! An interactive-calculator core: expressions mix base-tagged integer
//! literals (`d` for decimal, `h` for hexadecimal) with `+`, `-`, `*` and
//! parentheses; the last character of a line names the base the result is
//! printed in.  The pipeline is tokenizer, shunting yard, RPN evaluation,
//! and every stage is verified against a functional model.
use vstd::prelude::*;

pub mod chars;
pub mod error;
pub mod number;
pub mod rpn;
pub mod shunting;
pub mod token;

pub use error::{ErrKind, EvalError};
pub use number::{Base, Number};
pub use rpn::evaluate_rpn;
pub use shunting::shunting_yard;
pub use token::{tokenize, Operation, Token};

use vstd::string::StrSliceExecFns;
use crate::chars::{
    is_ws, is_ws_char, lemma_strip_trim, lemma_trim_back_last, lemma_trim_front_last, strip_ws,
    trim_back, trim_front, trim_spec,
};
use crate::number::{base_of_char, format_spec, is_base_char};
use crate::rpn::evaluate_spec;
use crate::shunting::{lemma_shunting_output_wf, shunting_spec};
use crate::token::{tok_loop, tokenize_spec};

verus! {

/// The orchestrator's result on whitespace-free text `f`: the last character
/// names the output base, the rest is tokenized, reordered, evaluated, and
/// the value is rendered in that base.
pub open spec fn process_core(f: Seq<char>) -> Result<Seq<char>, ErrKind> {
    if f.len() == 0 {
        Err(ErrKind::EmptyExpression)
    } else if !is_base_char(f.last()) {
        Err(ErrKind::InvalidBase(f.last()))
    } else {
        match tok_loop(f.drop_last(), Seq::empty(), Seq::empty()) {
            Err(e) => Err(e),
            Ok(toks) => match shunting_spec(toks) {
                Err(e) => Err(e),
                Ok(postfix) => match evaluate_spec(postfix) {
                    Err(e) => Err(e),
                    Ok(v) => Ok(format_spec(Number { value: v, base: base_of_char(f.last()) })),
                },
            },
        }
    }
}

/// What `process_expression` returns: the input is trimmed, its last
/// character names the output base, and the rest runs through the pipeline.
pub open spec fn process_spec(s: Seq<char>) -> Result<Seq<char>, ErrKind> {
    let t = trim_spec(s);
    if t.len() == 0 {
        Err(ErrKind::EmptyExpression)
    } else if !is_base_char(t.last()) {
        Err(ErrKind::InvalidBase(t.last()))
    } else {
        match tokenize_spec(t.drop_last()) {
            Err(e) => Err(e),
            Ok(toks) => match shunting_spec(toks) {
                Err(e) => Err(e),
                Ok(postfix) => match evaluate_spec(postfix) {
                    Err(e) => Err(e),
                    Ok(v) => Ok(format_spec(Number { value: v, base: base_of_char(t.last()) })),
                },
            },
        }
    }
}

/// The result depends only on the input's non-whitespace characters.
pub proof fn lemma_process_strip(s: Seq<char>)
    ensures
        process_spec(s) == process_core(strip_ws(s)),
{
    let t = trim_spec(s);
    let f = strip_ws(s);
    lemma_strip_trim(s);
    if t.len() == 0 {
        assert(f =~= Seq::<char>::empty());
    } else {
        lemma_trim_back_last(s);
        lemma_trim_front_last(trim_back(s));
        assert(!is_ws_char(t.last()));
        assert(strip_ws(t) == strip_ws(t.drop_last()).push(t.last()));
        assert(f.last() == t.last());
        assert(f.drop_last() =~= strip_ws(t.drop_last()));
    }
}

/// Whitespace insensitivity: two inputs with the same non-whitespace
/// characters evaluate to the same result.
pub proof fn lemma_whitespace_insensitive(s1: Seq<char>, s2: Seq<char>)
    requires
        strip_ws(s1) == strip_ws(s2),
    ensures
        process_spec(s1) == process_spec(s2),
{
    lemma_process_strip(s1);
    lemma_process_strip(s2);
}

/// Evaluates one expression line: trims it, reads the trailing output-base
/// marker, tokenizes the body, reorders it to postfix, evaluates, and
/// renders the result in the requested base — exactly as `process_spec`
/// describes.  Every failure is reported as a value; nothing panics.
pub fn process_expression(input: &str) -> (r: Result<String, EvalError>)
    ensures
        (match r {
            Ok(s) => Ok::<Seq<char>, ErrKind>(s@),
            Err(e) => Err(e.sv()),
        }) == process_spec(input@),
{
    let n = input.unicode_len();
    let mut hi: usize = n;
    proof {
        assert(input@.take(n as int) =~= input@);
    }
    while hi > 0 && is_ws(input.get_char(hi - 1))
        invariant
            hi <= n == input@.len(),
            trim_back(input@) == trim_back(input@.take(hi as int)),
        decreases hi,
    {
        proof {
            assert(input@.take(hi as int).last() == input@[hi - 1]);
            assert(input@.take(hi as int).drop_last() =~= input@.take(hi as int - 1));
        }
        hi -= 1;
    }
    proof {
        assert(input@.take(n as int) =~= input@);
        if hi > 0 {
            assert(trim_back(input@.take(hi as int)) == input@.take(hi as int));
        } else {
            assert(input@.take(0) =~= Seq::<char>::empty());
        }
        assert(trim_back(input@) == input@.take(hi as int));
    }
    let ghost tb = input@.take(hi as int);
    let mut lo: usize = 0;
    while lo < hi && is_ws(input.get_char(lo))
        invariant
            lo <= hi <= n == input@.len(),
            tb == input@.take(hi as int),
            trim_front(tb) == trim_front(input@.subrange(lo as int, hi as int)),
        decreases hi - lo,
    {
        proof {
            assert(input@.subrange(lo as int, hi as int).first() == input@[lo as int]);
            assert(input@.subrange(lo as int, hi as int).drop_first() =~= input@.subrange(
                lo as int + 1,
                hi as int,
            ));
        }
        lo += 1;
    }
    proof {
        assert(tb =~= input@.subrange(0, hi as int));
        if lo < hi {
            assert(trim_front(input@.subrange(lo as int, hi as int)) == input@.subrange(
                lo as int,
                hi as int,
            ));
        } else {
            assert(input@.subrange(lo as int, hi as int) =~= Seq::<char>::empty());
        }
        assert(trim_spec(input@) == input@.subrange(lo as int, hi as int));
    }
    let ghost t = trim_spec(input@);
    if lo == hi {
        return Err(EvalError::EmptyExpression);
    }
    let bc = input.get_char(hi - 1);
    proof {
        assert(t.last() == bc);
    }
    let base = match Base::from_char(bc) {
        Ok(b) => b,
        Err(e) => return Err(e),
    };
    let body = input.substring_char(lo, hi - 1);
    proof {
        assert(body@ =~= t.drop_last());
    }
    let tokens = match tokenize(body) {
        Ok(v) => v,
        Err(e) => return Err(e),
    };
    let ghost gtokens = tokens@;
    let postfix = match shunting_yard(tokens) {
        Ok(v) => v,
        Err(e) => return Err(e),
    };
    proof {
        lemma_shunting_output_wf(gtokens);
    }
    let value = match evaluate_rpn(postfix) {
        Ok(v) => v,
        Err(e) => return Err(e),
    };
    let result = Number { value, base };
    Ok(result.format())
}

} // verus!
