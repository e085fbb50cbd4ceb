//! Character-level helpers shared by the tokenizer and the number parser:
//! whitespace classification, whitespace stripping and trimming of character
//! sequences, digit/character conversions, and turning a character vector
//! back into a `String`.
use vstd::prelude::*;

verus! {

/// The Unicode `White_Space` characters, the ones `char::is_whitespace`
/// accepts.
pub open spec fn is_ws_char(c: char) -> bool {
    c == ' ' || c == '\t' || c == '\n' || c == '\r' || c == '\u{000B}' || c == '\u{000C}'
        || c == '\u{0085}' || c == '\u{00A0}' || c == '\u{1680}' || c == '\u{2000}'
        || c == '\u{2001}' || c == '\u{2002}' || c == '\u{2003}' || c == '\u{2004}'
        || c == '\u{2005}' || c == '\u{2006}' || c == '\u{2007}' || c == '\u{2008}'
        || c == '\u{2009}' || c == '\u{200A}' || c == '\u{2028}' || c == '\u{2029}'
        || c == '\u{202F}' || c == '\u{205F}' || c == '\u{3000}'
}

pub fn is_ws(c: char) -> (r: bool)
    ensures
        r == is_ws_char(c),
{
    match c {
        ' ' | '\t' | '\n' | '\r' | '\u{000B}' | '\u{000C}' | '\u{0085}' | '\u{00A0}'
            | '\u{1680}' | '\u{2000}' | '\u{2001}' | '\u{2002}' | '\u{2003}' | '\u{2004}'
            | '\u{2005}' | '\u{2006}' | '\u{2007}' | '\u{2008}' | '\u{2009}' | '\u{200A}'
            | '\u{2028}' | '\u{2029}' | '\u{202F}' | '\u{205F}' | '\u{3000}' => true,
        _ => false,
    }
}

/// `s` with every whitespace character removed.
pub open spec fn strip_ws(s: Seq<char>) -> Seq<char>
    decreases s.len(),
{
    if s.len() == 0 {
        Seq::empty()
    } else if is_ws_char(s.last()) {
        strip_ws(s.drop_last())
    } else {
        strip_ws(s.drop_last()).push(s.last())
    }
}

/// `s` without its leading whitespace.
pub open spec fn trim_front(s: Seq<char>) -> Seq<char>
    decreases s.len(),
{
    if s.len() > 0 && is_ws_char(s.first()) {
        trim_front(s.drop_first())
    } else {
        s
    }
}

/// `s` without its trailing whitespace.
pub open spec fn trim_back(s: Seq<char>) -> Seq<char>
    decreases s.len(),
{
    if s.len() > 0 && is_ws_char(s.last()) {
        trim_back(s.drop_last())
    } else {
        s
    }
}

/// `s` without leading and trailing whitespace, as `str::trim` gives it.
pub open spec fn trim_spec(s: Seq<char>) -> Seq<char> {
    trim_front(trim_back(s))
}

/// Dropping a leading whitespace character does not change the stripped
/// text.
pub proof fn lemma_strip_ws_drop_first(s: Seq<char>)
    requires
        s.len() > 0,
        is_ws_char(s.first()),
    ensures
        strip_ws(s.drop_first()) == strip_ws(s),
    decreases s.len(),
{
    if s.len() == 1 {
        assert(s.drop_first() =~= Seq::<char>::empty());
        assert(s.drop_last() =~= Seq::<char>::empty());
        assert(s.last() == s.first());
        assert(strip_ws(s) == strip_ws(s.drop_last()));
    } else {
        let t = s.drop_last();
        let d = s.drop_first();
        assert(t.first() == s.first());
        lemma_strip_ws_drop_first(t);
        assert(d.drop_last() =~= t.drop_first());
        assert(d.last() == s.last());
        assert(d.len() > 0);
        if is_ws_char(s.last()) {
            assert(strip_ws(s) == strip_ws(t));
            assert(strip_ws(d) == strip_ws(d.drop_last()));
        } else {
            assert(strip_ws(s) == strip_ws(t).push(s.last()));
            assert(strip_ws(d) == strip_ws(d.drop_last()).push(d.last()));
        }
    }
}

/// Trimming leading whitespace does not change the stripped text.
pub proof fn lemma_strip_trim_front(s: Seq<char>)
    ensures
        strip_ws(trim_front(s)) == strip_ws(s),
    decreases s.len(),
{
    if s.len() > 0 && is_ws_char(s.first()) {
        lemma_strip_ws_drop_first(s);
        lemma_strip_trim_front(s.drop_first());
    }
}

/// Trimming trailing whitespace does not change the stripped text.
pub proof fn lemma_strip_trim_back(s: Seq<char>)
    ensures
        strip_ws(trim_back(s)) == strip_ws(s),
    decreases s.len(),
{
    if s.len() > 0 && is_ws_char(s.last()) {
        lemma_strip_trim_back(s.drop_last());
    }
}

/// Trimming does not change the stripped text.
pub proof fn lemma_strip_trim(s: Seq<char>)
    ensures
        strip_ws(trim_spec(s)) == strip_ws(s),
{
    lemma_strip_trim_back(s);
    lemma_strip_trim_front(trim_back(s));
}

/// A nonempty back-trimmed text ends in a non-whitespace character.
pub proof fn lemma_trim_back_last(s: Seq<char>)
    ensures
        trim_back(s).len() > 0 ==> !is_ws_char(trim_back(s).last()),
    decreases s.len(),
{
    if s.len() > 0 && is_ws_char(s.last()) {
        lemma_trim_back_last(s.drop_last());
    }
}

/// Trimming leading whitespace keeps the last character.
pub proof fn lemma_trim_front_last(s: Seq<char>)
    ensures
        trim_front(s).len() > 0 ==> s.len() > 0 && trim_front(s).last() == s.last(),
    decreases s.len(),
{
    if s.len() > 0 && is_ws_char(s.first()) {
        lemma_trim_front_last(s.drop_first());
        if trim_front(s).len() > 0 {
            assert(s.drop_first().last() == s.last());
        }
    }
}

/// Relies on `<String as FromIterator<char>>`, via `Iterator::collect`: the
/// string holds exactly the characters of the slice, in order.
#[verifier::external_body]
pub fn chars_to_string(v: &[char]) -> (r: String)
    ensures
        r@ == v@,
{
    v.iter().collect()
}

} // verus!
