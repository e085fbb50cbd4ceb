//! Base-tagged 64-bit integers: parsing from and formatting to prefixed text
//! (`d` for decimal, `h` for hexadecimal), with a proved round trip.
use vstd::prelude::*;
use vstd::arithmetic::div_mod::lemma_fundamental_div_mod;
use vstd::string::StrSliceExecFns;
use crate::chars::chars_to_string;
use crate::error::{ErrKind, EvalError};

verus! {

/// The radix a literal is written in, named by its one-character marker.
#[derive(Debug, Clone, Copy, PartialEq, Eq, Structural)]
pub enum Base {
    Decimal,
    Hexadecimal,
}

/// A 64-bit signed integer tagged with the base it is rendered in.
#[derive(Debug, Clone, Copy, PartialEq, Eq, Structural)]
pub struct Number {
    pub value: i64,
    pub base: Base,
}

pub open spec fn radix(b: Base) -> int {
    match b {
        Base::Decimal => 10,
        Base::Hexadecimal => 16,
    }
}

pub open spec fn is_base_char(c: char) -> bool {
    c == 'd' || c == 'h'
}

pub open spec fn base_of_char(c: char) -> Base {
    if c == 'd' {
        Base::Decimal
    } else {
        Base::Hexadecimal
    }
}

pub open spec fn base_char(b: Base) -> char {
    match b {
        Base::Decimal => 'd',
        Base::Hexadecimal => 'h',
    }
}

/// Numeric value of a hexadecimal digit character, 16 for anything else, so
/// that `hex_digit_value(c) < radix(b)` says `c` is a digit of base `b`.
pub open spec fn hex_digit_value(c: char) -> int {
    match c {
        '0' => 0,
        '1' => 1,
        '2' => 2,
        '3' => 3,
        '4' => 4,
        '5' => 5,
        '6' => 6,
        '7' => 7,
        '8' => 8,
        '9' => 9,
        'a' | 'A' => 10,
        'b' | 'B' => 11,
        'c' | 'C' => 12,
        'd' | 'D' => 13,
        'e' | 'E' => 14,
        'f' | 'F' => 15,
        _ => 16,
    }
}

pub open spec fn is_digit_of(c: char, b: Base) -> bool {
    hex_digit_value(c) < radix(b)
}

pub open spec fn all_digits(s: Seq<char>, b: Base) -> bool {
    forall|i: int| 0 <= i < s.len() ==> is_digit_of(s[i], b)
}

/// Unsigned value of a digit string read most significant digit first.
pub open spec fn digits_val(s: Seq<char>, b: Base) -> int
    decreases s.len(),
{
    if s.len() == 0 {
        0
    } else {
        digits_val(s.drop_last(), b) * radix(b) + hex_digit_value(s.last())
    }
}

/// Is `s` (the text after the base marker) a signed literal body of base
/// `b`: one optional leading minus, then at least one digit of that base?
pub open spec fn body_ok(s: Seq<char>, b: Base) -> bool {
    if s.len() > 0 && s[0] == '-' {
        s.len() > 1 && all_digits(s.skip(1), b)
    } else {
        s.len() > 0 && all_digits(s, b)
    }
}

/// The signed value of such a body.
pub open spec fn body_val(s: Seq<char>, b: Base) -> int {
    if s.len() > 0 && s[0] == '-' {
        -digits_val(s.skip(1), b)
    } else {
        digits_val(s, b)
    }
}

/// What `Number::parse` returns on a given text: the first character names
/// the base, the remainder must be a literal body whose value fits in an
/// `i64`.
pub open spec fn parse_spec(s: Seq<char>) -> Result<Number, ErrKind> {
    if s.len() == 0 {
        Err(ErrKind::EmptyNumber)
    } else if !is_base_char(s[0]) {
        Err(ErrKind::InvalidBase(s[0]))
    } else {
        let b = base_of_char(s[0]);
        let body = s.skip(1);
        if body_ok(body, b) && i64::MIN <= body_val(body, b) <= i64::MAX {
            Ok(Number { value: body_val(body, b) as i64, base: b })
        } else {
            Err(ErrKind::InvalidNumber(body))
        }
    }
}

/// Digit character for a value below 16, uppercase for ten and above.
pub open spec fn digit_char(v: int) -> char {
    if v == 0 {
        '0'
    } else if v == 1 {
        '1'
    } else if v == 2 {
        '2'
    } else if v == 3 {
        '3'
    } else if v == 4 {
        '4'
    } else if v == 5 {
        '5'
    } else if v == 6 {
        '6'
    } else if v == 7 {
        '7'
    } else if v == 8 {
        '8'
    } else if v == 9 {
        '9'
    } else if v == 10 {
        'A'
    } else if v == 11 {
        'B'
    } else if v == 12 {
        'C'
    } else if v == 13 {
        'D'
    } else if v == 14 {
        'E'
    } else {
        'F'
    }
}

/// Decimal digit characters of `n`, most significant first.
pub open spec fn dec_digits_of(n: nat) -> Seq<char>
    decreases n,
{
    if n < 10 {
        seq![digit_char(n as int)]
    } else {
        dec_digits_of(n / 10).push(digit_char((n % 10) as int))
    }
}

/// Uppercase hexadecimal digit characters of `n`, most significant first.
pub open spec fn hex_digits_of(n: nat) -> Seq<char>
    decreases n,
{
    if n < 16 {
        seq![digit_char(n as int)]
    } else {
        hex_digits_of(n / 16).push(digit_char((n % 16) as int))
    }
}

pub open spec fn digits_of(n: nat, b: Base) -> Seq<char> {
    match b {
        Base::Decimal => dec_digits_of(n),
        Base::Hexadecimal => hex_digits_of(n),
    }
}

/// The canonical text of a number: its base marker, a minus sign when the
/// value is negative, then the digits of the magnitude (uppercase for
/// hexadecimal).  A negative hexadecimal value is rendered sign-magnitude
/// (`h-A` for minus ten), so that every formatted number parses back to
/// itself.
pub open spec fn format_spec(n: Number) -> Seq<char> {
    let mag = (if n.value < 0 {
        -(n.value as int)
    } else {
        n.value as int
    }) as nat;
    if n.value < 0 {
        seq![base_char(n.base), '-'] + digits_of(mag, n.base)
    } else {
        seq![base_char(n.base)] + digits_of(mag, n.base)
    }
}

impl Base {
    /// Decodes a base marker: `d` is decimal, `h` is hexadecimal; anything
    /// else is rejected.
    pub fn from_char(c: char) -> (r: Result<Base, EvalError>)
        ensures
            is_base_char(c) ==> r == Ok::<Base, EvalError>(base_of_char(c)),
            !is_base_char(c) ==> r == Err::<Base, EvalError>(EvalError::InvalidBase(c)),
    {
        match c {
            'd' => Ok(Base::Decimal),
            'h' => Ok(Base::Hexadecimal),
            _ => Err(EvalError::InvalidBase(c)),
        }
    }

    /// The radix as a machine integer.
    pub fn radix_u64(&self) -> (r: u64)
        ensures
            r as int == radix(*self),
    {
        match self {
            Base::Decimal => 10,
            Base::Hexadecimal => 16,
        }
    }
}

/// Digit character of a value below 16 (exec twin of `digit_char`).
pub fn digit_to_char(v: u64) -> (c: char)
    requires
        v < 16,
    ensures
        c == digit_char(v as int),
{
    match v {
        0 => '0',
        1 => '1',
        2 => '2',
        3 => '3',
        4 => '4',
        5 => '5',
        6 => '6',
        7 => '7',
        8 => '8',
        9 => '9',
        10 => 'A',
        11 => 'B',
        12 => 'C',
        13 => 'D',
        14 => 'E',
        _ => 'F',
    }
}

/// Value of a hexadecimal digit character, 16 for anything else (exec twin
/// of `hex_digit_value`).
pub fn char_digit_value(c: char) -> (r: u8)
    ensures
        r as int == hex_digit_value(c),
{
    match c {
        '0' => 0,
        '1' => 1,
        '2' => 2,
        '3' => 3,
        '4' => 4,
        '5' => 5,
        '6' => 6,
        '7' => 7,
        '8' => 8,
        '9' => 9,
        'a' | 'A' => 10,
        'b' | 'B' => 11,
        'c' | 'C' => 12,
        'd' | 'D' => 13,
        'e' | 'E' => 14,
        'f' | 'F' => 15,
        _ => 16,
    }
}

/// The value of a digit string is never negative.
pub proof fn lemma_digits_val_nonneg(s: Seq<char>, b: Base)
    ensures
        digits_val(s, b) >= 0,
    decreases s.len(),
{
    if s.len() > 0 {
        lemma_digits_val_nonneg(s.drop_last(), b);
        assert(digits_val(s.drop_last(), b) * radix(b) >= 0) by (nonlinear_arith)
            requires
                digits_val(s.drop_last(), b) >= 0,
                radix(b) > 0,
        ;
    }
}

/// Extending a digit string on the right never lowers its value.
pub proof fn lemma_digits_val_prefix(s: Seq<char>, k: int, b: Base)
    requires
        0 <= k <= s.len(),
    ensures
        digits_val(s, b) >= digits_val(s.take(k), b),
    decreases s.len() - k,
{
    if k < s.len() {
        let p = s.take(k);
        let q = s.take(k + 1);
        assert(q.drop_last() =~= p);
        lemma_digits_val_nonneg(p, b);
        assert(digits_val(p, b) * radix(b) >= digits_val(p, b)) by (nonlinear_arith)
            requires
                digits_val(p, b) >= 0,
                radix(b) >= 1,
        ;
        assert(digits_val(q, b) >= digits_val(p, b));
        lemma_digits_val_prefix(s, k + 1, b);
    } else {
        assert(s.take(k) =~= s);
    }
}

/// A digit character reads back as the value it was made from.
pub proof fn lemma_digit_char_value(v: int)
    requires
        0 <= v < 16,
    ensures
        hex_digit_value(digit_char(v)) == v,
{
}

/// The digit characters of a magnitude are digits of the base: at least one
/// of them, each valid, and none of them a minus sign.
pub proof fn lemma_digits_of_valid(n: nat, b: Base)
    ensures
        digits_of(n, b).len() >= 1,
        all_digits(digits_of(n, b), b),
        digits_of(n, b)[0] != '-',
    decreases n,
{
    let r = radix(b) as nat;
    if n < r {
        assert(is_digit_of(digit_char(n as int), b));
    } else {
        assert(n / r < n) by (nonlinear_arith)
            requires
                n >= r,
                r >= 10,
        ;
        lemma_digits_of_valid(n / r, b);
        let tail = digits_of(n / r, b);
        let whole = digits_of(n, b);
        assert(whole =~= tail.push(digit_char((n % r) as int)));
        assert(is_digit_of(digit_char((n % r) as int), b));
        assert forall|i: int| 0 <= i < whole.len() implies is_digit_of(whole[i], b) by {
            if i < tail.len() {
                assert(whole[i] == tail[i]);
            }
        }
    }
}

/// Reading the digit characters of `n` back as a digit string gives `n`.
pub proof fn lemma_digits_of_val(n: nat, b: Base)
    ensures
        digits_val(digits_of(n, b), b) == n,
    decreases n,
{
    let r = radix(b) as nat;
    if n < r {
        let s = digits_of(n, b);
        lemma_digit_char_value(n as int);
        assert(s == seq![digit_char(n as int)]);
        assert(s.drop_last() =~= Seq::<char>::empty());
        assert(digits_val(Seq::<char>::empty(), b) == 0);
        assert(digits_val(s, b) == 0 * radix(b) + hex_digit_value(digit_char(n as int)));
    } else {
        lemma_digit_char_value((n % r) as int);
        assert(n / r < n) by (nonlinear_arith)
            requires
                n >= r,
                r >= 10,
        ;
        lemma_digits_of_val(n / r, b);
        let tail = digits_of(n / r, b);
        let whole = digits_of(n, b);
        assert(whole == tail.push(digit_char((n % r) as int)));
        assert(whole.drop_last() =~= tail);
        assert(whole.last() == digit_char((n % r) as int));
        assert(digits_val(whole, b) == digits_val(tail, b) * radix(b) + (n % r));
        lemma_fundamental_div_mod(n as int, r as int);
    }
}

/// Round trip: every number parses back from its own rendering, whatever
/// its value and base.
pub proof fn lemma_parse_format_roundtrip(v: i64, b: Base)
    ensures
        parse_spec(format_spec(Number { value: v, base: b })) == Ok::<Number, ErrKind>(
            Number { value: v, base: b },
        ),
{
    let num = Number { value: v, base: b };
    let t = format_spec(num);
    let mag = (if v < 0 {
        -(v as int)
    } else {
        v as int
    }) as nat;
    lemma_digits_of_valid(mag, b);
    lemma_digits_of_val(mag, b);
    let digits = digits_of(mag, b);
    assert(t[0] == base_char(b));
    assert(is_base_char(t[0]));
    assert(base_of_char(t[0]) == b);
    let body = t.skip(1);
    if v < 0 {
        assert(body[0] == '-');
        assert(body.skip(1) =~= digits);
        assert(body_ok(body, b));
        assert(body_val(body, b) == -(mag as int) == v as int);
    } else {
        assert(body =~= digits);
        assert(body[0] != '-');
        assert(body_ok(body, b));
        assert(body_val(body, b) == mag as int == v as int);
    }
}

/// Formatting is idempotent: rendering a number, parsing that text and
/// rendering the parse result gives the original text again.
pub proof fn lemma_format_idempotent(v: i64, b: Base)
    ensures
        parse_spec(format_spec(Number { value: v, base: b })) is Ok,
        format_spec(parse_spec(format_spec(Number { value: v, base: b }))->Ok_0) == format_spec(
            Number { value: v, base: b },
        ),
{
    lemma_parse_format_roundtrip(v, b);
}

/// Builds the `InvalidNumber` error carrying the literal body.
fn invalid_number_err(input: &str, n: usize) -> (e: EvalError)
    requires
        input@.len() == n as int,
        n >= 1,
    ensures
        e.sv() == ErrKind::InvalidNumber(input@.skip(1)),
{
    let rest = input.substring_char(1, n);
    proof {
        assert(input@.subrange(1, n as int) =~= input@.skip(1));
    }
    EvalError::InvalidNumber(rest.to_owned())
}

impl Number {
    /// Parses a prefixed literal: the first character names the base, then
    /// an optional minus, then digits of that base.  Every error case is
    /// pinned down by `parse_spec`.
    pub fn parse(input: &str) -> (r: Result<Number, EvalError>)
        ensures
            (match r {
                Ok(num) => Ok::<Number, ErrKind>(num),
                Err(e) => Err(e.sv()),
            }) == parse_spec(input@),
    {
        let n = input.unicode_len();
        if n == 0 {
            return Err(EvalError::EmptyNumber);
        }
        let c0 = input.get_char(0);
        let base = match Base::from_char(c0) {
            Ok(b) => b,
            Err(e) => return Err(e),
        };
        let neg = n >= 2 && input.get_char(1) == '-';
        let start: usize = if neg {
            2
        } else {
            1
        };
        let limit: u128 = if neg {
            9223372036854775808
        } else {
            9223372036854775807
        };
        let rdx = base.radix_u64();
        if n <= start {
            // body is empty, or a lone minus sign
            return Err(invalid_number_err(input, n));
        }
        let ghost digits = input@.skip(start as int);
        proof {
            if neg {
                assert(input@.skip(1).skip(1) =~= digits);
            }
        }
        let mut acc: u128 = 0;
        let mut i: usize = start;
        while i < n
            invariant
                start <= i <= n == input@.len(),
                1 <= start <= 2,
                n > start,
                rdx as int == radix(base),
                rdx == 10 || rdx == 16,
                limit == if neg { 9223372036854775808u128 } else { 9223372036854775807u128 },
                neg == (n >= 2 && input@[1] == '-'),
                start == if neg { 2int } else { 1int },
                is_base_char(input@[0]),
                base == base_of_char(input@[0]),
                digits == input@.skip(start as int),
                all_digits(input@.subrange(start as int, i as int), base),
                acc as int == digits_val(input@.subrange(start as int, i as int), base),
                acc <= limit,
            decreases n - i,
        {
            let ghost pre = input@.subrange(start as int, i as int);
            let c = input.get_char(i);
            let dv = char_digit_value(c);
            if (dv as u64) >= rdx {
                // a character that is not a digit of this base: the body can
                // never satisfy `body_ok`
                proof {
                    let body = input@.skip(1);
                    assert(!is_digit_of(c, base));
                    if neg {
                        assert(body.skip(1)[i - 2] == c);
                        assert(!all_digits(body.skip(1), base));
                    } else {
                        assert(body[i - 1] == c);
                        assert(!all_digits(body, base));
                    }
                    assert(!body_ok(body, base));
                }
                return Err(invalid_number_err(input, n));
            }
            assert((acc as int) * (rdx as int) + (dv as int) <= (limit as int) * 16 + 15)
                by (nonlinear_arith)
                requires
                    acc as int <= limit as int,
                    0 <= dv as int <= 15,
                    0 < rdx as int <= 16,
                    limit as int >= 0,
            ;
            let next: u128 = acc * (rdx as u128) + (dv as u128);
            proof {
                let cur = input@.subrange(start as int, i as int + 1);
                assert(cur.drop_last() =~= pre);
                assert(next as int == digits_val(cur, base));
            }
            if next > limit {
                // the magnitude already exceeds what an i64 can hold; the
                // digits that remain can only enlarge it
                proof {
                    let body = input@.skip(1);
                    let cur = input@.subrange(start as int, i as int + 1);
                    if body_ok(body, base) {
                        assert(cur =~= digits.take(i + 1 - start));
                        lemma_digits_val_prefix(digits, i + 1 - start, base);
                        if neg {
                            assert(body.skip(1) =~= digits);
                            assert(body_val(body, base) == -digits_val(digits, base));
                            assert(body_val(body, base) < i64::MIN);
                        } else {
                            assert(body[0] != '-');
                            assert(body =~= digits);
                            assert(body_val(body, base) > i64::MAX);
                        }
                    }
                }
                return Err(invalid_number_err(input, n));
            }
            acc = next;
            i += 1;
        }
        proof {
            assert(input@.subrange(start as int, n as int) =~= digits);
            let body = input@.skip(1);
            if neg {
                assert(body[0] == '-');
                assert(body.skip(1) =~= digits);
                assert(body_ok(body, base));
                assert(body_val(body, base) == -(acc as int));
            } else {
                assert(body[0] != '-');
                assert(body =~= digits);
                assert(body_ok(body, base));
                assert(body_val(body, base) == acc as int);
            }
        }
        let value: i64 = if neg {
            if acc == 9223372036854775808 {
                i64::MIN
            } else {
                -(acc as i64)
            }
        } else {
            acc as i64
        };
        Ok(Number { value, base })
    }

    /// Renders the number as `format_spec` describes: base marker, optional
    /// minus, digits of the magnitude.
    pub fn format(&self) -> (r: String)
        ensures
            r@ == format_spec(*self),
    {
        let mut out: Vec<char> = Vec::new();
        out.push(match self.base {
            Base::Decimal => 'd',
            Base::Hexadecimal => 'h',
        });
        if self.value < 0 {
            out.push('-');
        }
        let mag: u64 = if self.value < 0 {
            (-(self.value as i128)) as u64
        } else {
            self.value as u64
        };
        let rdx = self.base.radix_u64();
        let mut ds: Vec<char> = Vec::new();
        let mut m: u64 = mag;
        let d0 = digit_to_char(m % rdx);
        ds.push(d0);
        m = m / rdx;
        while m > 0
            invariant
                rdx as int == radix(self.base),
                rdx == 10 || rdx == 16,
                ds@.len() >= 1,
                m == 0 ==> digits_of(mag as nat, self.base) == ds@,
                m > 0 ==> digits_of(mag as nat, self.base) == digits_of(m as nat, self.base)
                    + ds@,
            decreases m,
        {
            let d = digit_to_char(m % rdx);
            let ghost old_ds = ds@;
            ds.insert(0, d);
            proof {
                assert(ds@ =~= seq![d] + old_ds);
                if m >= rdx {
                    assert(digits_of((m / rdx) as nat, self.base).push(digit_char((m % rdx) as int))
                        + old_ds =~= digits_of((m / rdx) as nat, self.base) + ds@);
                } else {
                    assert(digits_of(m as nat, self.base) == seq![digit_char(m as int)]);
                    assert(seq![digit_char(m as int)] + old_ds =~= ds@);
                }
            }
            m = m / rdx;
        }
        let ghost prefix = out@;
        out.append(&mut ds);
        let r = chars_to_string(out.as_slice());
        proof {
            assert(out@ =~= prefix + digits_of(mag as nat, self.base));
            assert(r@ =~= format_spec(*self));
        }
        r
    }
}

} // verus!
