//! Lexical rules: character classes, blank space, numbers, strings, names.
//!
//! Every scanner takes the whole buffer and an offset and returns what it
//! read together with the offset after it. The result of each is proved
//! equal to a mathematical definition over `Seq<u8>`.

use vstd::prelude::*;
use vstd::string::*;
use crate::error::ExtractError;

verus! {

/// The largest magnitude that the whole part of a number can take; longer
/// digit runs saturate here.
pub const NUMBER_CAP: i64 = 1_000_000_000_000_000;

/// A numeric token.
#[derive(Clone, Copy, Debug, PartialEq, Eq, Structural)]
pub enum Number {
    Integer(i64),
    /// Thousandths; digits after the third decimal place are dropped.
    Real(i64),
}

/// Whether `b` is one of the six white-space bytes.
#[verifier::allow_in_spec]
pub fn is_whitespace(b: u8) -> bool
    returns
        (b == 0 || b == 9 || b == 10 || b == 12 || b == 13 || b == 32),
{
    b == 0 || b == 9 || b == 10 || b == 12 || b == 13 || b == 32
}

/// Whether `b` is one of the ten delimiters.
#[verifier::allow_in_spec]
pub fn is_delimiter(b: u8) -> bool
    returns
        (b == 40 || b == 41 || b == 60 || b == 62 || b == 91 || b == 93 || b == 123 || b == 125
            || b == 47 || b == 37),
{
    b == 40 || b == 41 || b == 60 || b == 62 || b == 91 || b == 93 || b == 123 || b == 125 || b
        == 47 || b == 37
}

/// Whether `b` is neither white space nor a delimiter.
#[verifier::allow_in_spec]
pub fn is_regular(b: u8) -> bool
    returns
        (!is_whitespace(b) && !is_delimiter(b)),
{
    !is_whitespace(b) && !is_delimiter(b)
}

/// Whether `b` is a decimal digit.
#[verifier::allow_in_spec]
pub fn is_digit(b: u8) -> bool
    returns
        (48 <= b && b <= 57),
{
    48 <= b && b <= 57
}

/// Whether `b` is an octal digit.
#[verifier::allow_in_spec]
pub fn is_octal_digit(b: u8) -> bool
    returns
        (48 <= b && b <= 55),
{
    48 <= b && b <= 55
}

/// Whether `b` is a hexadecimal digit of either case.
#[verifier::allow_in_spec]
pub fn is_hex_digit(b: u8) -> bool
    returns
        ((48 <= b && b <= 57) || (65 <= b && b <= 70) || (97 <= b && b <= 102)),
{
    (48 <= b && b <= 57) || (65 <= b && b <= 70) || (97 <= b && b <= 102)
}

/// The value of a hexadecimal digit; 0 for any other byte.
#[verifier::allow_in_spec]
pub fn hex_value(b: u8) -> u8
    returns
        (if 48 <= b && b <= 57 {
            (b - 48) as u8
        } else if 65 <= b && b <= 70 {
            (b - 55) as u8
        } else if 97 <= b && b <= 102 {
            (b - 87) as u8
        } else {
            0u8
        }),
{
    if 48 <= b && b <= 57 {
        b - 48
    } else if 65 <= b && b <= 70 {
        b - 55
    } else if 97 <= b && b <= 102 {
        b - 87
    } else {
        0
    }
}

/// What a backslash followed by `c` stands for, where `c` is neither an octal
/// digit nor a line end.
#[verifier::allow_in_spec]
pub fn unescape(c: u8) -> u8
    returns
        (if c == 110 {
            10u8
        } else if c == 114 {
            13u8
        } else if c == 116 {
            9u8
        } else if c == 98 {
            8u8
        } else if c == 102 {
            12u8
        } else {
            c
        }),
{
    if c == 110 {
        10
    } else if c == 114 {
        13
    } else if c == 116 {
        9
    } else if c == 98 {
        8
    } else if c == 102 {
        12
    } else {
        c
    }
}

/// A scanner's result with the bytes taken by their view.
pub open spec fn lift_bytes(r: Result<(Vec<u8>, usize), ExtractError>) -> Result<
    (Seq<u8>, int),
    ExtractError,
> {
    match r {
        Ok((v, e)) => Ok((v@, e as int)),
        Err(e) => Err(e),
    }
}

/// The offset of the first byte at or after `p` that belongs neither to
/// white space nor to a comment. A comment runs from `%` to the line end.
pub open spec fn spec_skip_blank(s: Seq<u8>, p: int, in_comment: bool) -> int
    decreases s.len() - p,
{
    if p < 0 || p >= s.len() {
        p
    } else if in_comment {
        spec_skip_blank(s, p + 1, !(s[p] == 10 || s[p] == 13))
    } else if is_whitespace(s[p]) {
        spec_skip_blank(s, p + 1, false)
    } else if s[p] == 37 {
        spec_skip_blank(s, p + 1, true)
    } else {
        p
    }
}

/// The offset of the first byte at or after `p` that is neither white space
/// nor part of a comment.
pub open spec fn spec_skip_whitespace(s: Seq<u8>, p: int) -> int {
    spec_skip_blank(s, p, false)
}

/// Skipping stops at the end of the data or at a byte that is neither
/// white space nor the start of a comment, and never goes back.
pub proof fn lemma_skip_whitespace_stops(s: Seq<u8>, p: int, in_comment: bool)
    requires
        0 <= p <= s.len(),
    ensures
        p <= spec_skip_blank(s, p, in_comment) <= s.len(),
        spec_skip_blank(s, p, in_comment) < s.len() ==> !is_whitespace(
            s[spec_skip_blank(s, p, in_comment)],
        ) && s[spec_skip_blank(s, p, in_comment)] != 37,
    decreases s.len() - p,
{
    if p < s.len() {
        if in_comment {
            lemma_skip_whitespace_stops(s, p + 1, !(s[p] == 10 || s[p] == 13));
        } else if is_whitespace(s[p]) {
            lemma_skip_whitespace_stops(s, p + 1, false);
        } else if s[p] == 37 {
            lemma_skip_whitespace_stops(s, p + 1, true);
        }
    }
}

/// Skips white space and comments.
pub fn skip_whitespace(data: &[u8], pos: usize) -> (r: usize)
    ensures
        r == spec_skip_whitespace(data@, pos as int),
        pos <= r,
        pos <= data.len() ==> r <= data.len(),
{
    if pos > data.len() {
        return pos;
    }
    let mut i: usize = pos;
    let mut in_comment: bool = false;
    while i < data.len() && (in_comment || is_whitespace(data[i]) || data[i] == 37)
        invariant
            pos <= i <= data.len(),
            spec_skip_blank(data@, pos as int, false) == spec_skip_blank(
                data@,
                i as int,
                in_comment,
            ),
        decreases data.len() - i,
    {
        if in_comment {
            in_comment = !(data[i] == 10 || data[i] == 13);
        } else if !is_whitespace(data[i]) {
            in_comment = true;
        }
        i += 1;
    }
    i
}

/// The end of the run of regular bytes that starts at `p`.
pub open spec fn spec_regular_end(s: Seq<u8>, p: int) -> int
    decreases s.len() - p,
{
    if 0 <= p < s.len() && is_regular(s[p]) {
        spec_regular_end(s, p + 1)
    } else {
        p
    }
}

/// A run of regular bytes holds regular bytes only and ends at the end of
/// the data or before a byte that is not regular.
pub proof fn lemma_regular_run(s: Seq<u8>, p: int)
    requires
        0 <= p <= s.len(),
    ensures
        p <= spec_regular_end(s, p) <= s.len(),
        forall|i: int| p <= i < spec_regular_end(s, p) ==> is_regular(#[trigger] s[i]),
        spec_regular_end(s, p) < s.len() ==> !is_regular(s[spec_regular_end(s, p)]),
    decreases s.len() - p,
{
    if p < s.len() && is_regular(s[p]) {
        lemma_regular_run(s, p + 1);
    }
}

/// Finds the end of the run of regular bytes that starts at `pos`.
pub fn regular_end(data: &[u8], pos: usize) -> (r: usize)
    ensures
        r == spec_regular_end(data@, pos as int),
        pos <= r,
        pos <= data.len() ==> r <= data.len(),
        r > pos <==> pos < data.len() && is_regular(data@[pos as int]),
{
    if pos > data.len() {
        return pos;
    }
    let mut i: usize = pos;
    while i < data.len() && is_regular(data[i])
        invariant
            pos <= i <= data.len(),
            spec_regular_end(data@, pos as int) == spec_regular_end(data@, i as int),
            i > pos ==> is_regular(data@[pos as int]),
        decreases data.len() - i,
    {
        i += 1;
    }
    i
}

/// The bytes of `s` from `start` to `end` are there and spell `w`.
pub open spec fn spec_matches_word(s: Seq<u8>, start: int, end: int, w: Seq<u8>) -> bool {
    0 <= start <= end <= s.len() && s.subrange(start, end) == w
}

/// Whether the bytes of `data` from `start` to `end` spell `word`.
pub fn matches_word(data: &[u8], start: usize, end: usize, word: &str) -> (r: bool)
    ensures
        r == spec_matches_word(data@, start as int, end as int, word.spec_bytes()),
{
    if start > end || end > data.len() {
        return false;
    }
    let w = word.as_bytes();
    if w.len() != end - start {
        return false;
    }
    let mut i: usize = 0;
    while i < w.len()
        invariant
            start <= end <= data.len(),
            w.len() == end - start,
            w@ == word.spec_bytes(),
            i <= w.len(),
            forall|k: int| 0 <= k < i ==> data@[start + k] == w@[k],
        decreases w.len() - i,
    {
        if data[start + i] != w[i] {
            assert(data@.subrange(start as int, end as int)[i as int] != w@[i as int]);
            return false;
        }
        i += 1;
    }
    assert(data@.subrange(start as int, end as int) =~= w@);
    true
}

/// The end of the run of decimal digits that starts at `i`.
pub open spec fn spec_digits_end(t: Seq<u8>, i: int) -> int
    decreases t.len() - i,
{
    if 0 <= i < t.len() && is_digit(t[i]) {
        spec_digits_end(t, i + 1)
    } else {
        i
    }
}

/// The number that a run of decimal digits denotes.
pub open spec fn decimal_value(d: Seq<u8>) -> int
    decreases d.len(),
{
    if d.len() == 0 {
        0
    } else {
        decimal_value(d.drop_last()) * 10 + (d.last() - 48)
    }
}

/// `v`, or the cap where `v` lies above it.
pub open spec fn capped(v: int) -> int {
    if v > NUMBER_CAP {
        NUMBER_CAP as int
    } else {
        v
    }
}

/// The digit at `i`, or 0 where there is none.
pub open spec fn digit_at(t: Seq<u8>, i: int) -> int {
    if 0 <= i < t.len() && is_digit(t[i]) {
        t[i] - 48
    } else {
        0
    }
}

/// `v` with the sign that was read.
pub open spec fn signed_value(negative: bool, v: int) -> int {
    if negative {
        -v
    } else {
        v
    }
}

/// The number that the token `t` denotes: an optional sign, digits, and
/// optionally a point and more digits, with a digit on at least one side of
/// the point. `None` where `t` is not of that shape.
pub open spec fn spec_number(t: Seq<u8>) -> Option<Number> {
    let signed = t.len() > 0 && (t[0] == 43 || t[0] == 45);
    let negative = t.len() > 0 && t[0] == 45;
    let i0: int = if signed {
        1
    } else {
        0
    };
    let i1 = spec_digits_end(t, i0);
    let whole = capped(decimal_value(t.subrange(i0, i1)));
    if i1 == t.len() {
        if i1 > i0 {
            Some(Number::Integer(signed_value(negative, whole) as i64))
        } else {
            None
        }
    } else if t[i1] == 46 && spec_digits_end(t, i1 + 1) == t.len() && (i1 > i0 || t.len() > i1
        + 1) {
        let frac = digit_at(t, i1 + 1) * 100 + digit_at(t, i1 + 2) * 10 + digit_at(t, i1 + 3);
        Some(Number::Real(signed_value(negative, whole * 1000 + frac) as i64))
    } else {
        None
    }
}

/// The decimal digits of `n`, without leading zeros.
pub open spec fn spec_decimal_digits(n: nat) -> Seq<u8>
    decreases n,
{
    if n < 10 {
        seq![(48 + n) as u8]
    } else {
        spec_decimal_digits(n / 10).push((48 + n % 10) as u8)
    }
}

proof fn lemma_decimal_digits(n: nat)
    ensures
        spec_decimal_digits(n).len() >= 1,
        forall|i: int| 0 <= i < spec_decimal_digits(n).len() ==> is_digit(
            #[trigger] spec_decimal_digits(n)[i],
        ),
        decimal_value(spec_decimal_digits(n)) == n,
    decreases n,
{
    let d = spec_decimal_digits(n);
    if n < 10 {
        assert(d.drop_last() =~= Seq::<u8>::empty());
        assert(decimal_value(d.drop_last()) == 0);
    } else {
        lemma_decimal_digits(n / 10);
        assert(d.drop_last() =~= spec_decimal_digits(n / 10));
    }
}

proof fn lemma_digits_end(t: Seq<u8>, i: int)
    requires
        0 <= i <= t.len(),
        forall|k: int| i <= k < t.len() ==> is_digit(#[trigger] t[k]),
    ensures
        spec_digits_end(t, i) == t.len(),
    decreases t.len() - i,
{
    if i < t.len() {
        lemma_digits_end(t, i + 1);
    }
}

/// The decimal text of a number reads as that number, as far as the cap
/// allows; with a minus sign before it, as its negative.
pub proof fn lemma_number_of_decimal_digits(n: nat)
    ensures
        spec_number(spec_decimal_digits(n)) == Some(Number::Integer(capped(n as int) as i64)),
        spec_number(seq![45u8] + spec_decimal_digits(n)) == Some(
            Number::Integer((-capped(n as int)) as i64),
        ),
{
    let d = spec_decimal_digits(n);
    lemma_decimal_digits(n);
    lemma_digits_end(d, 0);
    assert(is_digit(d[0]));
    assert(d.subrange(0, d.len() as int) =~= d);
    let m = seq![45u8] + d;
    assert forall|k: int| 1 <= k < m.len() implies is_digit(#[trigger] m[k]) by {
        assert(m[k] == d[k - 1]);
    }
    lemma_digits_end(m, 1);
    assert(m.subrange(1, m.len() as int) =~= d);
}

fn digit_after(tok: &[u8], i: usize, k: usize) -> (r: i64)
    requires
        i < tok.len(),
        k <= 3,
    ensures
        r == digit_at(tok@, i + k),
        0 <= r <= 9,
{
    if k < tok.len() - i && is_digit(tok[i + k]) {
        (tok[i + k] - 48) as i64
    } else {
        0
    }
}

/// Reads a token as a number.
pub fn parse_number(tok: &[u8]) -> (r: Option<Number>)
    ensures
        r == spec_number(tok@),
{
    let n: usize = tok.len();
    let signed: bool = n > 0 && (tok[0] == 43 || tok[0] == 45);
    let negative: bool = n > 0 && tok[0] == 45;
    let i0: usize = if signed {
        1
    } else {
        0
    };
    let mut i: usize = i0;
    let mut whole: i64 = 0;
    assert(tok@.subrange(i0 as int, i0 as int) =~= Seq::<u8>::empty());
    while i < n && is_digit(tok[i])
        invariant
            i0 <= i <= n,
            n == tok.len(),
            spec_digits_end(tok@, i0 as int) == spec_digits_end(tok@, i as int),
            whole == capped(decimal_value(tok@.subrange(i0 as int, i as int))),
            0 <= whole <= NUMBER_CAP,
        decreases n - i,
    {
        let d: i64 = (tok[i] - 48) as i64;
        proof {
            assert(tok@.subrange(i0 as int, i + 1).drop_last() =~= tok@.subrange(
                i0 as int,
                i as int,
            ));
        }
        let next: i64 = whole * 10 + d;
        whole =
        if next > NUMBER_CAP {
            NUMBER_CAP
        } else {
            next
        };
        i += 1;
    }
    if i == n {
        if i > i0 {
            Some(
                Number::Integer(
                    if negative {
                        -whole
                    } else {
                        whole
                    },
                ),
            )
        } else {
            None
        }
    } else if tok[i] == 46 {
        let mut j: usize = i + 1;
        while j < n && is_digit(tok[j])
            invariant
                i + 1 <= j <= n,
                n == tok.len(),
                spec_digits_end(tok@, i + 1) == spec_digits_end(tok@, j as int),
            decreases n - j,
        {
            j += 1;
        }
        if j == n && (i > i0 || n > i + 1) {
            let frac: i64 = digit_after(tok, i, 1) * 100 + digit_after(tok, i, 2) * 10
                + digit_after(tok, i, 3);
            let v: i64 = whole * 1000 + frac;
            Some(
                Number::Real(
                    if negative {
                        -v
                    } else {
                        v
                    },
                ),
            )
        } else {
            None
        }
    } else {
        None
    }
}

/// How many octal digits the escape at `p` has, where `s[p]` is the first.
pub open spec fn spec_octal_len(s: Seq<u8>, p: int) -> int {
    if p + 1 < s.len() && is_octal_digit(s[p + 1]) {
        if p + 2 < s.len() && is_octal_digit(s[p + 2]) {
            3
        } else {
            2
        }
    } else {
        1
    }
}

/// The byte that the octal escape at `p` denotes; high bits beyond a byte
/// are dropped.
pub open spec fn spec_octal_byte(s: Seq<u8>, p: int) -> u8 {
    let n = spec_octal_len(s, p);
    let v = if n == 1 {
        s[p] - 48
    } else if n == 2 {
        (s[p] - 48) * 8 + (s[p + 1] - 48)
    } else {
        (s[p] - 48) * 64 + (s[p + 1] - 48) * 8 + (s[p + 2] - 48)
    };
    (v % 256) as u8
}

/// The content of a literal string whose opening parenthesis has been read:
/// `p` is the current offset, `depth` the number of inner parentheses that
/// are open, `acc` what has been collected.
pub open spec fn spec_literal_string(s: Seq<u8>, p: int, depth: nat, acc: Seq<u8>) -> Result<
    (Seq<u8>, int),
    ExtractError,
>
    decreases s.len() - p,
{
    if p < 0 || p >= s.len() {
        Err(ExtractError::TruncatedInput)
    } else if s[p] == 41 {
        if depth == 0 {
            Ok((acc, p + 1))
        } else {
            spec_literal_string(s, p + 1, (depth - 1) as nat, acc.push(s[p]))
        }
    } else if s[p] == 40 {
        spec_literal_string(s, p + 1, depth + 1, acc.push(s[p]))
    } else if s[p] == 92 {
        if p + 1 >= s.len() {
            Err(ExtractError::TruncatedInput)
        } else if is_octal_digit(s[p + 1]) {
            spec_literal_string(
                s,
                p + 1 + spec_octal_len(s, p + 1),
                depth,
                acc.push(spec_octal_byte(s, p + 1)),
            )
        } else if s[p + 1] == 13 {
            if p + 2 < s.len() && s[p + 2] == 10 {
                spec_literal_string(s, p + 3, depth, acc)
            } else {
                spec_literal_string(s, p + 2, depth, acc)
            }
        } else if s[p + 1] == 10 {
            spec_literal_string(s, p + 2, depth, acc)
        } else {
            spec_literal_string(s, p + 2, depth, acc.push(unescape(s[p + 1])))
        }
    } else {
        spec_literal_string(s, p + 1, depth, acc.push(s[p]))
    }
}

/// Reads a literal string; `pos` is the offset after the opening parenthesis.
pub fn parse_literal_string(data: &[u8], pos: usize) -> (r: Result<(Vec<u8>, usize), ExtractError>)
    ensures
        r matches Err(e) ==> e.is_read_failure(),
        lift_bytes(r) == spec_literal_string(data@, pos as int, 0, Seq::empty()),
        r matches Ok((_, e)) ==> pos < e <= data.len(),
{
    let n: usize = data.len();
    if pos > n {
        return Err(ExtractError::TruncatedInput);
    }
    let mut i: usize = pos;
    let mut depth: usize = 0;
    let mut out: Vec<u8> = Vec::new();
    loop
        invariant
            n == data.len(),
            pos <= i <= n,
            depth <= i - pos,
            spec_literal_string(data@, pos as int, 0, Seq::empty()) == spec_literal_string(
                data@,
                i as int,
                depth as nat,
                out@,
            ),
        decreases n - i,
    {
        if i >= n {
            return Err(ExtractError::TruncatedInput);
        }
        let b: u8 = data[i];
        if b == 41 {
            if depth == 0 {
                return Ok((out, i + 1));
            }
            depth -= 1;
            out.push(b);
            i += 1;
        } else if b == 40 {
            depth += 1;
            out.push(b);
            i += 1;
        } else if b == 92 {
            if i + 1 >= n {
                return Err(ExtractError::TruncatedInput);
            }
            let c: u8 = data[i + 1];
            if is_octal_digit(c) {
                let mut v: u32 = (c - 48) as u32;
                let mut k: usize = 1;
                if i + 2 < n && is_octal_digit(data[i + 2]) {
                    v = v * 8 + (data[i + 2] - 48) as u32;
                    k = 2;
                    if i + 3 < n && is_octal_digit(data[i + 3]) {
                        v = v * 8 + (data[i + 3] - 48) as u32;
                        k = 3;
                    }
                }
                out.push((v % 256) as u8);
                i = i + 1 + k;
            } else if c == 13 {
                if i + 2 < n && data[i + 2] == 10 {
                    i += 3;
                } else {
                    i += 2;
                }
            } else if c == 10 {
                i += 2;
            } else {
                out.push(unescape(c));
                i += 2;
            }
        } else {
            out.push(b);
            i += 1;
        }
    }
}

/// The content of a hexadecimal string whose opening bracket has been read.
/// `high` holds a digit that waits for its partner; a digit left alone at
/// the end counts as if a zero followed.
pub open spec fn spec_hex_string(s: Seq<u8>, p: int, acc: Seq<u8>, high: Option<u8>) -> Result<
    (Seq<u8>, int),
    ExtractError,
>
    decreases s.len() - p,
{
    if p < 0 || p >= s.len() {
        Err(ExtractError::TruncatedInput)
    } else if s[p] == 62 {
        match high {
            Some(h) => Ok((acc.push((h * 16) as u8), p + 1)),
            None => Ok((acc, p + 1)),
        }
    } else if is_whitespace(s[p]) {
        spec_hex_string(s, p + 1, acc, high)
    } else if is_hex_digit(s[p]) {
        match high {
            Some(h) => spec_hex_string(s, p + 1, acc.push((h * 16 + hex_value(s[p])) as u8), None),
            None => spec_hex_string(s, p + 1, acc, Some(hex_value(s[p]))),
        }
    } else {
        Err(ExtractError::MalformedObject)
    }
}

/// Reads a hexadecimal string; `pos` is the offset after the opening bracket.
pub fn parse_hex_string(data: &[u8], pos: usize) -> (r: Result<(Vec<u8>, usize), ExtractError>)
    ensures
        r matches Err(e) ==> e.is_read_failure(),
        lift_bytes(r) == spec_hex_string(data@, pos as int, Seq::empty(), None),
        r matches Ok((_, e)) ==> pos < e <= data.len(),
{
    let n: usize = data.len();
    if pos > n {
        return Err(ExtractError::TruncatedInput);
    }
    let mut i: usize = pos;
    let mut high: Option<u8> = None;
    let mut out: Vec<u8> = Vec::new();
    loop
        invariant
            n == data.len(),
            pos <= i <= n,
            high matches Some(h) ==> h < 16,
            spec_hex_string(data@, pos as int, Seq::empty(), None) == spec_hex_string(
                data@,
                i as int,
                out@,
                high,
            ),
        decreases n - i,
    {
        if i >= n {
            return Err(ExtractError::TruncatedInput);
        }
        let b: u8 = data[i];
        if b == 62 {
            match high {
                Some(h) => {
                    out.push(h * 16);
                },
                None => {},
            }
            return Ok((out, i + 1));
        } else if is_whitespace(b) {
            i += 1;
        } else if is_hex_digit(b) {
            match high {
                Some(h) => {
                    out.push(h * 16 + hex_value(b));
                    high = None;
                },
                None => {
                    high = Some(hex_value(b));
                },
            }
            i += 1;
        } else {
            return Err(ExtractError::MalformedObject);
        }
    }
}

/// The name whose solidus has been read: regular bytes, with `#` and two
/// hexadecimal digits standing for one byte.
pub open spec fn spec_name(s: Seq<u8>, p: int, acc: Seq<u8>) -> (Seq<u8>, int)
    decreases s.len() - p,
{
    if p < 0 || p >= s.len() || !is_regular(s[p]) {
        (acc, p)
    } else if s[p] == 35 && p + 2 < s.len() && is_hex_digit(s[p + 1]) && is_hex_digit(s[p + 2]) {
        spec_name(s, p + 3, acc.push((hex_value(s[p + 1]) * 16 + hex_value(s[p + 2])) as u8))
    } else {
        spec_name(s, p + 1, acc.push(s[p]))
    }
}

/// Reads a name; `pos` is the offset after the solidus.
pub fn parse_name(data: &[u8], pos: usize) -> (r: (Vec<u8>, usize))
    ensures
        (r.0@, r.1 as int) == spec_name(data@, pos as int, Seq::empty()),
        pos <= r.1,
        pos <= data.len() ==> r.1 <= data.len(),
{
    let n: usize = data.len();
    let mut out: Vec<u8> = Vec::new();
    if pos > n {
        return (out, pos);
    }
    let mut i: usize = pos;
    while i < n && is_regular(data[i])
        invariant
            n == data.len(),
            pos <= i <= n,
            spec_name(data@, pos as int, Seq::empty()) == spec_name(data@, i as int, out@),
        decreases n - i,
    {
        if data[i] == 35 && n - i > 2 && is_hex_digit(data[i + 1]) && is_hex_digit(data[i + 2]) {
            out.push(hex_value(data[i + 1]) * 16 + hex_value(data[i + 2]));
            i += 3;
        } else {
            out.push(data[i]);
            i += 1;
        }
    }
    (out, i)
}

} // verus!
