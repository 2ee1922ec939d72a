//! Runs of text on a page and how they are joined into a line of
//! characters.

use vstd::prelude::*;
use crate::bytes::append_scalars;
use crate::geometry::{fixed_add, fixed_mul, spec_fixed_add, spec_fixed_mul};

verus! {

/// The part of the font size that the gap between two runs must exceed for
/// a space to be put between them, in thousandths.
pub const SPACE_GAP: i64 = 250;

/// One run of text: its code points, where it starts, the font size it is
/// set in, and its estimated width.
#[derive(Debug, PartialEq)]
pub struct TextRun {
    pub text: Vec<u32>,
    pub x: i64,
    pub y: i64,
    pub size: i64,
    pub width: i64,
}

/// The mathematical value of a [`TextRun`].
pub struct TextRunView {
    pub text: Seq<u32>,
    pub x: i64,
    pub y: i64,
    pub size: i64,
    pub width: i64,
}

impl View for TextRun {
    type V = TextRunView;

    open spec fn view(&self) -> TextRunView {
        TextRunView { text: self.text@, x: self.x, y: self.y, size: self.size, width: self.width }
    }
}

/// The text runs of one page, in the order in which they were shown.
#[derive(Debug, PartialEq)]
pub struct ExtractedPage {
    pub runs: Vec<TextRun>,
}

/// Runs taken by their views.
pub open spec fn view_runs(v: Seq<TextRun>) -> Seq<TextRunView> {
    Seq::new(v.len(), |i: int| v[i]@)
}

impl View for ExtractedPage {
    type V = Seq<TextRunView>;

    open spec fn view(&self) -> Seq<TextRunView> {
        view_runs(self.runs@)
    }
}

/// The distance between two numbers.
pub open spec fn spec_distance(a: i64, b: i64) -> int {
    if a >= b {
        a - b
    } else {
        b - a
    }
}

/// What is put between the run `prev` and the run `cur` that follows it: a
/// line feed where `cur` lies lower by more than its font size; a space
/// where it starts further from the end of `prev` than the part of its
/// font size that [`SPACE_GAP`] names, unless a space or a line feed is
/// there already; nothing otherwise.
pub open spec fn spec_separator(prev: TextRunView, cur: TextRunView) -> Seq<u32> {
    if prev.y - cur.y > cur.size {
        seq![10u32]
    } else if spec_distance(cur.x, spec_fixed_add(prev.x as int, prev.width as int) as i64)
        > spec_fixed_mul(cur.size as int, SPACE_GAP as int) && !spec_blank_between(prev, cur) {
        seq![32u32]
    } else {
        Seq::empty()
    }
}

/// `prev` ends, or `cur` starts, with a space or a line feed.
pub open spec fn spec_blank_between(prev: TextRunView, cur: TextRunView) -> bool {
    (prev.text.len() > 0 && (prev.text.last() == 32 || prev.text.last() == 10)) || (cur.text.len()
        > 0 && (cur.text[0] == 32 || cur.text[0] == 10))
}

/// The text of the runs from place `i` on, appended to `acc`. Runs without
/// text are passed over; `prev` is the last run that had text.
pub open spec fn spec_flatten(
    runs: Seq<TextRunView>,
    i: int,
    prev: Option<TextRunView>,
    acc: Seq<u32>,
) -> Seq<u32>
    decreases runs.len() - i,
{
    if i < 0 || i >= runs.len() {
        acc
    } else if runs[i].text.len() == 0 {
        spec_flatten(runs, i + 1, prev, acc)
    } else {
        spec_flatten(
            runs,
            i + 1,
            Some(runs[i]),
            match prev {
                Some(p) => acc + spec_separator(p, runs[i]) + runs[i].text,
                None => acc + runs[i].text,
            },
        )
    }
}

fn blank_between(prev: &TextRun, cur: &TextRun) -> (r: bool)
    ensures
        r == spec_blank_between(prev@, cur@),
{
    let p: usize = prev.text.len();
    (p > 0 && (prev.text[p - 1] == 32 || prev.text[p - 1] == 10)) || (cur.text.len() > 0 && (
    cur.text[0] == 32 || cur.text[0] == 10))
}

fn push_separator(out: &mut Vec<u32>, prev: &TextRun, cur: &TextRun)
    ensures
        final(out)@ == old(out)@ + spec_separator(prev@, cur@),
{
    let end: i64 = fixed_add(prev.x, prev.width);
    let gap: i128 = if cur.x >= end {
        cur.x as i128 - end as i128
    } else {
        end as i128 - cur.x as i128
    };
    if prev.y as i128 - cur.y as i128 > cur.size as i128 {
        out.push(10);
        assert(out@ =~= old(out)@ + seq![10u32]);
    } else if gap > fixed_mul(cur.size, SPACE_GAP) as i128 && !blank_between(prev, cur) {
        out.push(32);
        assert(out@ =~= old(out)@ + seq![32u32]);
    } else {
        assert(out@ =~= old(out)@ + Seq::<u32>::empty());
    }
}

impl ExtractedPage {
    /// The text of the page as one sequence of code points.
    pub fn flatten(&self) -> (r: Vec<u32>)
        ensures
            r@ == spec_flatten(self@, 0, None, Seq::empty()),
    {
        let mut out: Vec<u32> = Vec::new();
        let mut prev: Option<usize> = None;
        let mut i: usize = 0;
        while i < self.runs.len()
            invariant
                i <= self.runs.len(),
                prev matches Some(k) ==> k < i,
                spec_flatten(self@, 0, None, Seq::empty()) == spec_flatten(
                    self@,
                    i as int,
                    match prev {
                        Some(k) => Some(self.runs@[k as int]@),
                        None => None,
                    },
                    out@,
                ),
            decreases self.runs.len() - i,
        {
            assert(self@[i as int] == self.runs@[i as int]@);
            let cur: &TextRun = &self.runs[i];
            if cur.text.len() > 0 {
                match prev {
                    Some(k) => {
                        push_separator(&mut out, &self.runs[k], cur);
                    },
                    None => {},
                }
                append_scalars(&mut out, cur.text.as_slice());
                prev = Some(i);
            }
            i += 1;
        }
        out
    }
}

/// `v` is a Unicode scalar value: a code point that is no surrogate.
pub open spec fn spec_is_scalar(v: u32) -> bool {
    v <= 0xd7ff || (0xe000 <= v <= 0x10ffff)
}

/// The characters for the code points from place `i` on, appended to
/// `acc`. What is no scalar value is left out.
pub open spec fn spec_chars(v: Seq<u32>, i: int, acc: Seq<char>) -> Seq<char>
    decreases v.len() - i,
{
    if i < 0 || i >= v.len() {
        acc
    } else if spec_is_scalar(v[i]) {
        spec_chars(v, i + 1, acc.push(v[i] as char))
    } else {
        spec_chars(v, i + 1, acc)
    }
}

/// The character with the code point `v`. This is `char::from_u32` of the
/// standard library, which gives a character for every code point up to
/// 0x10FFFF that is no surrogate, and nothing for any other number.
#[verifier::external_body]
fn scalar_to_char(v: u32) -> (r: Option<char>)
    ensures
        r == if spec_is_scalar(v) {
            Some(v as char)
        } else {
            None
        },
{
    char::from_u32(v)
}

/// Appends one character to a string. This is `String::push` of the
/// standard library.
#[verifier::external_body]
fn push_char(s: &mut String, c: char)
    ensures
        final(s)@ == old(s)@.push(c),
{
    s.push(c)
}

/// Makes a string of code points, leaving out what is no scalar value.
pub fn to_string(v: &Vec<u32>) -> (r: String)
    ensures
        r@ == spec_chars(v@, 0, Seq::empty()),
{
    let mut out = String::new();
    let mut i: usize = 0;
    while i < v.len()
        invariant
            i <= v.len(),
            spec_chars(v@, 0, Seq::empty()) == spec_chars(v@, i as int, out@),
        decreases v.len() - i,
    {
        match scalar_to_char(v[i]) {
            Some(c) => {
                push_char(&mut out, c);
            },
            None => {},
        }
        i += 1;
    }
    out
}

} // verus!
