//! The interpreter for content streams: a stack machine that follows the
//! text operators and reports every piece of text that is shown.

use vstd::prelude::*;
use vstd::slice::slice_to_vec;
use vstd::string::*;
use crate::bytes::{append_bytes, bump, spec_bump};
use crate::encoding::{list_index, spec_glyph_index};
use crate::geometry::{
    Matrix, clamp, compose, fixed_mul, identity, spec_clamp, spec_compose, spec_fixed_mul,
    spec_identity, spec_translation, translation,
};
use crate::object::{
    DictEntry, Obj, PdfObject, bytes_eq, dict_get, find_word, remaining, spec_dict_get,
    spec_find_word, view_entries, view_items, };
use crate::reader::ByteReader;
use crate::token::{Token, TokenView, next_token, spec_next_token};
use crate::xref::ObjectId;

verus! {

/// The estimated advance of one byte of shown text, in thousandths of the
/// font size.
pub const ADVANCE_PER_BYTE: i64 = 500;

/// How far a position adjustment inside an array of shown strings must
/// move to the right for a word gap to be seen in it, in thousandths of
/// the font size.
pub const WORD_GAP: i64 = 180;

/// One piece of shown text: the font that was selected, the character
/// codes as they stand in the stream, the offsets among the codes at which
/// a word gap lies, where the text starts on the page, and the font size
/// in effect there.
#[derive(Debug, PartialEq)]
pub struct TextEvent {
    pub font: Vec<u8>,
    pub font_id: Option<ObjectId>,
    pub codes: Vec<u8>,
    pub breaks: Vec<usize>,
    pub x: i64,
    pub y: i64,
    pub size: i64,
}

/// The mathematical value of a [`TextEvent`].
pub struct TextEventView {
    pub font: Seq<u8>,
    pub font_id: Option<ObjectId>,
    pub codes: Seq<u8>,
    pub breaks: Seq<usize>,
    pub x: i64,
    pub y: i64,
    pub size: i64,
}

impl View for TextEvent {
    type V = TextEventView;

    open spec fn view(&self) -> TextEventView {
        TextEventView {
            font: self.font@,
            font_id: self.font_id,
            codes: self.codes@,
            breaks: self.breaks@,
            x: self.x,
            y: self.y,
            size: self.size,
        }
    }
}

/// A run of events taken by their views.
pub open spec fn view_events(v: Seq<TextEvent>) -> Seq<TextEventView> {
    Seq::new(v.len(), |i: int| v[i]@)
}

/// The numeric part of the state that the text operators work on. The two
/// spacings are kept as the operators set them; the estimate of a run's
/// width does not use them.
#[derive(Clone, Copy, Debug, PartialEq, Eq, Structural)]
pub struct TextState {
    /// The current transformation of the page.
    pub ctm: Matrix,
    /// The text matrix.
    pub tm: Matrix,
    /// The text line matrix.
    pub tlm: Matrix,
    pub size: i64,
    pub leading: i64,
    pub char_spacing: i64,
    pub word_spacing: i64,
}

/// The state of the interpreter.
pub struct Machine {
    pub stack: Vec<PdfObject>,
    pub state: TextState,
    pub font: Vec<u8>,
    pub font_id: Option<ObjectId>,
    pub saved: Vec<Matrix>,
    pub events: Vec<TextEvent>,
}

/// The mathematical value of a [`Machine`].
pub struct MachineView {
    pub stack: Seq<Obj>,
    pub state: TextState,
    pub font: Seq<u8>,
    pub font_id: Option<ObjectId>,
    pub saved: Seq<Matrix>,
    pub events: Seq<TextEventView>,
}

impl View for Machine {
    type V = MachineView;

    open spec fn view(&self) -> MachineView {
        MachineView {
            stack: view_items(self.stack@),
            state: self.state,
            font: self.font@,
            font_id: self.font_id,
            saved: self.saved@,
            events: view_events(self.events@),
        }
    }
}

/// The state at the start of a content stream.
pub open spec fn spec_initial() -> MachineView {
    MachineView {
        stack: Seq::empty(),
        state: TextState {
            ctm: spec_identity(),
            tm: spec_identity(),
            tlm: spec_identity(),
            size: 0,
            leading: 0,
            char_spacing: 0,
            word_spacing: 0,
        },
        font: Seq::empty(),
        font_id: None,
        saved: Seq::empty(),
        events: Seq::empty(),
    }
}

impl MachineView {
    /// The same machine with another numeric state and an empty stack.
    pub open spec fn next(self, state: TextState) -> MachineView {
        MachineView {
            stack: Seq::empty(),
            state,
            font: self.font,
            font_id: self.font_id,
            saved: self.saved,
            events: self.events,
        }
    }

    /// Operand `k`, counted from the top of the stack.
    pub open spec fn operand(self, k: int) -> Option<Obj> {
        if 0 <= k < self.stack.len() {
            Some(self.stack[self.stack.len() - 1 - k])
        } else {
            None
        }
    }

    /// Operand `k` as a number in thousandths; zero where there is none.
    pub open spec fn number(self, k: int) -> i64 {
        match self.operand(k) {
            Some(o) => match o.number() {
                Some(v) => spec_clamp(v) as i64,
                None => 0,
            },
            None => 0,
        }
    }

    /// Operand `k` as a string; empty where there is none.
    pub open spec fn string(self, k: int) -> Seq<u8> {
        match self.operand(k) {
            Some(Obj::String(b)) => b,
            _ => Seq::empty(),
        }
    }

    /// The six topmost operands as a matrix.
    pub open spec fn matrix(self) -> Matrix {
        Matrix {
            a: self.number(5),
            b: self.number(4),
            c: self.number(3),
            d: self.number(2),
            e: self.number(1),
            f: self.number(0),
        }
    }
}

/// The strings among `items` from place `i` on, one after the other.
pub open spec fn spec_concat_strings(items: Seq<Obj>, i: int, acc: Seq<u8>) -> Seq<u8>
    decreases items.len() - i,
{
    if i < 0 || i >= items.len() {
        acc
    } else {
        spec_concat_strings(
            items,
            i + 1,
            match items[i] {
                Obj::String(b) => acc + b,
                _ => acc,
            },
        )
    }
}

/// The text of the array on top of the stack: its strings joined.
pub open spec fn spec_array_text(m: MachineView) -> Seq<u8> {
    match m.operand(0) {
        Some(Obj::Array(items)) => spec_concat_strings(items, 0, Seq::empty()),
        _ => Seq::empty(),
    }
}

/// `o` is a number that moves the next string to the right by more than a
/// word gap. The numbers of such an array are in thousandths of the font
/// size, and a negative one moves to the right.
pub open spec fn spec_is_word_gap(o: Obj) -> bool {
    match o.number() {
        Some(v) => v < -WORD_GAP * 1000,
        None => false,
    }
}

/// `a` and `b` together, as far as the machine can count.
pub open spec fn spec_offset_after(a: usize, b: nat) -> usize {
    if a + b <= usize::MAX {
        (a + b) as usize
    } else {
        usize::MAX
    }
}

/// The offsets among the joined strings of `items` at which a word gap
/// lies, worked out from place `i` on; `offset` is the length of the strings
/// before that place. A gap before the first byte, and a second gap at the
/// same offset, are not noted.
pub open spec fn spec_array_breaks(items: Seq<Obj>, i: int, offset: usize, acc: Seq<usize>) -> Seq<
    usize,
>
    decreases items.len() - i,
{
    if i < 0 || i >= items.len() {
        acc
    } else {
        match items[i] {
            Obj::String(b) => spec_array_breaks(
                items,
                i + 1,
                spec_offset_after(offset, b.len()),
                acc,
            ),
            o => spec_array_breaks(
                items,
                i + 1,
                offset,
                if spec_is_word_gap(o) && offset > 0 && (acc.len() == 0 || acc.last() < offset) {
                    acc.push(offset)
                } else {
                    acc
                },
            ),
        }
    }
}

/// The word gaps of the array on top of the stack.
pub open spec fn spec_array_gaps(m: MachineView) -> Seq<usize> {
    match m.operand(0) {
        Some(Obj::Array(items)) => spec_array_breaks(items, 0, 0, Seq::empty()),
        _ => Seq::empty(),
    }
}

/// `v` with its sign turned.
pub open spec fn spec_negate(v: i64) -> i64 {
    spec_fixed_mul(v as int, -1000) as i64
}

/// The magnitude of `v`.
pub open spec fn spec_magnitude(v: i64) -> i64 {
    if v < 0 {
        spec_negate(v)
    } else {
        v
    }
}

/// The state after a move to the start of a line that lies `tx` and `ty`
/// from the start of the current line.
pub open spec fn spec_move(ts: TextState, tx: i64, ty: i64) -> TextState {
    let line = spec_compose(spec_translation(tx, ty), ts.tlm);
    TextState { ctm: ts.ctm, tm: line, tlm: line, size: ts.size, leading: ts.leading, char_spacing: ts.char_spacing, word_spacing: ts.word_spacing }
}

/// The state after a move to the next line.
pub open spec fn spec_next_line(ts: TextState) -> TextState {
    spec_move(ts, 0, spec_negate(ts.leading))
}

/// How far the text matrix moves for `n` bytes of shown text.
pub open spec fn spec_advance(n: nat, size: i64) -> i64 {
    spec_fixed_mul(spec_clamp(spec_clamp(n as int) * ADVANCE_PER_BYTE), size as int) as i64
}

/// The machine after `codes` have been shown: one more event, and the text
/// matrix moved on by the estimated width.
pub open spec fn spec_show(m: MachineView, ts: TextState, codes: Seq<u8>, breaks: Seq<usize>) -> MachineView {
    let place = spec_compose(ts.tm, ts.ctm);
    let event = TextEventView {
        font: m.font,
        font_id: m.font_id,
        codes,
        breaks,
        x: place.e,
        y: place.f,
        size: spec_magnitude(spec_fixed_mul(ts.size as int, place.d as int) as i64),
    };
    MachineView {
        stack: Seq::empty(),
        state: TextState {
            ctm: ts.ctm,
            tm: spec_compose(spec_translation(spec_advance(codes.len(), ts.size), 0), ts.tm),
            tlm: ts.tlm,
            size: ts.size,
            leading: ts.leading,
            char_spacing: ts.char_spacing,
            word_spacing: ts.word_spacing,
        },
        font: m.font,
        font_id: m.font_id,
        saved: m.saved,
        events: m.events.push(event),
    }
}

/// The object that the font resources hold under `name`, where it is an
/// indirect reference.
pub open spec fn spec_font_id(fonts: Seq<(Seq<u8>, Obj)>, name: Seq<u8>) -> Option<ObjectId> {
    match spec_dict_get(fonts, name) {
        Some(Obj::Reference(n, g)) => if 0 <= n <= 0xffff_ffff && 0 <= g <= 0xffff {
            Some(ObjectId { number: n as u32, generation: g as u16 })
        } else {
            None
        },
        _ => None,
    }
}

/// The machine after the font operator: the name below the top of the
/// stack becomes the font, the number on top its size. Without a name the
/// font stays.
pub open spec fn spec_select_font(m: MachineView, fonts: Seq<(Seq<u8>, Obj)>) -> MachineView {
    let ts = m.state;
    let state = TextState {
        ctm: ts.ctm,
        tm: ts.tm,
        tlm: ts.tlm,
        size: m.number(0),
        leading: ts.leading,
        char_spacing: ts.char_spacing,
        word_spacing: ts.word_spacing,
    };
    match m.operand(1) {
        Some(Obj::Name(n)) => MachineView {
            stack: Seq::empty(),
            state,
            font: n,
            font_id: spec_font_id(fonts, n),
            saved: m.saved,
            events: m.events,
        },
        _ => m.next(state),
    }
}

/// The machine after the operator `op`. Operators that have nothing to do
/// with text only empty the stack.
pub open spec fn spec_apply_operator(m: MachineView, op: Seq<u8>, fonts: Seq<(Seq<u8>, Obj)>) -> MachineView {
    let ts = m.state;
    if op == "BT".spec_bytes() {
        m.next(
            TextState {
                ctm: ts.ctm,
                tm: spec_identity(),
                tlm: spec_identity(),
                size: ts.size,
                leading: ts.leading,
                char_spacing: ts.char_spacing,
                word_spacing: ts.word_spacing,
            },
        )
    } else if op == "Tf".spec_bytes() {
        spec_select_font(m, fonts)
    } else if op == "Td".spec_bytes() {
        m.next(spec_move(ts, m.number(1), m.number(0)))
    } else if op == "TD".spec_bytes() {
        m.next(
            spec_move(
                TextState {
                    ctm: ts.ctm,
                    tm: ts.tm,
                    tlm: ts.tlm,
                    size: ts.size,
                    leading: spec_negate(m.number(0)),
                    char_spacing: ts.char_spacing,
                    word_spacing: ts.word_spacing,
                },
                m.number(1),
                m.number(0),
            ),
        )
    } else if op == "Tm".spec_bytes() {
        m.next(
            TextState {
                ctm: ts.ctm,
                tm: m.matrix(),
                tlm: m.matrix(),
                size: ts.size,
                leading: ts.leading,
                char_spacing: ts.char_spacing,
                word_spacing: ts.word_spacing,
            },
        )
    } else if op == "T*".spec_bytes() {
        m.next(spec_next_line(ts))
    } else if op == "TL".spec_bytes() {
        m.next(
            TextState { ctm: ts.ctm, tm: ts.tm, tlm: ts.tlm, size: ts.size, leading: m.number(0), char_spacing: ts.char_spacing, word_spacing: ts.word_spacing },
        )
    } else if op == "Tc".spec_bytes() {
        m.next(
            TextState {
                ctm: ts.ctm,
                tm: ts.tm,
                tlm: ts.tlm,
                size: ts.size,
                leading: ts.leading,
                char_spacing: m.number(0),
                word_spacing: ts.word_spacing,
            },
        )
    } else if op == "Tw".spec_bytes() {
        m.next(
            TextState {
                ctm: ts.ctm,
                tm: ts.tm,
                tlm: ts.tlm,
                size: ts.size,
                leading: ts.leading,
                char_spacing: ts.char_spacing,
                word_spacing: m.number(0),
            },
        )
    } else if op == "Tj".spec_bytes() {
        spec_show(m, ts, m.string(0), Seq::empty())
    } else if op == "TJ".spec_bytes() {
        spec_show(m, ts, spec_array_text(m), spec_array_gaps(m))
    } else if op == "'".spec_bytes() {
        spec_show(m, spec_next_line(ts), m.string(0), Seq::empty())
    } else if op == "\"".spec_bytes() {
        spec_show(
            m,
            spec_next_line(
                TextState {
                    ctm: ts.ctm,
                    tm: ts.tm,
                    tlm: ts.tlm,
                    size: ts.size,
                    leading: ts.leading,
                    char_spacing: m.number(1),
                    word_spacing: m.number(2),
                },
            ),
            m.string(0),
            Seq::empty(),
        )
    } else if op == "cm".spec_bytes() {
        m.next(
            TextState {
                ctm: spec_compose(m.matrix(), ts.ctm),
                tm: ts.tm,
                tlm: ts.tlm,
                size: ts.size,
                leading: ts.leading,
                char_spacing: ts.char_spacing,
                word_spacing: ts.word_spacing,
            },
        )
    } else if op == "q".spec_bytes() {
        MachineView {
            stack: Seq::empty(),
            state: ts,
            font: m.font,
            font_id: m.font_id,
            saved: m.saved.push(ts.ctm),
            events: m.events,
        }
    } else if op == "Q".spec_bytes() {
        if m.saved.len() > 0 {
            MachineView {
                stack: Seq::empty(),
                state: TextState {
                    ctm: m.saved.last(),
                    tm: ts.tm,
                    tlm: ts.tlm,
                    size: ts.size,
                    leading: ts.leading,
                    char_spacing: ts.char_spacing,
                    word_spacing: ts.word_spacing,
                },
                font: m.font,
                font_id: m.font_id,
                saved: m.saved.drop_last(),
                events: m.events,
            }
        } else {
            m.next(ts)
        }
    } else {
        m.next(ts)
    }
}

/// Where reading goes on after the start of an inline image at `e`: after
/// the next `EI`, or at the end of the data.
pub open spec fn spec_skip_image(s: Seq<u8>, e: int) -> int {
    let w = "EI".spec_bytes();
    let k = spec_find_word(s, e, w);
    if k >= s.len() {
        s.len() as int
    } else {
        k + w.len()
    }
}

/// The events of the content stream from offset `p` on, for a machine in
/// state `m`.
pub open spec fn spec_run(s: Seq<u8>, p: int, m: MachineView, fonts: Seq<(Seq<u8>, Obj)>) -> Seq<
    TextEventView,
>
    decreases remaining(s, p),
{
    let (tok, e) = spec_next_token(s, p);
    if !(p < e <= s.len()) {
        m.events
    } else {
        match tok {
            TokenView::End => m.events,
            TokenView::Junk => spec_run(s, e, m, fonts),
            TokenView::Operand(o) => spec_run(
                s,
                e,
                MachineView {
                    stack: m.stack.push(o),
                    state: m.state,
                    font: m.font,
                    font_id: m.font_id,
                    saved: m.saved,
                    events: m.events,
                },
                fonts,
            ),
            TokenView::Operator(w) => if w == "BI".spec_bytes() {
                if e <= spec_skip_image(s, e) <= s.len() {
                    spec_run(s, spec_skip_image(s, e), m.next(m.state), fonts)
                } else {
                    m.events
                }
            } else {
                spec_run(s, e, spec_apply_operator(m, w, fonts), fonts)
            },
        }
    }
}

impl Machine {
    /// A machine at the start of a content stream.
    pub fn new() -> (m: Machine)
        ensures
            m@ == spec_initial(),
    {
        let m = Machine {
            stack: Vec::new(),
            state: TextState {
                ctm: identity(),
                tm: identity(),
                tlm: identity(),
                size: 0,
                leading: 0,
                char_spacing: 0,
                word_spacing: 0,
            },
            font: Vec::new(),
            font_id: None,
            saved: Vec::new(),
            events: Vec::new(),
        };
        assert(view_items(m.stack@) =~= Seq::empty());
        assert(view_events(m.events@) =~= Seq::empty());
        m
    }

    fn operand(&self, k: usize) -> (r: Option<&PdfObject>)
        ensures
            match r {
                Some(o) => self@.operand(k as int) == Some(o@),
                None => self@.operand(k as int) is None,
            },
    {
        if k < self.stack.len() {
            Some(&self.stack[self.stack.len() - 1 - k])
        } else {
            None
        }
    }

    fn number(&self, k: usize) -> (r: i64)
        ensures
            r == self@.number(k as int),
    {
        match self.operand(k) {
            Some(o) => match o.as_number() {
                Some(v) => clamp(v as i128),
                None => 0,
            },
            None => 0,
        }
    }

    fn string(&self, k: usize) -> (r: Vec<u8>)
        ensures
            r@ == self@.string(k as int),
    {
        match self.operand(k) {
            Some(PdfObject::String(b)) => slice_to_vec(b.as_slice()),
            _ => Vec::new(),
        }
    }

    fn matrix(&self) -> (r: Matrix)
        ensures
            r == self@.matrix(),
    {
        Matrix {
            a: self.number(5),
            b: self.number(4),
            c: self.number(3),
            d: self.number(2),
            e: self.number(1),
            f: self.number(0),
        }
    }

    fn array_text(&self) -> (r: Vec<u8>)
        ensures
            r@ == spec_array_text(self@),
    {
        let mut out: Vec<u8> = Vec::new();
        match self.operand(0) {
            Some(PdfObject::Array(items)) => {
                let mut i: usize = 0;
                while i < items.len()
                    invariant
                        i <= items.len(),
                        spec_concat_strings(view_items(items@), 0, Seq::empty())
                            == spec_concat_strings(view_items(items@), i as int, out@),
                    decreases items.len() - i,
                {
                    assert(view_items(items@)[i as int] == items@[i as int]@);
                    match &items[i] {
                        PdfObject::String(b) => {
                            append_bytes(&mut out, b.as_slice());
                        },
                        _ => {},
                    }
                    i += 1;
                }
                out
            },
            _ => out,
        }
    }

    fn array_gaps(&self) -> (r: Vec<usize>)
        ensures
            r@ == spec_array_gaps(self@),
    {
        let mut out: Vec<usize> = Vec::new();
        match self.operand(0) {
            Some(PdfObject::Array(items)) => {
                let mut i: usize = 0;
                let mut offset: usize = 0;
                while i < items.len()
                    invariant
                        i <= items.len(),
                        spec_array_breaks(view_items(items@), 0, 0, Seq::empty())
                            == spec_array_breaks(view_items(items@), i as int, offset, out@),
                    decreases items.len() - i,
                {
                    assert(view_items(items@)[i as int] == items@[i as int]@);
                    match &items[i] {
                        PdfObject::String(b) => {
                            offset =
                            if b.len() <= usize::MAX - offset {
                                offset + b.len()
                            } else {
                                usize::MAX
                            };
                        },
                        o => {
                            let gap: bool = match o.as_number() {
                                Some(v) => v < -WORD_GAP * 1000,
                                None => false,
                            };
                            let n: usize = out.len();
                            if gap && offset > 0 && (n == 0 || out[n - 1] < offset) {
                                out.push(offset);
                            }
                        },
                    }
                    i += 1;
                }
                out
            },
            _ => out,
        }
    }

    /// Leaves the stack empty and takes `state` for the numeric state.
    fn finish(&mut self, state: TextState)
        ensures
            final(self)@ == old(self)@.next(state),
    {
        self.stack = Vec::new();
        self.state = state;
        assert(view_items(self.stack@) =~= Seq::empty());
    }

    fn show(&mut self, ts: TextState, codes: Vec<u8>, breaks: Vec<usize>)
        ensures
            final(self)@ == spec_show(old(self)@, ts, codes@, breaks@),
    {
        let place = compose(ts.tm, ts.ctm);
        let scaled: i64 = fixed_mul(ts.size, place.d);
        let size: i64 = if scaled < 0 {
            fixed_mul(scaled, -1000)
        } else {
            scaled
        };
        let n: i64 = clamp(codes.len() as i128);
        let width: i64 = fixed_mul(clamp(n as i128 * ADVANCE_PER_BYTE as i128), ts.size);
        let ghost before = view_events(self.events@);
        let event = TextEvent {
            font: slice_to_vec(self.font.as_slice()),
            font_id: self.font_id,
            codes,
            breaks,
            x: place.e,
            y: place.f,
            size,
        };
        let ghost ev = event@;
        self.events.push(event);
        assert(view_events(self.events@) =~= before.push(ev));
        self.stack = Vec::new();
        assert(view_items(self.stack@) =~= Seq::empty());
        self.state =
        TextState {
            ctm: ts.ctm,
            tm: compose(translation(width, 0), ts.tm),
            tlm: ts.tlm,
            size: ts.size,
            leading: ts.leading,
            char_spacing: ts.char_spacing,
            word_spacing: ts.word_spacing,
        };
    }
}

fn negate(v: i64) -> (r: i64)
    ensures
        r == spec_negate(v),
{
    fixed_mul(v, -1000)
}

fn move_line(ts: TextState, tx: i64, ty: i64) -> (r: TextState)
    ensures
        r == spec_move(ts, tx, ty),
{
    let line = compose(translation(tx, ty), ts.tlm);
    TextState { ctm: ts.ctm, tm: line, tlm: line, size: ts.size, leading: ts.leading, char_spacing: ts.char_spacing, word_spacing: ts.word_spacing }
}

fn font_id(fonts: &Vec<DictEntry>, name: &[u8]) -> (r: Option<ObjectId>)
    ensures
        r == spec_font_id(view_entries(fonts@), name@),
{
    match dict_get(fonts, name) {
        Some(PdfObject::Reference(n, g)) => Some(ObjectId { number: *n, generation: *g }),
        _ => None,
    }
}

fn select_font(m: &mut Machine, fonts: &Vec<DictEntry>)
    ensures
        final(m)@ == spec_select_font(old(m)@, view_entries(fonts@)),
{
    let ts = m.state;
    let state = TextState {
        ctm: ts.ctm,
        tm: ts.tm,
        tlm: ts.tlm,
        size: m.number(0),
        leading: ts.leading,
        char_spacing: ts.char_spacing,
        word_spacing: ts.word_spacing,
    };
    let name: Option<Vec<u8>> = match m.operand(1) {
        Some(PdfObject::Name(n)) => Some(slice_to_vec(n.as_slice())),
        _ => None,
    };
    match name {
        Some(n) => {
            m.font_id = font_id(fonts, n.as_slice());
            m.font = n;
            m.finish(state);
        },
        None => {
            m.finish(state);
        },
    }
}

/// Carries out one operator.
pub fn apply_operator(m: &mut Machine, op: &[u8], fonts: &Vec<DictEntry>)
    ensures
        final(m)@ == spec_apply_operator(old(m)@, op@, view_entries(fonts@)),
{
    let ts = m.state;
    if bytes_eq(op, "BT".as_bytes()) {
        m.finish(
            TextState {
                ctm: ts.ctm,
                tm: identity(),
                tlm: identity(),
                size: ts.size,
                leading: ts.leading,
                char_spacing: ts.char_spacing,
                word_spacing: ts.word_spacing,
            },
        );
    } else if bytes_eq(op, "Tf".as_bytes()) {
        select_font(m, fonts);
    } else if bytes_eq(op, "Td".as_bytes()) {
        let next = move_line(ts, m.number(1), m.number(0));
        m.finish(next);
    } else if bytes_eq(op, "TD".as_bytes()) {
        let next = move_line(
            TextState {
                ctm: ts.ctm,
                tm: ts.tm,
                tlm: ts.tlm,
                size: ts.size,
                leading: negate(m.number(0)),
                char_spacing: ts.char_spacing,
                word_spacing: ts.word_spacing,
            },
            m.number(1),
            m.number(0),
        );
        m.finish(next);
    } else if bytes_eq(op, "Tm".as_bytes()) {
        let mx = m.matrix();
        m.finish(TextState { ctm: ts.ctm, tm: mx, tlm: mx, size: ts.size, leading: ts.leading, char_spacing: ts.char_spacing, word_spacing: ts.word_spacing });
    } else if bytes_eq(op, "T*".as_bytes()) {
        m.finish(move_line(ts, 0, negate(ts.leading)));
    } else if bytes_eq(op, "TL".as_bytes()) {
        let l = m.number(0);
        m.finish(TextState { ctm: ts.ctm, tm: ts.tm, tlm: ts.tlm, size: ts.size, leading: l, char_spacing: ts.char_spacing, word_spacing: ts.word_spacing });
    } else if bytes_eq(op, "Tc".as_bytes()) {
        let v = m.number(0);
        m.finish(
            TextState {
                ctm: ts.ctm,
                tm: ts.tm,
                tlm: ts.tlm,
                size: ts.size,
                leading: ts.leading,
                char_spacing: v,
                word_spacing: ts.word_spacing,
            },
        );
    } else if bytes_eq(op, "Tw".as_bytes()) {
        let v = m.number(0);
        m.finish(
            TextState {
                ctm: ts.ctm,
                tm: ts.tm,
                tlm: ts.tlm,
                size: ts.size,
                leading: ts.leading,
                char_spacing: ts.char_spacing,
                word_spacing: v,
            },
        );
    } else if bytes_eq(op, "Tj".as_bytes()) {
        let codes = m.string(0);
        m.show(ts, codes, Vec::new());
    } else if bytes_eq(op, "TJ".as_bytes()) {
        let codes = m.array_text();
        let breaks = m.array_gaps();
        m.show(ts, codes, breaks);
    } else if bytes_eq(op, "'".as_bytes()) {
        let codes = m.string(0);
        m.show(move_line(ts, 0, negate(ts.leading)), codes, Vec::new());
    } else if bytes_eq(op, "\"".as_bytes()) {
        let codes = m.string(0);
        let spaced = TextState {
            ctm: ts.ctm,
            tm: ts.tm,
            tlm: ts.tlm,
            size: ts.size,
            leading: ts.leading,
            char_spacing: m.number(1),
            word_spacing: m.number(2),
        };
        m.show(move_line(spaced, 0, negate(spaced.leading)), codes, Vec::new());
    } else if bytes_eq(op, "cm".as_bytes()) {
        let mx = m.matrix();
        m.finish(
            TextState {
                ctm: compose(mx, ts.ctm),
                tm: ts.tm,
                tlm: ts.tlm,
                size: ts.size,
                leading: ts.leading,
                char_spacing: ts.char_spacing,
                word_spacing: ts.word_spacing,
            },
        );
    } else if bytes_eq(op, "q".as_bytes()) {
        m.saved.push(ts.ctm);
        m.finish(ts);
    } else if bytes_eq(op, "Q".as_bytes()) {
        match m.saved.pop() {
            Some(ctm) => {
                m.finish(
                    TextState {
                        ctm,
                        tm: ts.tm,
                        tlm: ts.tlm,
                        size: ts.size,
                        leading: ts.leading,
                        char_spacing: ts.char_spacing,
                        word_spacing: ts.word_spacing,
                    },
                );
            },
            None => {
                m.finish(ts);
            },
        }
    } else {
        m.finish(ts);
    }
}

/// Interprets a content stream. `fonts` are the font resources of the
/// page: the entries of its font dictionary.
pub fn run(content: &[u8], fonts: &Vec<DictEntry>) -> (r: Vec<TextEvent>)
    ensures
        view_events(r@) == spec_run(content@, 0, spec_initial(), view_entries(fonts@)),
{
    let mut reader = ByteReader::new(content);
    let mut m = Machine::new();
    loop
        invariant
            reader.input() == content@,
            0 <= reader.offset() <= content@.len(),
            spec_run(content@, 0, spec_initial(), view_entries(fonts@)) == spec_run(
                content@,
                reader.offset(),
                m@,
                view_entries(fonts@),
            ),
        decreases content@.len() - reader.offset(),
    {
        let ghost before = m@;
        let tok = next_token(&mut reader);
        let at: usize = reader.position();
        match tok {
            Token::End => {
                return m.events;
            },
            Token::Junk => {},
            Token::Operand(o) => {
                let ghost ov = o@;
                m.stack.push(o);
                assert(view_items(m.stack@) =~= before.stack.push(ov));
            },
            Token::Operator(w) => {
                if bytes_eq(w.as_slice(), "BI".as_bytes()) {
                    let k: usize = find_word(content, at, "EI");
                    let to: usize = if k >= content.len() {
                        content.len()
                    } else {
                        k + "EI".as_bytes().len()
                    };
                    let _ = reader.seek(to);
                    m.finish(m.state);
                } else {
                    apply_operator(&mut m, w.as_slice(), fonts);
                }
            },
        }
    }
}

/// The operators of content streams, separated by spaces.
pub const OPERATORS: &'static str = "b B b* B* BDC BI BMC BT BX c cm CS cs d d0 d1 Do DP EI EMC ET EX f F f* G g gs h \
    i ID j J K k l m M MP n q Q re RG rg ri s S SC sc SCN scn sh T* Tc Td TD Tf Tj TJ TL Tm Tr Ts \
    Tw Tz v w W W* y ' \"";

/// `w` is an operator of content streams.
pub open spec fn spec_is_operator(w: Seq<u8>) -> bool {
    spec_glyph_index(OPERATORS.spec_bytes(), 0, 0, w) is Some
}

/// How many tokens of the content stream from offset `p` on the
/// interpreter passes over because they mean nothing to it: bytes that
/// start no token, and words that are no operator. The data of an inline
/// image is not looked at.
pub open spec fn spec_skipped(s: Seq<u8>, p: int, acc: usize) -> usize
    decreases remaining(s, p),
{
    let (tok, e) = spec_next_token(s, p);
    if !(p < e <= s.len()) {
        acc
    } else {
        match tok {
            TokenView::End => acc,
            TokenView::Junk => spec_skipped(s, e, spec_bump(acc)),
            TokenView::Operand(_) => spec_skipped(s, e, acc),
            TokenView::Operator(w) => if w == "BI".spec_bytes() {
                if e <= spec_skip_image(s, e) <= s.len() {
                    spec_skipped(s, spec_skip_image(s, e), acc)
                } else {
                    acc
                }
            } else {
                spec_skipped(
                    s,
                    e,
                    if spec_is_operator(w) {
                        acc
                    } else {
                        spec_bump(acc)
                    },
                )
            },
        }
    }
}

/// Counts the tokens of a content stream that the interpreter passes
/// over because they mean nothing to it.
pub fn skipped(content: &[u8]) -> (r: usize)
    ensures
        r == spec_skipped(content@, 0, 0),
{
    let mut reader = ByteReader::new(content);
    let mut count: usize = 0;
    loop
        invariant
            reader.input() == content@,
            0 <= reader.offset() <= content@.len(),
            spec_skipped(content@, 0, 0) == spec_skipped(content@, reader.offset(), count),
        decreases content@.len() - reader.offset(),
    {
        let tok = next_token(&mut reader);
        let at: usize = reader.position();
        match tok {
            Token::End => {
                return count;
            },
            Token::Junk => {
                count = bump(count);
            },
            Token::Operand(_) => {},
            Token::Operator(w) => {
                if bytes_eq(w.as_slice(), "BI".as_bytes()) {
                    let k: usize = find_word(content, at, "EI");
                    let to: usize = if k >= content.len() {
                        content.len()
                    } else {
                        k + "EI".as_bytes().len()
                    };
                    let _ = reader.seek(to);
                } else {
                    match list_index(OPERATORS.as_bytes(), w.as_slice()) {
                        Some(_) => {},
                        None => {
                            count = bump(count);
                        },
                    }
                }
            },
        }
    }
}

} // verus!
