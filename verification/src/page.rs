//! The page tree and the text of a whole document.

use vstd::prelude::*;
use vstd::string::*;
use crate::bytes::{append_bytes, append_scalars, bump, spec_bump};
use crate::content::{skipped, spec_skipped};
use crate::font::is_fallback;
use crate::content::{
    TextEvent, TextEventView, run, spec_advance, spec_initial, spec_run, view_events,
};
use crate::error::ExtractError;
use crate::filter::{decode, spec_decode};
use crate::font::{
    FontResource, FontView, build, decode_codes, fallback_font, spec_build_font,
    spec_decode_codes, spec_fallback_font,
};
use crate::geometry::{clamp, fixed_mul};
use crate::content::ADVANCE_PER_BYTE;
use crate::object::{
    DictEntry, Obj, PdfObject, bytes_eq, dict_get, dict_get_str, spec_dict_get, view_entries,
    view_items,
};
use crate::resolve::{MAX_REFERENCE_DEPTH, Resolved, deref, resolve, spec_deref, spec_resolve};
use crate::table::{XrefTable, build as build_table, spec_build};
use crate::text::{
    ExtractedPage, TextRun, TextRunView, spec_chars, spec_flatten, to_string, };
use crate::xref::{Locator, ObjectId};

verus! {

/// How deep the page tree is followed.
pub const MAX_TREE_DEPTH: usize = 64;

/// How many nodes of the page tree are visited.
pub const MAX_NODES: usize = 1_000_000;

/// What is known of the font that `o` is or refers to; the fallback font
/// where the reference cannot be followed.
pub open spec fn spec_font_of(s: Seq<u8>, table: Map<u32, Locator>, o: Obj) -> FontView {
    match spec_deref(s, table, o) {
        Ok(f) => spec_build_font(s, table, f),
        Err(_) => spec_fallback_font(),
    }
}

/// The font that the font resources `fonts` hold under `name`; the
/// fallback font where they hold none.
pub open spec fn spec_named_font(
    s: Seq<u8>,
    table: Map<u32, Locator>,
    fonts: Seq<(Seq<u8>, Obj)>,
    name: Seq<u8>,
) -> FontView {
    match spec_dict_get(fonts, name) {
        Some(o) => spec_font_of(s, table, o),
        None => spec_fallback_font(),
    }
}

/// The fonts of a document that have been worked out, by object number.
pub struct FontCache {
    pub keys: Vec<u32>,
    pub fonts: Vec<FontResource>,
}

impl FontCache {
    /// Every font in the cache is what working it out again would give.
    pub open spec fn wf(&self, s: Seq<u8>, table: Map<u32, Locator>) -> bool {
        &&& self.keys@.len() == self.fonts@.len()
        &&& forall|i: int|
            0 <= i < self.keys@.len() ==> (#[trigger] self.fonts@[i])@ == spec_font_of(
                s,
                table,
                Obj::Reference(self.keys@[i] as int, 0),
            )
    }

    /// A cache without fonts.
    pub fn new() -> (r: FontCache)
        ensures
            forall|s: Seq<u8>, table: Map<u32, Locator>| r.wf(s, table),
    {
        FontCache { keys: Vec::new(), fonts: Vec::new() }
    }

    /// The place of font `number` in the cache; the font is worked out and
    /// entered where it is not there yet.
    fn place(&mut self, number: u32, generation: u16, table: &XrefTable, bytes: &[u8]) -> (r: usize)
        requires
            old(self).wf(bytes@, table@.0),
        ensures
            final(self).wf(bytes@, table@.0),
            r < final(self).fonts@.len(),
            final(self).fonts@[r as int]@ == spec_font_of(
                bytes@,
                table@.0,
                Obj::Reference(number as int, generation as int),
            ),
    {
        let mut i: usize = 0;
        while i < self.keys.len()
            invariant
                i <= self.keys@.len(),
                self.wf(bytes@, table@.0),
                *self == *old(self),
            decreases self.keys.len() - i,
        {
            if self.keys[i] == number {
                return i;
            }
            i += 1;
        }
        let font = font_of(&PdfObject::Reference(number, generation), table, bytes);
        self.keys.push(number);
        self.fonts.push(font);
        self.keys.len() - 1
    }
}

/// `t` with a space after it, unless it is empty or ends with one.
pub open spec fn spec_with_space(t: Seq<u32>) -> Seq<u32> {
    if t.len() > 0 && t.last() != 32 {
        t.push(32)
    } else {
        t
    }
}

/// The code points of shown text whose word gaps lie at `breaks`: the
/// pieces between the gaps are turned into code points one by one, from
/// gap `k` and offset `from` on, and a space is put where a gap lies. A gap
/// that lies before the last or beyond the end is passed over.
pub open spec fn spec_pieces(
    font: FontView,
    codes: Seq<u8>,
    breaks: Seq<usize>,
    k: int,
    from: int,
    acc: Seq<u32>,
) -> Seq<u32>
    decreases breaks.len() - k,
{
    if k < 0 || k >= breaks.len() {
        if 0 <= from <= codes.len() {
            acc + spec_decode_codes(font, codes.subrange(from, codes.len() as int), 0, Seq::empty())
        } else {
            acc
        }
    } else if 0 <= from <= breaks[k] <= codes.len() {
        spec_pieces(
            font,
            codes,
            breaks,
            k + 1,
            breaks[k] as int,
            spec_with_space(
                acc + spec_decode_codes(
                    font,
                    codes.subrange(from, breaks[k] as int),
                    0,
                    Seq::empty(),
                ),
            ),
        )
    } else {
        spec_pieces(font, codes, breaks, k + 1, from, acc)
    }
}

fn pieces(font: &FontResource, ev: &TextEvent) -> (r: Vec<u32>)
    ensures
        r@ == spec_pieces(font@, ev.codes@, ev.breaks@, 0, 0, Seq::empty()),
{
    let mut out: Vec<u32> = Vec::new();
    let mut from: usize = 0;
    let mut k: usize = 0;
    let n: usize = ev.codes.len();
    while k < ev.breaks.len()
        invariant
            k <= ev.breaks.len(),
            n == ev.codes@.len(),
            from <= n,
            spec_pieces(font@, ev.codes@, ev.breaks@, 0, 0, Seq::empty()) == spec_pieces(
                font@,
                ev.codes@,
                ev.breaks@,
                k as int,
                from as int,
                out@,
            ),
        decreases ev.breaks.len() - k,
    {
        let b: usize = ev.breaks[k];
        if from <= b && b <= n {
            let piece = decode_codes(font, vstd::slice::slice_subrange(ev.codes.as_slice(), from, b));
            append_scalars(&mut out, piece.as_slice());
            let m: usize = out.len();
            if m > 0 && out[m - 1] != 32 {
                out.push(32);
            }
            from = b;
        }
        k += 1;
    }
    let piece = decode_codes(font, vstd::slice::slice_subrange(ev.codes.as_slice(), from, n));
    append_scalars(&mut out, piece.as_slice());
    out
}

/// The run that the event `ev` makes with the font resources `fonts`.
pub open spec fn spec_event_run(
    s: Seq<u8>,
    table: Map<u32, Locator>,
    fonts: Seq<(Seq<u8>, Obj)>,
    ev: TextEventView,
) -> TextRunView {
    TextRunView {
        text: spec_pieces(
            spec_named_font(s, table, fonts, ev.font),
            ev.codes,
            ev.breaks,
            0,
            0,
            Seq::empty(),
        ),
        x: ev.x,
        y: ev.y,
        size: ev.size,
        width: spec_advance(ev.codes.len(), ev.size),
    }
}

/// The runs of a page: one for every event.
pub open spec fn spec_page_runs(
    s: Seq<u8>,
    table: Map<u32, Locator>,
    fonts: Seq<(Seq<u8>, Obj)>,
    events: Seq<TextEventView>,
) -> Seq<TextRunView> {
    Seq::new(events.len(), |i: int| spec_event_run(s, table, fonts, events[i]))
}

fn font_of(o: &PdfObject, table: &XrefTable, bytes: &[u8]) -> (r: FontResource)
    ensures
        r@ == spec_font_of(bytes@, table@.0, o@),
{
    match deref(o, table, bytes) {
        Ok(f) => build(f.get(), table, bytes),
        Err(_) => fallback_font(),
    }
}

fn event_text(
    ev: &TextEvent,
    fonts: &Vec<DictEntry>,
    table: &XrefTable,
    bytes: &[u8],
    cache: &mut FontCache,
) -> (r: (Vec<u32>, bool))
    requires
        old(cache).wf(bytes@, table@.0),
    ensures
        final(cache).wf(bytes@, table@.0),
        r.0@ == spec_pieces(
            spec_named_font(bytes@, table@.0, view_entries(fonts@), ev.font@),
            ev.codes@,
            ev.breaks@,
            0,
            0,
            Seq::empty(),
        ),
        r.1 == (spec_named_font(bytes@, table@.0, view_entries(fonts@), ev.font@)
            == spec_fallback_font()),
{
    match dict_get(fonts, ev.font.as_slice()) {
        Some(PdfObject::Reference(n, g)) => {
            let k: usize = cache.place(*n, *g, table, bytes);
            (pieces(&cache.fonts[k], ev), is_fallback(&cache.fonts[k]))
        },
        Some(o) => {
            let font = font_of(o, table, bytes);
            (pieces(&font, ev), is_fallback(&font))
        },
        None => {
            let font = fallback_font();
            (pieces(&font, ev), true)
        },
    }
}

/// Turns the events of a page into runs of text.
pub fn assemble(
    events: &Vec<TextEvent>,
    fonts: &Vec<DictEntry>,
    table: &XrefTable,
    bytes: &[u8],
    cache: &mut FontCache,
) -> (r: (ExtractedPage, usize))
    requires
        old(cache).wf(bytes@, table@.0),
    ensures
        final(cache).wf(bytes@, table@.0),
        r.0@ == spec_page_runs(bytes@, table@.0, view_entries(fonts@), view_events(events@)),
        r.1 == spec_fallback_runs(
            bytes@,
            table@.0,
            view_entries(fonts@),
            view_events(events@),
            0,
            0,
        ),
{
    let mut runs: Vec<TextRun> = Vec::new();
    let mut fallbacks: usize = 0;
    let mut i: usize = 0;
    while i < events.len()
        invariant
            i <= events.len(),
            cache.wf(bytes@, table@.0),
            runs@.len() == i,
            spec_fallback_runs(
                bytes@,
                table@.0,
                view_entries(fonts@),
                view_events(events@),
                0,
                0,
            ) == spec_fallback_runs(
                bytes@,
                table@.0,
                view_entries(fonts@),
                view_events(events@),
                i as int,
                fallbacks,
            ),
            forall|k: int|
                0 <= k < i ==> (#[trigger] runs@[k])@ == spec_event_run(
                    bytes@,
                    table@.0,
                    view_entries(fonts@),
                    events@[k]@,
                ),
        decreases events.len() - i,
    {
        let ev: &TextEvent = &events[i];
        assert(view_events(events@)[i as int] == events@[i as int]@);
        let (text, stand_in) = event_text(ev, fonts, table, bytes, cache);
        if stand_in {
            fallbacks = bump(fallbacks);
        }
        let n: i64 = clamp(ev.codes.len() as i128);
        let width: i64 = fixed_mul(clamp(n as i128 * ADVANCE_PER_BYTE as i128), ev.size);
        runs.push(TextRun { text, x: ev.x, y: ev.y, size: ev.size, width });
        i += 1;
    }
    let page = ExtractedPage { runs };
    assert(page@ =~= spec_page_runs(
        bytes@,
        table@.0,
        view_entries(fonts@),
        view_events(events@),
    ));
    (page, fallbacks)
}

/// The decoded data of the content stream that `item` is or refers to.
pub open spec fn spec_content_item(s: Seq<u8>, table: Map<u32, Locator>, item: Obj) -> Result<
    Seq<u8>,
    ExtractError,
> {
    match spec_deref(s, table, item) {
        Err(e) => Err(e),
        Ok(Obj::Stream(sd, raw)) => spec_decode(sd, raw),
        Ok(_) => Err(ExtractError::MalformedObject),
    }
}

fn content_item(item: &PdfObject, table: &XrefTable, bytes: &[u8]) -> (r: Result<
    Vec<u8>,
    ExtractError,
>)
    ensures
        r matches Err(e) ==> e.is_read_failure(),
        crate::filter::lift_decoded(r) == spec_content_item(bytes@, table@.0, item@),
{
    match deref(item, table, bytes) {
        Err(e) => Err(e),
        Ok(v) => match v.get() {
            PdfObject::Stream(sd, raw) => decode(sd, raw.as_slice()),
            _ => Err(ExtractError::MalformedObject),
        },
    }
}

/// The decoded data of the content streams listed in `items` from place
/// `i` on, each followed by a line feed, appended to `acc`.
pub open spec fn spec_concat_contents(
    s: Seq<u8>,
    table: Map<u32, Locator>,
    items: Seq<Obj>,
    i: int,
    acc: Seq<u8>,
) -> Result<Seq<u8>, ExtractError>
    decreases items.len() - i,
{
    if i < 0 || i >= items.len() {
        Ok(acc)
    } else {
        match spec_content_item(s, table, items[i]) {
            Err(e) => Err(e),
            Ok(data) => spec_concat_contents(s, table, items, i + 1, acc + data + seq![10u8]),
        }
    }
}

/// The content of a page: the decoded data of its content stream, or of
/// its content streams one after the other. A page without content has
/// empty content.
pub open spec fn spec_page_content(
    s: Seq<u8>,
    table: Map<u32, Locator>,
    page: Seq<(Seq<u8>, Obj)>,
) -> Result<Seq<u8>, ExtractError> {
    match spec_dict_get(page, "Contents".spec_bytes()) {
        None => Ok(Seq::empty()),
        Some(o) => match spec_deref(s, table, o) {
            Err(e) => Err(e),
            Ok(Obj::Stream(sd, raw)) => spec_decode(sd, raw),
            Ok(Obj::Array(items)) => spec_concat_contents(s, table, items, 0, Seq::empty()),
            Ok(_) => Ok(Seq::empty()),
        },
    }
}

fn concat_contents(items: &Vec<PdfObject>, table: &XrefTable, bytes: &[u8]) -> (r: Result<
    Vec<u8>,
    ExtractError,
>)
    ensures
        r matches Err(e) ==> e.is_read_failure(),
        match r {
            Ok(v) => spec_concat_contents(bytes@, table@.0, view_items(items@), 0, Seq::empty())
                == Ok::<_, ExtractError>(v@),
            Err(e) => spec_concat_contents(bytes@, table@.0, view_items(items@), 0, Seq::empty())
                == Err::<Seq<u8>, _>(e),
        },
{
    let mut out: Vec<u8> = Vec::new();
    let mut i: usize = 0;
    while i < items.len()
        invariant
            i <= items.len(),
            spec_concat_contents(bytes@, table@.0, view_items(items@), 0, Seq::empty())
                == spec_concat_contents(bytes@, table@.0, view_items(items@), i as int, out@),
        decreases items.len() - i,
    {
        assert(view_items(items@)[i as int] == items@[i as int]@);
        match content_item(&items[i], table, bytes) {
            Err(e) => {
                return Err(e);
            },
            Ok(data) => {
                let ghost before = out@;
                append_bytes(&mut out, data.as_slice());
                out.push(10);
                assert(out@ =~= before + data@ + seq![10u8]);
            },
        }
        i += 1;
    }
    Ok(out)
}

fn page_content(page: &Vec<DictEntry>, table: &XrefTable, bytes: &[u8]) -> (r: Result<
    Vec<u8>,
    ExtractError,
>)
    ensures
        r matches Err(e) ==> e.is_read_failure(),
        match r {
            Ok(v) => spec_page_content(bytes@, table@.0, view_entries(page@)) == Ok::<
                _,
                ExtractError,
            >(v@),
            Err(e) => spec_page_content(bytes@, table@.0, view_entries(page@)) == Err::<
                Seq<u8>,
                _,
            >(e),
        },
{
    match dict_get_str(page, "Contents") {
        None => Ok(Vec::new()),
        Some(o) => match deref(o, table, bytes) {
            Err(e) => Err(e),
            Ok(v) => match v.get() {
                PdfObject::Stream(sd, raw) => decode(sd, raw.as_slice()),
                PdfObject::Array(items) => concat_contents(items, table, bytes),
                _ => Ok(Vec::new()),
            },
        },
    }
}

/// The font resources among the resources of a page: the entries of the
/// font dictionary, or none where there is no such dictionary.
pub open spec fn spec_page_fonts(s: Seq<u8>, table: Map<u32, Locator>, resources: Option<Obj>) -> Seq<
    (Seq<u8>, Obj),
> {
    match resources {
        None => Seq::empty(),
        Some(r) => match r.entries() {
            None => Seq::empty(),
            Some(rd) => match spec_dict_get(rd, "Font".spec_bytes()) {
                None => Seq::empty(),
                Some(f) => match spec_deref(s, table, f) {
                    Err(_) => Seq::empty(),
                    Ok(fo) => match fo.entries() {
                        None => Seq::empty(),
                        Some(fd) => fd,
                    },
                },
            },
        },
    }
}

/// What was passed over while the content of a page was read.
#[derive(Clone, Copy, Debug, PartialEq, Eq, Structural)]
pub struct Notes {
    /// How many tokens meant nothing to the interpreter.
    pub skipped: usize,
    /// How many runs of text were read with the font that stands in for a
    /// font that is missing or cannot be read.
    pub fallbacks: usize,
}

/// How many of the events from place `i` on are read with the font that
/// stands in for a font that is missing, added to `acc`.
pub open spec fn spec_fallback_runs(
    s: Seq<u8>,
    table: Map<u32, Locator>,
    fonts: Seq<(Seq<u8>, Obj)>,
    events: Seq<TextEventView>,
    i: int,
    acc: usize,
) -> usize
    decreases events.len() - i,
{
    if i < 0 || i >= events.len() {
        acc
    } else {
        spec_fallback_runs(
            s,
            table,
            fonts,
            events,
            i + 1,
            if spec_named_font(s, table, fonts, events[i].font) == spec_fallback_font() {
                spec_bump(acc)
            } else {
                acc
            },
        )
    }
}

/// What is passed over while content data is read with the font
/// resources `fonts`.
pub open spec fn spec_content_notes(
    s: Seq<u8>,
    table: Map<u32, Locator>,
    content: Seq<u8>,
    fonts: Seq<(Seq<u8>, Obj)>,
) -> Notes {
    Notes {
        skipped: spec_skipped(content, 0, 0),
        fallbacks: spec_fallback_runs(
            s,
            table,
            fonts,
            spec_run(content, 0, spec_initial(), fonts),
            0,
            0,
        ),
    }
}

/// What is passed over while the page with dictionary `page` is read;
/// nothing where the page cannot be read at all.
pub open spec fn spec_page_notes(
    s: Seq<u8>,
    table: Map<u32, Locator>,
    page: Seq<(Seq<u8>, Obj)>,
    resources: Option<Obj>,
) -> Notes {
    match spec_page_content(s, table, page) {
        Err(_) => Notes { skipped: 0, fallbacks: 0 },
        Ok(content) => spec_content_notes(s, table, content, spec_page_fonts(s, table, resources)),
    }
}

/// `a` and `b` together, as far as the machine can count.
pub open spec fn spec_sum(a: usize, b: usize) -> usize {
    if a + b <= usize::MAX {
        (a + b) as usize
    } else {
        usize::MAX
    }
}

fn sum(a: usize, b: usize) -> (r: usize)
    ensures
        r == spec_sum(a, b),
{
    if b <= usize::MAX - a {
        a + b
    } else {
        usize::MAX
    }
}

/// The text that content data gives with the font resources `fonts`.
pub open spec fn spec_content_text(
    s: Seq<u8>,
    table: Map<u32, Locator>,
    content: Seq<u8>,
    fonts: Seq<(Seq<u8>, Obj)>,
) -> Seq<u32> {
    spec_flatten(
        spec_page_runs(s, table, fonts, spec_run(content, 0, spec_initial(), fonts)),
        0,
        None,
        Seq::empty(),
    )
}

/// The text of the page with dictionary `page`, whose resources, its own
/// or those of an ancestor, are `resources`.
pub open spec fn spec_page_text(
    s: Seq<u8>,
    table: Map<u32, Locator>,
    page: Seq<(Seq<u8>, Obj)>,
    resources: Option<Obj>,
) -> Result<Seq<u32>, ExtractError> {
    match spec_page_content(s, table, page) {
        Err(e) => Err(e),
        Ok(content) => Ok(
            spec_content_text(s, table, content, spec_page_fonts(s, table, resources)),
        ),
    }
}

fn content_text(
    content: &Vec<u8>,
    fonts: &Vec<DictEntry>,
    table: &XrefTable,
    bytes: &[u8],
    cache: &mut FontCache,
) -> (r: (Vec<u32>, Notes))
    requires
        old(cache).wf(bytes@, table@.0),
    ensures
        final(cache).wf(bytes@, table@.0),
        r.0@ == spec_content_text(bytes@, table@.0, content@, view_entries(fonts@)),
        r.1 == spec_content_notes(bytes@, table@.0, content@, view_entries(fonts@)),
{
    let events = run(content.as_slice(), fonts);
    let (page, fallbacks) = assemble(&events, fonts, table, bytes, cache);
    (page.flatten(), Notes { skipped: skipped(content.as_slice()), fallbacks })
}

fn page_text(
    page: &Vec<DictEntry>,
    resources: Option<&PdfObject>,
    table: &XrefTable,
    bytes: &[u8],
    cache: &mut FontCache,
) -> (r: (Result<Vec<u32>, ExtractError>, Notes))
    requires
        old(cache).wf(bytes@, table@.0),
    ensures
        final(cache).wf(bytes@, table@.0),
        r.1 == spec_page_notes(
            bytes@,
            table@.0,
            view_entries(page@),
            crate::object::view_option(resources),
        ),
        match r.0 {
            Ok(v) => spec_page_text(
                bytes@,
                table@.0,
                view_entries(page@),
                crate::object::view_option(resources),
            ) == Ok::<_, ExtractError>(v@),
            Err(e) => spec_page_text(
                bytes@,
                table@.0,
                view_entries(page@),
                crate::object::view_option(resources),
            ) == Err::<Seq<u32>, _>(e),
        },
{
    let content = match page_content(page, table, bytes) {
        Err(e) => {
            return (Err(e), Notes { skipped: 0, fallbacks: 0 });
        },
        Ok(c) => c,
    };
    let none: Vec<DictEntry> = Vec::new();
    assert(view_entries(none@) =~= Seq::empty());
    let entry: Option<&PdfObject> = match resources {
        None => None,
        Some(r) => match r.as_dict() {
            None => None,
            Some(rd) => dict_get_str(rd, "Font"),
        },
    };
    let (text, notes) = match entry {
        None => content_text(&content, &none, table, bytes, cache),
        Some(f) => match deref(f, table, bytes) {
            Err(_) => content_text(&content, &none, table, bytes, cache),
            Ok(v) => match v.get().as_dict() {
                None => content_text(&content, &none, table, bytes, cache),
                Some(fd) => content_text(&content, fd, table, bytes, cache),
            },
        },
    };
    (Ok(text), notes)
}

/// How far a walk over the page tree has come.
#[derive(Clone, Copy, Debug, PartialEq, Eq, Structural)]
pub struct Progress {
    /// How many more nodes may be visited.
    pub budget: usize,
    /// How many pages were reached.
    pub pages: usize,
    /// How many of them gave their text.
    pub emitted: usize,
    /// How many tokens of content streams were passed over because they
    /// mean nothing.
    pub skipped: usize,
    /// How many runs of text were read with the font that stands in for a
    /// font that is missing.
    pub fallbacks: usize,
}

/// The progress and the text after one more page. A page whose text could
/// not be worked out is counted and adds nothing; the text of any other
/// page is added, after a line feed where text of an earlier page is there.
pub open spec fn spec_add_page(p: Progress, text: Seq<u32>, page: Result<Seq<u32>, ExtractError>) -> (
    Progress,
    Seq<u32>,
) {
    match page {
        Err(_) => (
            Progress { budget: p.budget, pages: spec_bump(p.pages), emitted: p.emitted, skipped: p.skipped, fallbacks: p.fallbacks },
            text,
        ),
        Ok(t) => (
            Progress {
                budget: p.budget,
                pages: spec_bump(p.pages),
                emitted: spec_bump(p.emitted),
                skipped: p.skipped,
                fallbacks: p.fallbacks,
            },
            if p.emitted > 0 {
                text + seq![10u32] + t
            } else {
                text + t
            },
        ),
    }
}

/// The progress with what was passed over on one more page added to what
/// was passed over before.
pub open spec fn spec_noted(p: Progress, n: Notes) -> Progress {
    Progress {
        budget: p.budget,
        pages: p.pages,
        emitted: p.emitted,
        skipped: spec_sum(p.skipped, n.skipped),
        fallbacks: spec_sum(p.fallbacks, n.fallbacks),
    }
}

/// The resources that hold for a node: its own where it has any that can
/// be read, or else those of its ancestors.
pub open spec fn spec_resources(
    s: Seq<u8>,
    table: Map<u32, Locator>,
    d: Seq<(Seq<u8>, Obj)>,
    inherited: Option<Obj>,
) -> Option<Obj> {
    match spec_dict_get(d, "Resources".spec_bytes()) {
        None => inherited,
        Some(r) => match spec_deref(s, table, r) {
            Ok(o) => Some(o),
            Err(_) => inherited,
        },
    }
}

/// The children of a node of the page tree, where it has an array of them.
pub open spec fn spec_kids(s: Seq<u8>, table: Map<u32, Locator>, d: Seq<(Seq<u8>, Obj)>) -> Option<
    Seq<Obj>,
> {
    match spec_dict_get(d, "Kids".spec_bytes()) {
        None => None,
        Some(k) => match spec_deref(s, table, k) {
            Ok(Obj::Array(a)) => Some(a),
            _ => None,
        },
    }
}

/// The dictionary `d` says that it is a page.
pub open spec fn spec_is_page(d: Seq<(Seq<u8>, Obj)>) -> bool {
    spec_dict_get(d, "Type".spec_bytes()) == Some(Obj::Name("Page".spec_bytes()))
}

/// The progress and the text after the subtree under `node` has been
/// walked, depth first. A node with children is walked through them, as
/// long as `depth` allows; a node without children that says it is a page
/// gives its text; any other node gives nothing. Every node visited takes
/// one from the budget, and the walk stops where the budget is used up.
pub open spec fn spec_walk_node(
    s: Seq<u8>,
    table: Map<u32, Locator>,
    node: Obj,
    inherited: Option<Obj>,
    depth: nat,
    p: Progress,
    text: Seq<u32>,
) -> (Progress, Seq<u32>)
    decreases depth, 0nat,
{
    if p.budget == 0 {
        (p, text)
    } else {
        let q = Progress { budget: (p.budget - 1) as usize, pages: p.pages, emitted: p.emitted, skipped: p.skipped, fallbacks: p.fallbacks };
        match node.entries() {
            None => (q, text),
            Some(d) => {
                let res = spec_resources(s, table, d, inherited);
                match spec_kids(s, table, d) {
                    Some(kids) => if depth == 0 {
                        (q, text)
                    } else {
                        spec_walk_kids(s, table, kids, 0, res, (depth - 1) as nat, q, text)
                    },
                    None => if spec_is_page(d) {
                        spec_add_page(
                            spec_noted(q, spec_page_notes(s, table, d, res)),
                            text,
                            spec_page_text(s, table, d, res),
                        )
                    } else {
                        (q, text)
                    },
                }
            },
        }
    }
}

/// The progress and the text after the children from place `i` on have
/// been walked. A child that cannot be fetched is passed over.
pub open spec fn spec_walk_kids(
    s: Seq<u8>,
    table: Map<u32, Locator>,
    kids: Seq<Obj>,
    i: int,
    res: Option<Obj>,
    depth: nat,
    p: Progress,
    text: Seq<u32>,
) -> (Progress, Seq<u32>)
    decreases depth, 1 + (if i < kids.len() {
        kids.len() - i
    } else {
        0
    }),
{
    if i < 0 || i >= kids.len() {
        (p, text)
    } else {
        match spec_deref(s, table, kids[i]) {
            Ok(o) => {
                let r = spec_walk_node(s, table, o, res, depth, p, text);
                spec_walk_kids(s, table, kids, i + 1, res, depth, r.0, r.1)
            },
            Err(_) => spec_walk_kids(s, table, kids, i + 1, res, depth, p, text),
        }
    }
}

fn add_page(p: Progress, out: &mut Vec<u32>, page: Result<Vec<u32>, ExtractError>) -> (r: Progress)
    ensures
        (r, final(out)@) == spec_add_page(
            p,
            old(out)@,
            match page {
                Ok(v) => Ok(v@),
                Err(e) => Err(e),
            },
        ),
{
    match page {
        Err(_) => Progress { budget: p.budget, pages: bump(p.pages), emitted: p.emitted, skipped: p.skipped, fallbacks: p.fallbacks },
        Ok(t) => {
            if p.emitted > 0 {
                out.push(10);
            }
            append_scalars(out, t.as_slice());
            assert(p.emitted > 0 ==> out@ =~= old(out)@ + seq![10u32] + t@);
            Progress { budget: p.budget, pages: bump(p.pages), emitted: bump(p.emitted), skipped: p.skipped, fallbacks: p.fallbacks }
        },
    }
}

fn walk_leaf(
    d: &Vec<DictEntry>,
    res: Option<&PdfObject>,
    table: &XrefTable,
    bytes: &[u8],
    cache: &mut FontCache,
    q: Progress,
    out: &mut Vec<u32>,
) -> (r: Progress)
    requires
        old(cache).wf(bytes@, table@.0),
    ensures
        final(cache).wf(bytes@, table@.0),
        (r, final(out)@) == (if spec_is_page(view_entries(d@)) {
            spec_add_page(
                spec_noted(
                    q,
                    spec_page_notes(
                        bytes@,
                        table@.0,
                        view_entries(d@),
                        crate::object::view_option(res),
                    ),
                ),
                old(out)@,
                spec_page_text(bytes@, table@.0, view_entries(d@), crate::object::view_option(res)),
            )
        } else {
            (q, old(out)@)
        }),
{
    let is_page: bool = match dict_get_str(d, "Type") {
        Some(PdfObject::Name(n)) => bytes_eq(n.as_slice(), "Page".as_bytes()),
        _ => false,
    };
    if is_page {
        let (t, notes) = page_text(d, res, table, bytes, cache);
        let noted = Progress {
            budget: q.budget,
            pages: q.pages,
            emitted: q.emitted,
            skipped: sum(q.skipped, notes.skipped),
            fallbacks: sum(q.fallbacks, notes.fallbacks),
        };
        add_page(noted, out, t)
    } else {
        q
    }
}

fn walk_node(
    node: &PdfObject,
    inherited: Option<&PdfObject>,
    depth: usize,
    table: &XrefTable,
    bytes: &[u8],
    cache: &mut FontCache,
    p: Progress,
    out: &mut Vec<u32>,
) -> (r: Progress)
    requires
        old(cache).wf(bytes@, table@.0),
    ensures
        final(cache).wf(bytes@, table@.0),
        (r, final(out)@) == spec_walk_node(
            bytes@,
            table@.0,
            node@,
            crate::object::view_option(inherited),
            depth as nat,
            p,
            old(out)@,
        ),
    decreases depth, 0nat,
{
    if p.budget == 0 {
        return p;
    }
    let q = Progress { budget: p.budget - 1, pages: p.pages, emitted: p.emitted, skipped: p.skipped, fallbacks: p.fallbacks };
    let d: &Vec<DictEntry> = match node.as_dict() {
        None => {
            return q;
        },
        Some(d) => d,
    };
    let own: Option<Resolved> = match dict_get_str(d, "Resources") {
        None => None,
        Some(r) => match deref(r, table, bytes) {
            Ok(o) => Some(o),
            Err(_) => None,
        },
    };
    let res: Option<&PdfObject> = match &own {
        Some(o) => Some(o.get()),
        None => inherited,
    };
    assert(crate::object::view_option(res) == spec_resources(
        bytes@,
        table@.0,
        view_entries(d@),
        crate::object::view_option(inherited),
    ));
    let kids: Option<Resolved> = match dict_get_str(d, "Kids") {
        None => None,
        Some(k) => match deref(k, table, bytes) {
            Ok(o) => Some(o),
            Err(_) => None,
        },
    };
    match &kids {
        Some(k) => match k.get() {
            PdfObject::Array(a) => {
                if depth == 0 {
                    return q;
                }
                return walk_kids(a, res, depth - 1, table, bytes, cache, q, out);
            },
            _ => {},
        },
        None => {},
    }
    assert(spec_kids(bytes@, table@.0, view_entries(d@)) is None);
    walk_leaf(d, res, table, bytes, cache, q, out)
}

fn walk_kids(
    kids: &Vec<PdfObject>,
    res: Option<&PdfObject>,
    depth: usize,
    table: &XrefTable,
    bytes: &[u8],
    cache: &mut FontCache,
    p: Progress,
    out: &mut Vec<u32>,
) -> (r: Progress)
    requires
        old(cache).wf(bytes@, table@.0),
    ensures
        final(cache).wf(bytes@, table@.0),
        (r, final(out)@) == spec_walk_kids(
            bytes@,
            table@.0,
            view_items(kids@),
            0,
            crate::object::view_option(res),
            depth as nat,
            p,
            old(out)@,
        ),
    decreases depth, 1nat,
{
    let mut i: usize = 0;
    let mut cur: Progress = p;
    while i < kids.len()
        invariant
            i <= kids.len(),
            cache.wf(bytes@, table@.0),
            spec_walk_kids(
                bytes@,
                table@.0,
                view_items(kids@),
                0,
                crate::object::view_option(res),
                depth as nat,
                p,
                old(out)@,
            ) == spec_walk_kids(
                bytes@,
                table@.0,
                view_items(kids@),
                i as int,
                crate::object::view_option(res),
                depth as nat,
                cur,
                out@,
            ),
        decreases kids.len() - i,
    {
        assert(view_items(kids@)[i as int] == kids@[i as int]@);
        match deref(&kids[i], table, bytes) {
            Ok(o) => {
                cur = walk_node(o.get(), res, depth, table, bytes, cache, cur, out);
            },
            Err(_) => {},
        }
        i += 1;
    }
    cur
}

/// The root of the page tree, as the catalog names it.
pub open spec fn spec_page_root(s: Seq<u8>, table: Map<u32, Locator>, root: ObjectId) -> Result<
    Obj,
    ExtractError,
> {
    match spec_resolve(s, table, root.number, MAX_REFERENCE_DEPTH as nat) {
        Err(e) => Err(e),
        Ok(catalog) => match catalog.entries() {
            None => Err(ExtractError::MalformedObject),
            Some(cd) => match spec_dict_get(cd, "Pages".spec_bytes()) {
                None => Err(ExtractError::EmptyDocument),
                Some(p) => match spec_deref(s, table, p) {
                    Err(_) => Err(ExtractError::EmptyDocument),
                    Ok(node) => Ok(node),
                },
            },
        },
    }
}

/// What the walk over the whole page tree of the document gives: how far
/// it came, and the texts of the pages in the order of the tree, with a
/// line feed between one and the next. It is an error of its own kind
/// where the tree holds no page.
pub open spec fn spec_document(s: Seq<u8>) -> Result<(Progress, Seq<u32>), ExtractError> {
    match spec_build(s) {
        Err(e) => Err(e),
        Ok((table, root)) => match spec_page_root(s, table, root) {
            Err(e) => Err(e),
            Ok(node) => {
                let r = spec_walk_node(
                    s,
                    table,
                    node,
                    None,
                    MAX_TREE_DEPTH as nat,
                    Progress { budget: MAX_NODES, pages: 0, emitted: 0, skipped: 0, fallbacks: 0 },
                    Seq::empty(),
                );
                if r.0.pages == 0 {
                    Err(ExtractError::EmptyDocument)
                } else {
                    Ok(r)
                }
            },
        },
    }
}

/// The text of the document as code points.
pub open spec fn spec_document_text(s: Seq<u8>) -> Result<Seq<u32>, ExtractError> {
    match spec_document(s) {
        Err(e) => Err(e),
        Ok(r) => Ok(r.1),
    }
}

/// How many of the pages that were reached gave no text because they
/// could not be read.
pub open spec fn spec_failed_pages(p: Progress) -> usize {
    if p.pages >= p.emitted {
        (p.pages - p.emitted) as usize
    } else {
        0
    }
}

/// The text of a document together with notes of what was left out or
/// passed over on the way.
#[derive(Debug, PartialEq, Eq)]
pub struct Extraction {
    pub text: String,
    /// How many pages the page tree led to.
    pub pages: usize,
    /// How many of them could not be read and gave no text.
    pub failed_pages: usize,
    /// How many tokens of the content streams were passed over because
    /// they start nothing or are no operator.
    pub skipped_tokens: usize,
    /// How many runs of text were read with the font that stands in for a
    /// font that is missing or cannot be read.
    pub fallback_runs: usize,
}

/// The text of the document.
pub open spec fn spec_extract_text(s: Seq<u8>) -> Result<Seq<char>, ExtractError> {
    match spec_document_text(s) {
        Err(e) => Err(e),
        Ok(v) => Ok(spec_chars(v, 0, Seq::empty())),
    }
}

fn document(bytes: &[u8]) -> (r: Result<(Progress, Vec<u32>), ExtractError>)
    ensures
        r matches Err(e) ==> e.is_read_failure(),
        match r {
            Ok((p, v)) => spec_document(bytes@) == Ok::<_, ExtractError>((p, v@)),
            Err(e) => spec_document(bytes@) == Err::<(Progress, Seq<u32>), _>(e),
        },
{
    let table = match build_table(bytes) {
        Err(e) => {
            return Err(e);
        },
        Ok(t) => t,
    };
    let catalog = match resolve(table.root, &table, bytes) {
        Err(e) => {
            return Err(e);
        },
        Ok(c) => c,
    };
    let cd: &Vec<DictEntry> = match catalog.as_dict() {
        None => {
            return Err(ExtractError::MalformedObject);
        },
        Some(cd) => cd,
    };
    let pages: &PdfObject = match dict_get_str(cd, "Pages") {
        None => {
            return Err(ExtractError::EmptyDocument);
        },
        Some(p) => p,
    };
    let node = match deref(pages, &table, bytes) {
        Err(_) => {
            return Err(ExtractError::EmptyDocument);
        },
        Ok(n) => n,
    };
    let mut cache = FontCache::new();
    let mut out: Vec<u32> = Vec::new();
    let r = walk_node(
        node.get(),
        None,
        MAX_TREE_DEPTH,
        &table,
        bytes,
        &mut cache,
        Progress { budget: MAX_NODES, pages: 0, emitted: 0, skipped: 0, fallbacks: 0 },
        &mut out,
    );
    if r.pages == 0 {
        Err(ExtractError::EmptyDocument)
    } else {
        Ok((r, out))
    }
}

/// Extracts the text of a document held in memory, and notes how many
/// pages there were and how many of them could not be read.
pub fn extract(bytes: &[u8]) -> (r: Result<Extraction, ExtractError>)
    ensures
        r matches Err(e) ==> e.is_read_failure(),
        match r {
            Ok(x) => spec_document(bytes@) is Ok && spec_extract_text(bytes@) == Ok::<
                _,
                ExtractError,
            >(x.text@) && x.pages == spec_document(bytes@)->Ok_0.0.pages && x.failed_pages
                == spec_failed_pages(spec_document(bytes@)->Ok_0.0) && x.skipped_tokens
                == spec_document(bytes@)->Ok_0.0.skipped && x.fallback_runs == spec_document(
                bytes@,
            )->Ok_0.0.fallbacks,
            Err(e) => spec_extract_text(bytes@) == Err::<Seq<char>, _>(e),
        },
{
    match document(bytes) {
        Err(e) => Err(e),
        Ok((p, v)) => Ok(
            Extraction {
                text: to_string(&v),
                pages: p.pages,
                failed_pages: if p.pages >= p.emitted {
                    p.pages - p.emitted
                } else {
                    0
                },
                skipped_tokens: p.skipped,
                fallback_runs: p.fallbacks,
            },
        ),
    }
}

/// Extracts the text of a document held in memory.
pub fn extract_text(bytes: &[u8]) -> (r: Result<String, ExtractError>)
    ensures
        r matches Err(e) ==> e.is_read_failure(),
        match r {
            Ok(t) => spec_extract_text(bytes@) == Ok::<_, ExtractError>(t@),
            Err(e) => spec_extract_text(bytes@) == Err::<Seq<char>, _>(e),
        },
{
    match extract(bytes) {
        Err(e) => Err(e),
        Ok(x) => Ok(x.text),
    }
}

/// A page whose text cannot be worked out is counted as a page and leaves
/// the text of the other pages as it is.
pub proof fn lemma_failed_page_adds_nothing(p: Progress, text: Seq<u32>, e: ExtractError)
    ensures
        spec_add_page(p, text, Err(e)).1 == text,
        spec_add_page(p, text, Err(e)).0.pages == spec_bump(p.pages),
        spec_add_page(p, text, Err(e)).0.emitted == p.emitted,
{
}

/// The first page that gives its text gives it unchanged, and any later
/// page adds a line feed and its text.
pub proof fn lemma_page_text_is_appended(p: Progress, text: Seq<u32>, t: Seq<u32>)
    ensures
        p.emitted == 0 ==> spec_add_page(p, text, Ok(t)).1 == text + t,
        p.emitted > 0 ==> spec_add_page(p, text, Ok(t)).1 == text + seq![10u32] + t,
{
}

/// A document in whose page tree no page is reached has no text, and
/// extraction says so rather than giving an empty text.
pub proof fn lemma_no_page_is_an_error(s: Seq<u8>)
    requires
        spec_build(s) is Ok,
        spec_page_root(s, spec_build(s)->Ok_0.0, spec_build(s)->Ok_0.1) is Ok,
        spec_walk_node(
            s,
            spec_build(s)->Ok_0.0,
            spec_page_root(s, spec_build(s)->Ok_0.0, spec_build(s)->Ok_0.1)->Ok_0,
            None,
            MAX_TREE_DEPTH as nat,
            Progress { budget: MAX_NODES, pages: 0, emitted: 0, skipped: 0, fallbacks: 0 },
            Seq::empty(),
        ).0.pages == 0,
    ensures
        spec_extract_text(s) == Err::<Seq<char>, _>(ExtractError::EmptyDocument),
{
}

} // verus!
