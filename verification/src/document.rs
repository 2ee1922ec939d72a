//! What holds of whole documents: statements that tie the parts together,
//! from the bytes of a document to its text.

use vstd::prelude::*;
use vstd::string::*;
use crate::error::ExtractError;
use crate::filter::{lemma_single_filter_round_trip, spec_decode};
use crate::object::{Obj, spec_dict_get};
use crate::page::{MAX_NODES, MAX_TREE_DEPTH, Progress, spec_add_page, spec_content_text, spec_document, spec_extract_text, spec_is_page, spec_kids, spec_page_fonts, spec_page_root, spec_page_text, spec_resources, spec_walk_kids, spec_walk_node};
use crate::resolve::{MAX_REFERENCE_DEPTH, lemma_long_chain_is_cycle, lemma_self_reference_is_cycle, spec_chain_of_references, spec_deref, spec_fetch, spec_fetch_offset};
use crate::table::{MAX_SECTIONS, lemma_chain_newest_wins, spec_build, spec_primary, spec_startxref};
use crate::text::spec_chars;
use crate::xref::{Locator, ObjectId, XrefEntry, spec_parse_section};

verus! {

/// The table of the document.
pub open spec fn spec_table(s: Seq<u8>) -> Map<u32, Locator> {
    spec_build(s)->Ok_0.0
}

/// The number of the object that the document names as its catalog.
pub open spec fn spec_root(s: Seq<u8>) -> u32 {
    spec_build(s)->Ok_0.1.number
}

/// A document whose catalog is only a reference to itself has no text: the
/// answer is the cycle error.
pub proof fn lemma_catalog_that_refers_to_itself(s: Seq<u8>, generation: int)
    requires
        spec_build(s) is Ok,
        spec_fetch(s, spec_table(s), spec_root(s)) == Ok::<_, ExtractError>(
            Obj::Reference(spec_root(s) as int, generation),
        ),
    ensures
        spec_extract_text(s) == Err::<Seq<char>, _>(ExtractError::ReferenceCycle),
{
    lemma_self_reference_is_cycle(
        s,
        spec_table(s),
        spec_root(s),
        generation,
        MAX_REFERENCE_DEPTH as nat,
    );
}

/// A document whose catalog entry leads into a chain of references longer
/// than what is followed has no text: the answer is the cycle error.
pub proof fn lemma_catalog_behind_a_long_chain(s: Seq<u8>)
    requires
        spec_build(s) is Ok,
        spec_chain_of_references(s, spec_table(s), spec_root(s), MAX_REFERENCE_DEPTH as nat),
    ensures
        spec_extract_text(s) == Err::<Seq<char>, _>(ExtractError::ReferenceCycle),
{
    lemma_long_chain_is_cycle(s, spec_table(s), spec_root(s), MAX_REFERENCE_DEPTH as nat);
}

/// The empty input is no document: the answer is that it has no
/// cross-reference data.
pub proof fn lemma_empty_input(s: Seq<u8>)
    requires
        s.len() == 0,
    ensures
        spec_extract_text(s) == Err::<Seq<char>, _>(ExtractError::XrefError),
{
    reveal_strlit("startxref");
    is_ascii_spec_bytes("startxref");
}

/// Input in which no section can be read and no catalog can be found is
/// no document: the answer is that it has no cross-reference data.
pub proof fn lemma_input_without_table(s: Seq<u8>)
    requires
        spec_primary(s) is None,
        crate::table::spec_fallback(s) is None,
    ensures
        spec_extract_text(s) == Err::<Seq<char>, _>(ExtractError::XrefError),
{
}

/// The node at the root of the page tree of the document.
pub open spec fn spec_tree(s: Seq<u8>) -> Obj {
    spec_page_root(s, spec_table(s), spec_build(s)->Ok_0.1)->Ok_0
}

/// The document has a table, a catalog and a page tree whose root is a
/// dictionary with the children `kids`.
#[verifier::opaque]
pub open spec fn spec_has_pages(s: Seq<u8>, kids: Seq<Obj>) -> bool {
    &&& spec_build(s) is Ok
    &&& spec_page_root(s, spec_table(s), spec_build(s)->Ok_0.1) is Ok
    &&& spec_tree(s).entries() is Some
    &&& spec_kids(s, spec_table(s), spec_tree(s).entries()->Some_0) == Some(kids)
}

/// The resources that the root of the page tree hands down.
pub open spec fn spec_tree_resources(s: Seq<u8>) -> Option<Obj> {
    spec_resources(s, spec_table(s), spec_tree(s).entries()->Some_0, None)
}

/// A document whose page tree has no children has no page, and the answer
/// is the error for that, not an empty text.
pub proof fn lemma_page_tree_without_children(s: Seq<u8>)
    requires
        spec_has_pages(s, Seq::empty()),
    ensures
        spec_extract_text(s) == Err::<Seq<char>, _>(ExtractError::EmptyDocument),
{
    reveal(spec_has_pages);
    reveal_with_fuel(spec_walk_node, 2);
    reveal_with_fuel(spec_walk_kids, 2);
}

/// The object that the child `k` of the root of the page tree is or
/// refers to.
pub open spec fn spec_child(s: Seq<u8>, k: Obj) -> Obj {
    spec_deref(s, spec_table(s), k)->Ok_0
}

/// The dictionary of that child.
pub open spec fn spec_child_entries(s: Seq<u8>, k: Obj) -> Seq<(Seq<u8>, Obj)> {
    spec_child(s, k).entries()->Some_0
}

/// The resources that hold for that child.
pub open spec fn spec_child_resources(s: Seq<u8>, k: Obj) -> Option<Obj> {
    spec_resources(s, spec_table(s), spec_child_entries(s, k), spec_tree_resources(s))
}

/// The font resources that hold for that child.
pub open spec fn spec_child_fonts(s: Seq<u8>, k: Obj) -> Seq<(Seq<u8>, Obj)> {
    spec_page_fonts(s, spec_table(s), spec_child_resources(s, k))
}

/// The child `k` of the root of the page tree can be fetched, is a
/// dictionary without children of its own, and says that it is a page.
pub open spec fn spec_child_is_leaf(s: Seq<u8>, k: Obj) -> bool {
    &&& spec_deref(s, spec_table(s), k) is Ok
    &&& spec_child(s, k).entries() is Some
    &&& spec_kids(s, spec_table(s), spec_child_entries(s, k)) is None
    &&& spec_is_page(spec_child_entries(s, k))
}

/// The child `k` of the root of the page tree is a page, and `t` is what
/// working out its text gives.
#[verifier::opaque]
pub open spec fn spec_child_is_page(s: Seq<u8>, k: Obj, t: Result<Seq<u32>, ExtractError>) -> bool {
    &&& spec_child_is_leaf(s, k)
    &&& spec_page_text(s, spec_table(s), spec_child_entries(s, k), spec_child_resources(s, k))
        == t
}

/// The content of the page `k` is a single stream with the dictionary `sd`
/// and the data `raw`.
pub open spec fn spec_child_has_stream(s: Seq<u8>, k: Obj, sd: Seq<(Seq<u8>, Obj)>, raw: Seq<u8>) -> bool {
    &&& spec_child_is_leaf(s, k)
    &&& spec_dict_get(spec_child_entries(s, k), "Contents".spec_bytes()) is Some
    &&& spec_deref(
        s,
        spec_table(s),
        spec_dict_get(spec_child_entries(s, k), "Contents".spec_bytes())->Some_0,
    ) == Ok::<_, ExtractError>(Obj::Stream(sd, raw))
}

/// A page whose content is a single stream has the text that the decoded
/// data of the stream gives, and fails as the decoding fails.
pub proof fn lemma_page_with_one_stream(s: Seq<u8>, k: Obj, sd: Seq<(Seq<u8>, Obj)>, raw: Seq<u8>)
    requires
        spec_child_has_stream(s, k, sd, raw),
    ensures
        spec_decode(sd, raw) matches Ok(c) ==> spec_child_is_page(
            s,
            k,
            Ok(spec_content_text(s, spec_table(s), c, spec_child_fonts(s, k))),
        ),
        spec_decode(sd, raw) matches Err(e) ==> spec_child_is_page(s, k, Err(e)),
{
    reveal(spec_child_is_page);
}

/// The progress at the start of the walk over the children of the root.
pub open spec fn spec_start() -> Progress {
    Progress {
        budget: (MAX_NODES - 1) as usize,
        pages: 0,
        emitted: 0,
        skipped: 0,
        fallbacks: 0,
    }
}

/// What the walk over the child `k` of the root gives.
pub open spec fn spec_walk_child(s: Seq<u8>, k: Obj, p: Progress, text: Seq<u32>) -> (
    Progress,
    Seq<u32>,
) {
    spec_walk_node(
        s,
        spec_table(s),
        spec_child(s, k),
        spec_tree_resources(s),
        (MAX_TREE_DEPTH - 1) as nat,
        p,
        text,
    )
}

/// What the walk over the children of the root from place `i` on gives.
pub open spec fn spec_walk_children(
    s: Seq<u8>,
    kids: Seq<Obj>,
    i: int,
    p: Progress,
    text: Seq<u32>,
) -> (Progress, Seq<u32>) {
    spec_walk_kids(
        s,
        spec_table(s),
        kids,
        i,
        spec_tree_resources(s),
        (MAX_TREE_DEPTH - 1) as nat,
        p,
        text,
    )
}

/// The walk over a child that is a page counts the page and adds its text
/// as [`spec_add_page`] says.
proof fn lemma_walk_child(
    s: Seq<u8>,
    k: Obj,
    t: Result<Seq<u32>, ExtractError>,
    p: Progress,
    text: Seq<u32>,
)
    requires
        spec_child_is_page(s, k, t),
        p.budget > 0,
    ensures
        spec_deref(s, spec_table(s), k) is Ok,
        spec_walk_child(s, k, p, text).1 == spec_add_page(p, text, t).1,
        spec_walk_child(s, k, p, text).0.pages == spec_add_page(p, text, t).0.pages,
        spec_walk_child(s, k, p, text).0.emitted == spec_add_page(p, text, t).0.emitted,
        spec_walk_child(s, k, p, text).0.budget == p.budget - 1,
{
    reveal(spec_child_is_page);
    reveal_with_fuel(spec_walk_node, 2);
}

proof fn lemma_document_is_walk(s: Seq<u8>, kids: Seq<Obj>)
    requires
        spec_has_pages(s, kids),
    ensures
        spec_walk_children(s, kids, 0, spec_start(), Seq::empty()).0.pages == 0 ==> spec_document(s)
            == Err::<(Progress, Seq<u32>), _>(ExtractError::EmptyDocument),
        spec_walk_children(s, kids, 0, spec_start(), Seq::empty()).0.pages != 0 ==> spec_document(s)
            == Ok::<_, ExtractError>(spec_walk_children(s, kids, 0, spec_start(), Seq::empty())),
{
    reveal(spec_has_pages);
    reveal_with_fuel(spec_walk_node, 2);
}

proof fn lemma_walk_children_step(
    s: Seq<u8>,
    kids: Seq<Obj>,
    i: int,
    t: Result<Seq<u32>, ExtractError>,
    p: Progress,
    text: Seq<u32>,
)
    requires
        0 <= i < kids.len(),
        spec_child_is_page(s, kids[i], t),
        p.budget > 0,
    ensures
        spec_walk_children(s, kids, i, p, text) == spec_walk_children(
            s,
            kids,
            i + 1,
            spec_walk_child(s, kids[i], p, text).0,
            spec_walk_child(s, kids[i], p, text).1,
        ),
{
    lemma_walk_child(s, kids[i], t, p, text);
    let depth = (MAX_TREE_DEPTH - 1) as nat;
    let table = spec_table(s);
    let res = spec_tree_resources(s);
    let r = spec_walk_child(s, kids[i], p, text);
    assert(spec_walk_kids(s, table, kids, i, res, depth, p, text) == spec_walk_kids(
        s,
        table,
        kids,
        i + 1,
        res,
        depth,
        r.0,
        r.1,
    ));
}

proof fn lemma_walk_children_end(s: Seq<u8>, kids: Seq<Obj>, p: Progress, text: Seq<u32>)
    ensures
        spec_walk_children(s, kids, kids.len() as int, p, text) == (p, text),
{
}

/// A document with one page has the text of that page, with nothing before
/// or after it.
pub proof fn lemma_document_of_one_page(s: Seq<u8>, k: Obj, t: Seq<u32>)
    requires
        spec_has_pages(s, seq![k]),
        spec_child_is_page(s, k, Ok(t)),
    ensures
        spec_extract_text(s) == Ok::<_, ExtractError>(spec_chars(t, 0, Seq::empty())),
{
    let kids = seq![k];
    let empty = Seq::<u32>::empty();
    assert(kids[0] == k);
    lemma_document_is_walk(s, kids);
    lemma_walk_children_step(s, kids, 0, Ok(t), spec_start(), empty);
    lemma_walk_child(s, k, Ok(t), spec_start(), empty);
    let r = spec_walk_child(s, k, spec_start(), empty);
    lemma_walk_children_end(s, kids, r.0, r.1);
    assert(empty + t =~= t);
}

proof fn lemma_document_of_two_children(
    s: Seq<u8>,
    first: Obj,
    second: Obj,
    a: Result<Seq<u32>, ExtractError>,
    b: Result<Seq<u32>, ExtractError>,
)
    requires
        spec_has_pages(s, seq![first, second]),
        spec_child_is_page(s, first, a),
        spec_child_is_page(s, second, b),
    ensures
        spec_document(s) is Ok,
        spec_document(s)->Ok_0.1 == spec_add_page(
            spec_add_page(spec_start(), Seq::empty(), a).0,
            spec_add_page(spec_start(), Seq::empty(), a).1,
            b,
        ).1,
{
    let kids = seq![first, second];
    let empty = Seq::<u32>::empty();
    assert(kids[0] == first);
    assert(kids[1] == second);
    lemma_document_is_walk(s, kids);
    lemma_walk_children_step(s, kids, 0, a, spec_start(), empty);
    lemma_walk_child(s, first, a, spec_start(), empty);
    let r1 = spec_walk_child(s, first, spec_start(), empty);
    lemma_walk_children_step(s, kids, 1, b, r1.0, r1.1);
    lemma_walk_child(s, second, b, r1.0, r1.1);
    let r2 = spec_walk_child(s, second, r1.0, r1.1);
    lemma_walk_children_end(s, kids, r2.0, r2.1);
    let x = spec_add_page(spec_start(), empty, a);
    assert(r1.1 == x.1);
    assert(r1.0.emitted == x.0.emitted);
    assert(r2.1 == spec_add_page(x.0, x.1, b).1);
    assert(r2.0.pages != 0);
}

/// A document of two pages of which the second cannot be read has the
/// text of the first page alone.
pub proof fn lemma_second_page_fails(
    s: Seq<u8>,
    first: Obj,
    second: Obj,
    t: Seq<u32>,
    e: ExtractError,
)
    requires
        spec_has_pages(s, seq![first, second]),
        spec_child_is_page(s, first, Ok(t)),
        spec_child_is_page(s, second, Err(e)),
    ensures
        spec_extract_text(s) == Ok::<_, ExtractError>(spec_chars(t, 0, Seq::empty())),
{
    lemma_document_of_two_children(s, first, second, Ok(t), Err(e));
    assert(Seq::<u32>::empty() + t =~= t);
}

/// A document of two pages of which the first cannot be read has the text
/// of the second page alone.
pub proof fn lemma_first_page_fails(
    s: Seq<u8>,
    first: Obj,
    second: Obj,
    t: Seq<u32>,
    e: ExtractError,
)
    requires
        spec_has_pages(s, seq![first, second]),
        spec_child_is_page(s, first, Err(e)),
        spec_child_is_page(s, second, Ok(t)),
    ensures
        spec_extract_text(s) == Ok::<_, ExtractError>(spec_chars(t, 0, Seq::empty())),
{
    lemma_document_of_two_children(s, first, second, Err(e), Ok(t));
    assert(Seq::<u32>::empty() + t =~= t);
}

/// The stream dictionary `sd` names the filter `name` and nothing else: no
/// second filter and no filter parameters.
pub open spec fn spec_single_filter(sd: Seq<(Seq<u8>, Obj)>, name: Seq<u8>) -> bool {
    &&& spec_dict_get(sd, "Filter".spec_bytes()) == Some(Obj::Name(name))
    &&& spec_dict_get(sd, "DecodeParms".spec_bytes()) is None
}

/// `raw` is what the encoder of one of the filters writes for `c`, and
/// `sd` names that filter and nothing else.
pub open spec fn spec_encoded_with(sd: Seq<(Seq<u8>, Obj)>, raw: Seq<u8>, c: Seq<u8>) -> bool {
    ||| spec_single_filter(sd, "FlateDecode".spec_bytes()) && raw
        == crate::flate::spec_flate_encode(c)
    ||| spec_single_filter(sd, "ASCIIHexDecode".spec_bytes()) && raw
        == crate::asciihex::spec_hex_encode(c)
    ||| spec_single_filter(sd, "ASCII85Decode".spec_bytes()) && raw
        == crate::ascii85::spec_ascii85_encode(c)
    ||| spec_single_filter(sd, "RunLengthDecode".spec_bytes()) && raw
        == crate::runlength::spec_run_length_encode(c)
}

/// A document of one page whose content stream holds `c` without a filter
/// has the text that the content `c` gives.
pub proof fn lemma_one_page_unfiltered(s: Seq<u8>, k: Obj, sd: Seq<(Seq<u8>, Obj)>, c: Seq<u8>)
    requires
        spec_has_pages(s, seq![k]),
        spec_child_has_stream(s, k, sd, c),
        spec_dict_get(sd, "Filter".spec_bytes()) is None,
    ensures
        spec_extract_text(s) == Ok::<_, ExtractError>(
            spec_chars(
                spec_content_text(s, spec_table(s), c, spec_child_fonts(s, k)),
                0,
                Seq::empty(),
            ),
        ),
{
    lemma_page_with_one_stream(s, k, sd, c);
    lemma_document_of_one_page(
        s,
        k,
        spec_content_text(s, spec_table(s), c, spec_child_fonts(s, k)),
    );
}

/// A document of one page whose content stream holds what the encoder of
/// its single filter wrote for `c` has the text that the content `c`
/// gives: the same as if the stream held `c` itself.
pub proof fn lemma_one_page_through_one_filter(
    s: Seq<u8>,
    k: Obj,
    sd: Seq<(Seq<u8>, Obj)>,
    raw: Seq<u8>,
    c: Seq<u8>,
)
    requires
        spec_has_pages(s, seq![k]),
        spec_child_has_stream(s, k, sd, raw),
        spec_encoded_with(sd, raw, c),
    ensures
        spec_decode(sd, raw) == Ok::<_, ExtractError>(c),
        spec_extract_text(s) == Ok::<_, ExtractError>(
            spec_chars(
                spec_content_text(s, spec_table(s), c, spec_child_fonts(s, k)),
                0,
                Seq::empty(),
            ),
        ),
{
    lemma_single_filter_round_trip(sd, c);
    lemma_page_with_one_stream(s, k, sd, raw);
    lemma_document_of_one_page(
        s,
        k,
        spec_content_text(s, spec_table(s), c, spec_child_fonts(s, k)),
    );
}

/// The stream dictionary `sd` names a single filter that is none of those
/// that are implemented.
pub open spec fn spec_unknown_filter(sd: Seq<(Seq<u8>, Obj)>) -> bool {
    &&& spec_dict_get(sd, "Filter".spec_bytes()) is Some
    &&& spec_dict_get(sd, "Filter".spec_bytes())->Some_0 is Name
    &&& spec_dict_get(sd, "Filter".spec_bytes())->Some_0->Name_0 != "FlateDecode".spec_bytes()
    &&& spec_dict_get(sd, "Filter".spec_bytes())->Some_0->Name_0 != "ASCIIHexDecode".spec_bytes()
    &&& spec_dict_get(sd, "Filter".spec_bytes())->Some_0->Name_0 != "ASCII85Decode".spec_bytes()
    &&& spec_dict_get(sd, "Filter".spec_bytes())->Some_0->Name_0 != "RunLengthDecode".spec_bytes()
}

/// A stream whose single filter is not implemented cannot be decoded, and
/// the error says why.
pub proof fn lemma_unknown_filter_is_unsupported(sd: Seq<(Seq<u8>, Obj)>, raw: Seq<u8>)
    requires
        spec_unknown_filter(sd),
    ensures
        spec_decode(sd, raw) == Err::<Seq<u8>, _>(ExtractError::UnsupportedFilter),
{
}

/// A document of two pages, one of which shows the content `c` and the
/// other of which has a content stream with a filter that is not
/// implemented, has the text that `c` gives, whichever page comes first.
pub proof fn lemma_page_with_unknown_filter_is_left_out(
    s: Seq<u8>,
    first: Obj,
    second: Obj,
    good: Obj,
    bad: Obj,
    gd: Seq<(Seq<u8>, Obj)>,
    c: Seq<u8>,
    bd: Seq<(Seq<u8>, Obj)>,
    raw: Seq<u8>,
)
    requires
        spec_has_pages(s, seq![first, second]),
        (good == first && bad == second) || (good == second && bad == first),
        spec_child_has_stream(s, good, gd, c),
        spec_dict_get(gd, "Filter".spec_bytes()) is None,
        spec_child_has_stream(s, bad, bd, raw),
        spec_unknown_filter(bd),
    ensures
        spec_extract_text(s) == Ok::<_, ExtractError>(
            spec_chars(
                spec_content_text(s, spec_table(s), c, spec_child_fonts(s, good)),
                0,
                Seq::empty(),
            ),
        ),
{
    let t = spec_content_text(s, spec_table(s), c, spec_child_fonts(s, good));
    lemma_page_with_one_stream(s, good, gd, c);
    lemma_unknown_filter_is_unsupported(bd, raw);
    lemma_page_with_one_stream(s, bad, bd, raw);
    if good == first {
        lemma_second_page_fails(s, first, second, t, ExtractError::UnsupportedFilter);
    } else {
        lemma_first_page_fails(s, first, second, t, ExtractError::UnsupportedFilter);
    }
}

/// The document is read through its sections, and `newest` is the section
/// that its end points to.
pub open spec fn spec_newest_section(
    s: Seq<u8>,
    newest: (Seq<XrefEntry>, Option<ObjectId>, Option<usize>),
) -> bool {
    &&& spec_startxref(s) is Some
    &&& spec_parse_section(s, spec_startxref(s)->Some_0 as int) == Some(newest)
    &&& spec_primary(s) is Some
}

/// In a document that is read through its sections, an object that the
/// newest section has an entry for is fetched from where the first such
/// entry says, if an object can be read there, whatever the sections
/// before it say of the same object. The text of the document is worked
/// out from objects fetched in this way.
pub proof fn lemma_document_fetches_the_newest(
    s: Seq<u8>,
    newest: (Seq<XrefEntry>, Option<ObjectId>, Option<usize>),
    k: int,
)
    requires
        spec_newest_section(s, newest),
        0 <= k < newest.0.len(),
        forall|j: int| 0 <= j < k ==> newest.0[j].number != newest.0[k].number,
    ensures
        spec_build(s) is Ok,
        spec_table(s).contains_key(newest.0[k].number),
        spec_table(s)[newest.0[k].number] == newest.0[k].locator,
        newest.0[k].locator matches Locator::Offset(off) ==> spec_fetch_offset(
            s,
            spec_table(s),
            off as int,
        ) is Ok ==> spec_fetch(s, spec_table(s), newest.0[k].number) == spec_fetch_offset(
            s,
            spec_table(s),
            off as int,
        ),
{
    lemma_chain_newest_wins(s, newest, MAX_SECTIONS as nat, k);
}

} // verus!
