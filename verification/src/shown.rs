//! The text of a content stream that selects a font and shows one string:
//! the statement that the string comes out as it went in, proved from the
//! bytes of the stream up to the text.

use vstd::prelude::*;
use vstd::string::*;
use crate::content::{
    MachineView, TextEventView, TextState, spec_apply_operator, spec_initial, spec_run, spec_select_font,
    spec_show,
};
use crate::cmap::spec_code_of;
use crate::encoding::{BaseEncoding, spec_base_scalar, spec_base_table};
use crate::error::ExtractError;
use crate::document::{
    lemma_document_fetches_the_newest, lemma_one_page_through_one_filter,
    lemma_page_with_unknown_filter_is_left_out, spec_child_entries, spec_child_is_leaf,
    spec_encoded_with, spec_newest_section, spec_unknown_filter, lemma_one_page_unfiltered, spec_child_fonts, spec_child_has_stream, spec_has_pages, spec_table,
};
use crate::font::{spec_is_composite};
use crate::object::spec_dict_get;
use crate::page::{
    spec_content_text, spec_event_run, spec_extract_text, spec_named_font, spec_page_runs,
    spec_pieces,
};
use crate::resolve::{MAX_REFERENCE_DEPTH, spec_deref, spec_fetch, spec_fetch_offset, spec_resolve};
use crate::xref::{ObjectId, XrefEntry};
use crate::xref::Locator;
use crate::font::{FontView, spec_decode_codes, spec_lookup};
use crate::text::{TextRunView, spec_chars, spec_flatten, spec_is_scalar};
use crate::geometry::spec_identity;
use crate::lexer::{Number, decimal_value, is_regular, is_whitespace, spec_digits_end, spec_literal_string, spec_name, spec_number, spec_regular_end, spec_skip_blank, spec_skip_whitespace};
use crate::object::{
    MAX_DEPTH, Obj, spec_parse_atom, spec_parse_value, spec_reference_tail,
};
use crate::token::{TokenView, spec_next_token};

verus! {

/// Nothing is skipped at a byte that is neither white space nor the start
/// of a comment, nor at the end of the data.
pub proof fn lemma_nothing_to_skip(s: Seq<u8>, p: int)
    requires
        0 <= p <= s.len(),
        p < s.len() ==> !is_whitespace(s[p]) && s[p] != 37,
    ensures
        spec_skip_whitespace(s, p) == p,
{
}

/// One space before a byte that is neither white space nor the start of a
/// comment is skipped, and no more.
pub proof fn lemma_skip_one_space(s: Seq<u8>, p: int)
    requires
        0 <= p < s.len(),
        s[p] == 32,
        p + 1 < s.len() ==> !is_whitespace(s[p + 1]) && s[p + 1] != 37,
    ensures
        spec_skip_whitespace(s, p) == p + 1,
{
    reveal_with_fuel(spec_skip_blank, 2);
}

/// A run of regular bytes ends where the first byte that is not regular
/// stands, or at the end of the data.
pub proof fn lemma_regular_end_is(s: Seq<u8>, q: int, e: int)
    requires
        0 <= q <= e <= s.len(),
        forall|i: int| q <= i < e ==> is_regular(#[trigger] s[i]),
        e < s.len() ==> !is_regular(s[e]),
    ensures
        spec_regular_end(s, q) == e,
    decreases e - q,
{
    if q < e {
        lemma_regular_end_is(s, q + 1, e);
    }
}

/// A token that starts with a letter is no number.
pub proof fn lemma_word_is_no_number(t: Seq<u8>)
    requires
        t.len() > 0,
        (65 <= t[0] <= 90) || (97 <= t[0] <= 122),
    ensures
        spec_number(t) is None,
{
}

/// The bytes of the three words that are objects.
proof fn lemma_object_words()
    ensures
        "true".spec_bytes().len() == 4,
        "false".spec_bytes().len() == 5,
        "null".spec_bytes().len() == 4,
        "R".spec_bytes() == seq![82u8],
{
    reveal_strlit("true");
    reveal_strlit("false");
    reveal_strlit("null");
    reveal_strlit("R");
    is_ascii_spec_bytes("true");
    is_ascii_spec_bytes("false");
    is_ascii_spec_bytes("null");
    is_ascii_spec_bytes("R");
    assert("R".spec_bytes() =~= seq![82u8]);
}

/// A word of two letters that follows at most one space is an operator
/// token.
pub proof fn lemma_operator_of_two_letters(s: Seq<u8>, p: int, q: int)
    requires
        0 <= p <= q,
        q + 2 <= s.len(),
        spec_skip_whitespace(s, p) == q,
        (65 <= s[q] <= 90) || (97 <= s[q] <= 122),
        is_regular(s[q + 1]),
        q + 2 < s.len() ==> !is_regular(s[q + 2]),
    ensures
        spec_next_token(s, p) == (TokenView::Operator(s.subrange(q, q + 2)), q + 2),
{
    lemma_nothing_to_skip(s, q);
    assert forall|i: int| q <= i < q + 2 implies is_regular(#[trigger] s[i]) by {
        if i == q {
        } else {
            assert(i == q + 1);
        }
    }
    lemma_regular_end_is(s, q, q + 2);
    let t = s.subrange(q, q + 2);
    assert(t[0] == s[q]);
    lemma_word_is_no_number(t);
    lemma_object_words();
    assert(spec_parse_atom(s, q) == Err::<(Obj, int), _>(ExtractError::MalformedObject));
    assert(spec_parse_value(s, q, MAX_DEPTH as nat) == Err::<(Obj, int), _>(
        ExtractError::MalformedObject,
    ));
}

/// A solidus and two regular bytes, none of them a number sign, make a
/// name token of those two bytes.
pub proof fn lemma_name_of_two_bytes(s: Seq<u8>, p: int, q: int)
    requires
        0 <= p <= q,
        q + 3 <= s.len(),
        spec_skip_whitespace(s, p) == q,
        s[q] == 47,
        is_regular(s[q + 1]) && s[q + 1] != 35,
        is_regular(s[q + 2]) && s[q + 2] != 35,
        q + 3 < s.len() ==> !is_regular(s[q + 3]),
    ensures
        spec_next_token(s, p) == (TokenView::Operand(Obj::Name(seq![s[q + 1], s[q + 2]])), q + 3),
{
    lemma_nothing_to_skip(s, q);
    reveal_with_fuel(spec_name, 3);
    let e0 = Seq::<u8>::empty();
    assert(spec_name(s, q + 3, e0.push(s[q + 1]).push(s[q + 2])) == (
        e0.push(s[q + 1]).push(s[q + 2]),
        q + 3,
    ));
    assert(e0.push(s[q + 1]).push(s[q + 2]) =~= seq![s[q + 1], s[q + 2]]);
}

/// The digits `1` and `2`, a space and a word that starts with a letter
/// make an integer token of the value twelve.
pub proof fn lemma_integer_twelve(s: Seq<u8>, p: int, q: int)
    requires
        0 <= p <= q,
        q + 4 <= s.len(),
        spec_skip_whitespace(s, p) == q,
        s[q] == 49,
        s[q + 1] == 50,
        s[q + 2] == 32,
        (65 <= s[q + 3] <= 90) || (97 <= s[q + 3] <= 122),
    ensures
        spec_next_token(s, p) == (TokenView::Operand(Obj::Integer(12)), q + 2),
{
    lemma_nothing_to_skip(s, q);
    assert forall|i: int| q <= i < q + 2 implies is_regular(#[trigger] s[i]) by {
        if i == q {
        } else {
            assert(i == q + 1);
        }
    }
    lemma_regular_end_is(s, q, q + 2);
    let t = s.subrange(q, q + 2);
    assert(t[0] == 49 && t[1] == 50);
    reveal_with_fuel(spec_digits_end, 3);
    reveal_with_fuel(decimal_value, 3);
    assert(spec_digits_end(t, 0) == 2);
    let d = t.subrange(0, 2);
    assert(d.last() == 50);
    assert(d.drop_last().last() == 49);
    assert(d.drop_last().drop_last().len() == 0);
    assert(decimal_value(d) == 12);
    assert(spec_number(t) == Some(Number::Integer(12)));
    lemma_skip_one_space(s, q + 2);
    crate::lexer::lemma_regular_run(s, q + 3);
    let e2 = spec_regular_end(s, q + 3);
    assert(e2 > q + 3);
    let w = s.subrange(q + 3, e2);
    assert(w[0] == s[q + 3]);
    lemma_word_is_no_number(w);
    assert(spec_reference_tail(s, q + 2) is None);
    assert(spec_parse_atom(s, q) == Ok::<_, ExtractError>((Obj::Integer(12), q + 2)));
    assert(spec_parse_value(s, q, MAX_DEPTH as nat) == Ok::<_, ExtractError>(
        (Obj::Integer(12), q + 2),
    ));
}

/// No byte of `b` is a parenthesis or a backslash.
pub open spec fn spec_plain(b: Seq<u8>) -> bool {
    forall|i: int| 0 <= i < b.len() ==> (#[trigger] b[i]) != 40 && b[i] != 41 && b[i] != 92
}

/// A literal string of plain bytes is read as those bytes.
pub proof fn lemma_plain_literal(s: Seq<u8>, p: int, e: int, acc: Seq<u8>)
    requires
        0 <= p <= e < s.len(),
        spec_plain(s.subrange(p, e)),
        s[e] == 41,
    ensures
        spec_literal_string(s, p, 0, acc) == Ok::<_, ExtractError>((acc + s.subrange(p, e), e + 1)),
    decreases e - p,
{
    if p == e {
        assert(acc + s.subrange(p, e) =~= acc);
    } else {
        assert(s.subrange(p, e)[0] == s[p]);
        assert forall|i: int| 0 <= i < s.subrange(p + 1, e).len() implies (
        #[trigger] s.subrange(p + 1, e)[i]) != 40 && s.subrange(p + 1, e)[i] != 41 && s.subrange(
            p + 1,
            e,
        )[i] != 92 by {
            assert(s.subrange(p + 1, e)[i] == s.subrange(p, e)[i + 1]);
        }
        lemma_plain_literal(s, p + 1, e, acc.push(s[p]));
        assert(acc.push(s[p]) + s.subrange(p + 1, e) =~= acc + s.subrange(p, e));
    }
}

/// A parenthesis, plain bytes and a closing parenthesis make a string
/// token of those bytes.
pub proof fn lemma_string_token(s: Seq<u8>, p: int, q: int, e: int)
    requires
        0 <= p <= q < e < s.len(),
        spec_skip_whitespace(s, p) == q,
        s[q] == 40,
        spec_plain(s.subrange(q + 1, e)),
        s[e] == 41,
    ensures
        spec_next_token(s, p) == (TokenView::Operand(Obj::String(s.subrange(q + 1, e))), e + 1),
{
    lemma_nothing_to_skip(s, q);
    lemma_plain_literal(s, q + 1, e, Seq::empty());
    assert(Seq::<u8>::empty() + s.subrange(q + 1, e) =~= s.subrange(q + 1, e));
}

/// At the end of the data there is no token.
pub proof fn lemma_no_token_at_the_end(s: Seq<u8>)
    ensures
        spec_next_token(s, s.len() as int) == (TokenView::End, s.len() as int),
{
    lemma_nothing_to_skip(s, s.len() as int);
}

/// The bytes of the operators that the interpreter knows.
proof fn lemma_operator_names()
    ensures
        "BT".spec_bytes() == seq![66u8, 84u8],
        "Tf".spec_bytes() == seq![84u8, 102u8],
        "Td".spec_bytes() == seq![84u8, 100u8],
        "TD".spec_bytes() == seq![84u8, 68u8],
        "Tm".spec_bytes() == seq![84u8, 109u8],
        "T*".spec_bytes() == seq![84u8, 42u8],
        "TL".spec_bytes() == seq![84u8, 76u8],
        "Tc".spec_bytes() == seq![84u8, 99u8],
        "Tw".spec_bytes() == seq![84u8, 119u8],
        "Tj".spec_bytes() == seq![84u8, 106u8],
        "TJ".spec_bytes() == seq![84u8, 74u8],
        "'".spec_bytes() == seq![39u8],
        "\"".spec_bytes() == seq![34u8],
        "cm".spec_bytes() == seq![99u8, 109u8],
        "q".spec_bytes() == seq![113u8],
        "Q".spec_bytes() == seq![81u8],
        "BI".spec_bytes() == seq![66u8, 73u8],
{
    reveal_strlit("BT");
    is_ascii_spec_bytes("BT");
    assert("BT".spec_bytes() =~= seq![66u8, 84u8]);
    reveal_strlit("Tf");
    is_ascii_spec_bytes("Tf");
    assert("Tf".spec_bytes() =~= seq![84u8, 102u8]);
    reveal_strlit("Td");
    is_ascii_spec_bytes("Td");
    assert("Td".spec_bytes() =~= seq![84u8, 100u8]);
    reveal_strlit("TD");
    is_ascii_spec_bytes("TD");
    assert("TD".spec_bytes() =~= seq![84u8, 68u8]);
    reveal_strlit("Tm");
    is_ascii_spec_bytes("Tm");
    assert("Tm".spec_bytes() =~= seq![84u8, 109u8]);
    reveal_strlit("T*");
    is_ascii_spec_bytes("T*");
    assert("T*".spec_bytes() =~= seq![84u8, 42u8]);
    reveal_strlit("TL");
    is_ascii_spec_bytes("TL");
    assert("TL".spec_bytes() =~= seq![84u8, 76u8]);
    reveal_strlit("Tc");
    is_ascii_spec_bytes("Tc");
    assert("Tc".spec_bytes() =~= seq![84u8, 99u8]);
    reveal_strlit("Tw");
    is_ascii_spec_bytes("Tw");
    assert("Tw".spec_bytes() =~= seq![84u8, 119u8]);
    reveal_strlit("Tj");
    is_ascii_spec_bytes("Tj");
    assert("Tj".spec_bytes() =~= seq![84u8, 106u8]);
    reveal_strlit("TJ");
    is_ascii_spec_bytes("TJ");
    assert("TJ".spec_bytes() =~= seq![84u8, 74u8]);
    reveal_strlit("'");
    is_ascii_spec_bytes("'");
    assert("'".spec_bytes() =~= seq![39u8]);
    reveal_strlit("\"");
    is_ascii_spec_bytes("\"");
    assert("\"".spec_bytes() =~= seq![34u8]);
    reveal_strlit("cm");
    is_ascii_spec_bytes("cm");
    assert("cm".spec_bytes() =~= seq![99u8, 109u8]);
    reveal_strlit("q");
    is_ascii_spec_bytes("q");
    assert("q".spec_bytes() =~= seq![113u8]);
    reveal_strlit("Q");
    is_ascii_spec_bytes("Q");
    assert("Q".spec_bytes() =~= seq![81u8]);
    reveal_strlit("BI");
    is_ascii_spec_bytes("BI");
    assert("BI".spec_bytes() =~= seq![66u8, 73u8]);
}

proof fn lemma_pairs_differ(a: u8, b: u8, c: u8, d: u8)
    requires
        a != c || b != d,
    ensures
        seq![a, b] != seq![c, d],
{
    if a != c {
        assert(seq![a, b][0] != seq![c, d][0]);
    } else {
        assert(seq![a, b][1] != seq![c, d][1]);
    }
}

proof fn lemma_pair_is_no_single(a: u8, b: u8, c: u8)
    ensures
        seq![a, b] != seq![c],
{
    assert(seq![a, b].len() != seq![c].len());
}

/// `op` is a word of two bytes that is none of the operators that show
/// text, and not the start of an inline image.
proof fn lemma_two_bytes_apart(a: u8, b: u8)
    ensures
        forall|c: u8| seq![a, b] != #[trigger] seq![c],
{
    assert forall|c: u8| seq![a, b] != #[trigger] seq![c] by {
        lemma_pair_is_no_single(a, b, c);
    }
}

/// The machine at the start of a text object: the two text matrices
/// change nothing, and the stack is empty.
pub open spec fn spec_begin_text(m: MachineView) -> MachineView {
    m.next(
        TextState {
            ctm: m.state.ctm,
            tm: spec_identity(),
            tlm: spec_identity(),
            size: m.state.size,
            leading: m.state.leading,
            char_spacing: m.state.char_spacing,
            word_spacing: m.state.word_spacing,
        },
    )
}

/// What the operator `BT` does.
pub proof fn lemma_apply_begin_text(m: MachineView, fonts: Seq<(Seq<u8>, Obj)>)
    ensures
        spec_apply_operator(m, seq![66u8, 84u8], fonts) == spec_begin_text(m),
{
    lemma_operator_names();
}

/// What the operator `ET` does: it leaves the stack empty and changes
/// nothing else.
pub proof fn lemma_apply_end_text(m: MachineView, fonts: Seq<(Seq<u8>, Obj)>)
    ensures
        spec_apply_operator(m, seq![69u8, 84u8], fonts) == m.next(m.state),
{
    lemma_operator_names();
    lemma_two_bytes_apart(69, 84);
    lemma_pairs_differ(69, 84, 66, 84);
    lemma_pairs_differ(69, 84, 84, 102);
    lemma_pairs_differ(69, 84, 84, 100);
    lemma_pairs_differ(69, 84, 84, 68);
    lemma_pairs_differ(69, 84, 84, 109);
    lemma_pairs_differ(69, 84, 84, 42);
    lemma_pairs_differ(69, 84, 84, 76);
    lemma_pairs_differ(69, 84, 84, 99);
    lemma_pairs_differ(69, 84, 84, 119);
    lemma_pairs_differ(69, 84, 84, 106);
    lemma_pairs_differ(69, 84, 84, 74);
    lemma_pairs_differ(69, 84, 99, 109);
}

/// What the operator `Tf` does.
pub proof fn lemma_apply_select_font(m: MachineView, fonts: Seq<(Seq<u8>, Obj)>)
    ensures
        spec_apply_operator(m, seq![84u8, 102u8], fonts) == spec_select_font(m, fonts),
{
    lemma_operator_names();
    lemma_pairs_differ(84, 102, 66, 84);
}

/// What the operator `Tj` does.
pub proof fn lemma_apply_show(m: MachineView, fonts: Seq<(Seq<u8>, Obj)>)
    ensures
        spec_apply_operator(m, seq![84u8, 106u8], fonts) == spec_show(
            m,
            m.state,
            m.string(0),
            Seq::empty(),
        ),
{
    lemma_operator_names();
    lemma_pairs_differ(84, 106, 66, 84);
    lemma_pairs_differ(84, 106, 84, 102);
    lemma_pairs_differ(84, 106, 84, 100);
    lemma_pairs_differ(84, 106, 84, 68);
    lemma_pairs_differ(84, 106, 84, 109);
    lemma_pairs_differ(84, 106, 84, 42);
    lemma_pairs_differ(84, 106, 84, 76);
    lemma_pairs_differ(84, 106, 84, 99);
    lemma_pairs_differ(84, 106, 84, 119);
}

/// None of the four operators above starts an inline image.
proof fn lemma_no_inline_image()
    ensures
        seq![66u8, 84u8] != "BI".spec_bytes(),
        seq![84u8, 102u8] != "BI".spec_bytes(),
        seq![84u8, 106u8] != "BI".spec_bytes(),
        seq![69u8, 84u8] != "BI".spec_bytes(),
{
    lemma_operator_names();
    lemma_pairs_differ(66, 84, 66, 73);
    lemma_pairs_differ(84, 102, 66, 73);
    lemma_pairs_differ(84, 106, 66, 73);
    lemma_pairs_differ(69, 84, 66, 73);
}

/// The content stream `BT /F1 12 Tf (b) Tj ET`, for the bytes `b` of the
/// string that it shows.
pub open spec fn spec_show_content(b: Seq<u8>) -> Seq<u8> {
    seq![66u8, 84u8, 32u8, 47u8, 70u8, 49u8, 32u8, 49u8, 50u8, 32u8, 84u8, 102u8, 32u8, 40u8] + b
        + seq![41u8, 32u8, 84u8, 106u8, 32u8, 69u8, 84u8]
}

/// The name of the font that the content stream selects.
pub open spec fn spec_font_name() -> Seq<u8> {
    seq![70u8, 49u8]
}

/// The content stream is the text that its description spells.
pub proof fn lemma_show_content_text(b: Seq<u8>)
    ensures
        spec_show_content(b) == "BT /F1 12 Tf (".spec_bytes() + b + ") Tj ET".spec_bytes(),
        spec_font_name() == "F1".spec_bytes(),
{
    reveal_strlit("BT /F1 12 Tf (");
    reveal_strlit(") Tj ET");
    reveal_strlit("F1");
    is_ascii_spec_bytes("BT /F1 12 Tf (");
    is_ascii_spec_bytes(") Tj ET");
    is_ascii_spec_bytes("F1");
    assert("BT /F1 12 Tf (".spec_bytes() =~= seq![
        66u8,
        84u8,
        32u8,
        47u8,
        70u8,
        49u8,
        32u8,
        49u8,
        50u8,
        32u8,
        84u8,
        102u8,
        32u8,
        40u8,
    ]);
    assert(") Tj ET".spec_bytes() =~= seq![41u8, 32u8, 84u8, 106u8, 32u8, 69u8, 84u8]);
    assert("F1".spec_bytes() =~= seq![70u8, 49u8]);
}

proof fn lemma_content_bytes(b: Seq<u8>)
    ensures
        ({
            let c = spec_show_content(b);
            let n = b.len() as int;
            &&& c.len() == 21 + n
            &&& c[0] == 66 && c[1] == 84 && c[2] == 32 && c[3] == 47 && c[4] == 70 && c[5] == 49
            &&& c[6] == 32 && c[7] == 49 && c[8] == 50 && c[9] == 32 && c[10] == 84 && c[11]
                == 102
            &&& c[12] == 32 && c[13] == 40
            &&& c.subrange(14, 14 + n) == b
            &&& c[14 + n] == 41 && c[15 + n] == 32 && c[16 + n] == 84 && c[17 + n] == 106
            &&& c[18 + n] == 32 && c[19 + n] == 69 && c[20 + n] == 84
        }),
{
    let c = spec_show_content(b);
    let n = b.len() as int;
    assert(c.subrange(14, 14 + n) =~= b);
}

/// `m` with one more operand on its stack.
pub open spec fn spec_push(m: MachineView, o: Obj) -> MachineView {
    MachineView {
        stack: m.stack.push(o),
        state: m.state,
        font: m.font,
        font_id: m.font_id,
        saved: m.saved,
        events: m.events,
    }
}

/// At the end of the data the interpreter stops with the events it has.
proof fn lemma_run_at_the_end(c: Seq<u8>, m: MachineView, fonts: Seq<(Seq<u8>, Obj)>)
    ensures
        spec_run(c, c.len() as int, m, fonts) == m.events,
{
    lemma_no_token_at_the_end(c);
}

/// One step of the interpreter over an operator token.
proof fn lemma_run_over_operator(
    c: Seq<u8>,
    p: int,
    e: int,
    w: Seq<u8>,
    m: MachineView,
    fonts: Seq<(Seq<u8>, Obj)>,
)
    requires
        spec_next_token(c, p) == (TokenView::Operator(w), e),
        p < e <= c.len(),
        w != "BI".spec_bytes(),
    ensures
        spec_run(c, p, m, fonts) == spec_run(c, e, spec_apply_operator(m, w, fonts), fonts),
{
}

/// One step of the interpreter over an operand token.
proof fn lemma_run_over_operand(
    c: Seq<u8>,
    p: int,
    e: int,
    o: Obj,
    m: MachineView,
    fonts: Seq<(Seq<u8>, Obj)>,
)
    requires
        spec_next_token(c, p) == (TokenView::Operand(o), e),
        p < e <= c.len(),
    ensures
        spec_run(c, p, m, fonts) == spec_run(c, e, spec_push(m, o), fonts),
{
}

proof fn lemma_run_begin_text(b: Seq<u8>, m: MachineView, fonts: Seq<(Seq<u8>, Obj)>)
    ensures
        spec_run(spec_show_content(b), 0, m, fonts) == spec_run(
            spec_show_content(b),
            2,
            spec_begin_text(m),
            fonts,
        ),
{
    let c = spec_show_content(b);
    lemma_content_bytes(b);
    lemma_nothing_to_skip(c, 0);
    lemma_operator_of_two_letters(c, 0, 0);
    assert(c.subrange(0, 2) =~= seq![66u8, 84u8]);
    lemma_no_inline_image();
    lemma_run_over_operator(c, 0, 2, seq![66u8, 84u8], m, fonts);
    lemma_apply_begin_text(m, fonts);
}

proof fn lemma_run_font_name(b: Seq<u8>, m: MachineView, fonts: Seq<(Seq<u8>, Obj)>)
    ensures
        spec_run(spec_show_content(b), 2, m, fonts) == spec_run(
            spec_show_content(b),
            6,
            spec_push(m, Obj::Name(spec_font_name())),
            fonts,
        ),
{
    let c = spec_show_content(b);
    lemma_content_bytes(b);
    lemma_skip_one_space(c, 2);
    lemma_name_of_two_bytes(c, 2, 3);
    assert(seq![c[4], c[5]] =~= spec_font_name());
    lemma_run_over_operand(c, 2, 6, Obj::Name(spec_font_name()), m, fonts);
}

proof fn lemma_run_font_size(b: Seq<u8>, m: MachineView, fonts: Seq<(Seq<u8>, Obj)>)
    ensures
        spec_run(spec_show_content(b), 6, m, fonts) == spec_run(
            spec_show_content(b),
            9,
            spec_push(m, Obj::Integer(12)),
            fonts,
        ),
{
    let c = spec_show_content(b);
    lemma_content_bytes(b);
    lemma_skip_one_space(c, 6);
    lemma_integer_twelve(c, 6, 7);
    lemma_run_over_operand(c, 6, 9, Obj::Integer(12), m, fonts);
}

proof fn lemma_run_select_font(b: Seq<u8>, m: MachineView, fonts: Seq<(Seq<u8>, Obj)>)
    ensures
        spec_run(spec_show_content(b), 9, m, fonts) == spec_run(
            spec_show_content(b),
            12,
            spec_select_font(m, fonts),
            fonts,
        ),
{
    let c = spec_show_content(b);
    lemma_content_bytes(b);
    lemma_skip_one_space(c, 9);
    lemma_operator_of_two_letters(c, 9, 10);
    assert(c.subrange(10, 12) =~= seq![84u8, 102u8]);
    lemma_no_inline_image();
    lemma_run_over_operator(c, 9, 12, seq![84u8, 102u8], m, fonts);
    lemma_apply_select_font(m, fonts);
}

proof fn lemma_run_string(b: Seq<u8>, m: MachineView, fonts: Seq<(Seq<u8>, Obj)>)
    requires
        spec_plain(b),
    ensures
        spec_run(spec_show_content(b), 12, m, fonts) == spec_run(
            spec_show_content(b),
            15 + b.len() as int,
            spec_push(m, Obj::String(b)),
            fonts,
        ),
{
    let c = spec_show_content(b);
    let n = b.len() as int;
    lemma_content_bytes(b);
    lemma_skip_one_space(c, 12);
    lemma_string_token(c, 12, 13, 14 + n);
    lemma_run_over_operand(c, 12, 15 + n, Obj::String(b), m, fonts);
}

proof fn lemma_run_show(b: Seq<u8>, m: MachineView, fonts: Seq<(Seq<u8>, Obj)>)
    ensures
        spec_run(spec_show_content(b), 15 + b.len() as int, m, fonts) == spec_run(
            spec_show_content(b),
            18 + b.len() as int,
            spec_show(m, m.state, m.string(0), Seq::empty()),
            fonts,
        ),
{
    let c = spec_show_content(b);
    let n = b.len() as int;
    lemma_content_bytes(b);
    lemma_skip_one_space(c, 15 + n);
    lemma_operator_of_two_letters(c, 15 + n, 16 + n);
    assert(c.subrange(16 + n, 18 + n) =~= seq![84u8, 106u8]);
    lemma_no_inline_image();
    lemma_run_over_operator(c, 15 + n, 18 + n, seq![84u8, 106u8], m, fonts);
    lemma_apply_show(m, fonts);
}

proof fn lemma_run_end_text(b: Seq<u8>, m: MachineView, fonts: Seq<(Seq<u8>, Obj)>)
    ensures
        spec_run(spec_show_content(b), 18 + b.len() as int, m, fonts) == m.events,
{
    let c = spec_show_content(b);
    let n = b.len() as int;
    lemma_content_bytes(b);
    lemma_skip_one_space(c, 18 + n);
    lemma_operator_of_two_letters(c, 18 + n, 19 + n);
    assert(c.subrange(19 + n, 21 + n) =~= seq![69u8, 84u8]);
    lemma_no_inline_image();
    lemma_run_over_operator(c, 18 + n, 21 + n, seq![69u8, 84u8], m, fonts);
    lemma_apply_end_text(m, fonts);
    lemma_run_at_the_end(c, m.next(m.state), fonts);
}

/// The content stream gives one event: the string, as it stands between
/// the parentheses, shown in the font `F1`, with no word gap in it.
pub proof fn lemma_one_string_is_one_event(b: Seq<u8>, fonts: Seq<(Seq<u8>, Obj)>)
    requires
        spec_plain(b),
    ensures
        spec_run(spec_show_content(b), 0, spec_initial(), fonts).len() == 1,
        spec_run(spec_show_content(b), 0, spec_initial(), fonts)[0].font == spec_font_name(),
        spec_run(spec_show_content(b), 0, spec_initial(), fonts)[0].codes == b,
        spec_run(spec_show_content(b), 0, spec_initial(), fonts)[0].breaks == Seq::<usize>::empty(),
{
    let m0 = spec_initial();
    let m1 = spec_begin_text(m0);
    let m2 = spec_push(m1, Obj::Name(spec_font_name()));
    let m3 = spec_push(m2, Obj::Integer(12));
    let m4 = spec_select_font(m3, fonts);
    let m5 = spec_push(m4, Obj::String(b));
    let m6 = spec_show(m5, m5.state, m5.string(0), Seq::empty());
    lemma_run_begin_text(b, m0, fonts);
    lemma_run_font_name(b, m1, fonts);
    lemma_run_font_size(b, m2, fonts);
    lemma_run_select_font(b, m3, fonts);
    lemma_run_string(b, m4, fonts);
    lemma_run_show(b, m5, fonts);
    lemma_run_end_text(b, m6, fonts);
    assert(m3.stack.len() == 2);
    assert(m3.stack[0] == Obj::Name(spec_font_name()));
    assert(m3.operand(1) == Some(Obj::Name(spec_font_name())));
    assert(m4.font == spec_font_name());
    assert(m4.events =~= Seq::<TextEventView>::empty());
    assert(m4.stack =~= Seq::<Obj>::empty());
    assert(m5.stack.len() == 1);
    assert(m5.operand(0) == Some(Obj::String(b)));
    assert(m5.string(0) == b);
    assert(m6.events.len() == 1);
}

/// Every byte of `b` is a Latin letter.
pub open spec fn spec_letters(b: Seq<u8>) -> bool {
    forall|i: int| 0 <= i < b.len() ==> (65 <= #[trigger] b[i] <= 90) || (97 <= b[i] <= 122)
}

/// The bytes of `b` as code points.
pub open spec fn spec_code_points(b: Seq<u8>) -> Seq<u32> {
    Seq::new(b.len(), |i: int| b[i] as u32)
}

/// The bytes of `b` as characters.
pub open spec fn spec_characters(b: Seq<u8>) -> Seq<char> {
    Seq::new(b.len(), |i: int| b[i] as char)
}

/// The font has codes of one byte, the standard encoding, and no
/// character map.
pub open spec fn spec_is_standard_font(font: FontView) -> bool {
    &&& !font.composite
    &&& font.simple == spec_base_table(BaseEncoding::Standard)
    &&& font.map.ranges.len() == 0
}

/// The standard encoding gives every Latin letter its own code point.
pub proof fn lemma_standard_letters(c: u8)
    requires
        (65 <= c <= 90) || (97 <= c <= 122),
    ensures
        spec_base_scalar(BaseEncoding::Standard, c as int) == c as u32,
{
}

/// In a font with the standard encoding, Latin letters stand for
/// themselves.
pub proof fn lemma_letters_decode_to_themselves(font: FontView, b: Seq<u8>, i: int, acc: Seq<u32>)
    requires
        spec_is_standard_font(font),
        spec_letters(b),
        0 <= i <= b.len(),
    ensures
        spec_decode_codes(font, b, i, acc) == acc + spec_code_points(b).subrange(
            i,
            b.len() as int,
        ),
    decreases b.len() - i,
{
    if i == b.len() {
        assert(acc + spec_code_points(b).subrange(i, b.len() as int) =~= acc);
    } else {
        let c = b[i];
        lemma_standard_letters(c);
        assert(b.subrange(i, i + 1).len() == 1);
        assert(b.subrange(i, i + 1)[0] == c);
        assert(spec_code_of(b.subrange(i, i + 1)) == Some(c as u32));
        assert(font.simple[c as int] == spec_base_scalar(BaseEncoding::Standard, c as int));
        assert(spec_lookup(font, 1, c as u32) == seq![c as u32]);
        lemma_letters_decode_to_themselves(font, b, i + 1, acc + seq![c as u32]);
        assert(acc + seq![c as u32] + spec_code_points(b).subrange(i + 1, b.len() as int) =~= acc
            + spec_code_points(b).subrange(i, b.len() as int));
    }
}

/// The code points of Latin letters are characters.
pub proof fn lemma_letters_are_characters(b: Seq<u8>, i: int, acc: Seq<char>)
    requires
        spec_letters(b),
        0 <= i <= b.len(),
    ensures
        spec_chars(spec_code_points(b), i, acc) == acc + spec_characters(b).subrange(
            i,
            b.len() as int,
        ),
    decreases b.len() - i,
{
    let t = spec_code_points(b);
    if i == b.len() {
        assert(acc + spec_characters(b).subrange(i, b.len() as int) =~= acc);
    } else {
        assert(t[i] == b[i] as u32);
        assert(spec_is_scalar(t[i]));
        assert((b[i] as u32) as char == b[i] as char);
        lemma_letters_are_characters(b, i + 1, acc.push(b[i] as char));
        assert(acc.push(b[i] as char) + spec_characters(b).subrange(i + 1, b.len() as int) =~= acc
            + spec_characters(b).subrange(i, b.len() as int));
    }
}

/// A page with a single run has the text of that run.
pub proof fn lemma_single_run(r: TextRunView)
    ensures
        spec_flatten(seq![r], 0, None, Seq::empty()) == r.text,
{
    reveal_with_fuel(spec_flatten, 2);
    assert(seq![r][0] == r);
    if r.text.len() == 0 {
        assert(r.text =~= Seq::<u32>::empty());
    } else {
        assert(Seq::<u32>::empty() + r.text =~= r.text);
    }
}

/// The font resources hold under `name` a font dictionary, directly or
/// behind a reference, that names no encoding and no character map and is
/// no composite font: a font with the standard encoding.
pub open spec fn spec_plain_font(
    s: Seq<u8>,
    table: Map<u32, Locator>,
    fonts: Seq<(Seq<u8>, Obj)>,
    name: Seq<u8>,
) -> bool {
    &&& spec_dict_get(fonts, name) is Some
    &&& spec_deref(s, table, spec_dict_get(fonts, name)->Some_0) is Ok
    &&& spec_deref(s, table, spec_dict_get(fonts, name)->Some_0)->Ok_0.entries() is Some
    &&& ({
        let d = spec_deref(s, table, spec_dict_get(fonts, name)->Some_0)->Ok_0.entries()->Some_0;
        &&& spec_dict_get(d, "ToUnicode".spec_bytes()) is None
        &&& spec_dict_get(d, "Encoding".spec_bytes()) is None
        &&& !spec_is_composite(d)
    })
}

/// A font dictionary that names no encoding and no character map gives a
/// font with the standard encoding.
pub proof fn lemma_plain_font_is_standard(
    s: Seq<u8>,
    table: Map<u32, Locator>,
    fonts: Seq<(Seq<u8>, Obj)>,
    name: Seq<u8>,
)
    requires
        spec_plain_font(s, table, fonts, name),
    ensures
        spec_is_standard_font(spec_named_font(s, table, fonts, name)),
{
}

/// The content stream `BT /F1 12 Tf (b) Tj ET`, with `F1` a font with the
/// standard encoding and `b` Latin letters, has the text `b`.
pub proof fn lemma_content_that_shows_one_string(
    s: Seq<u8>,
    table: Map<u32, Locator>,
    fonts: Seq<(Seq<u8>, Obj)>,
    b: Seq<u8>,
)
    requires
        spec_letters(b),
        spec_is_standard_font(spec_named_font(s, table, fonts, spec_font_name())),
    ensures
        spec_content_text(s, table, spec_show_content(b), fonts) == spec_code_points(b),
{
    assert(spec_plain(b));
    lemma_one_string_is_one_event(b, fonts);
    let events = spec_run(spec_show_content(b), 0, spec_initial(), fonts);
    let font = spec_named_font(s, table, fonts, spec_font_name());
    let run = spec_event_run(s, table, fonts, events[0]);
    let runs = spec_page_runs(s, table, fonts, events);
    assert(runs =~= seq![run]);
    assert(b.subrange(0, b.len() as int) =~= b);
    lemma_letters_decode_to_themselves(font, b, 0, Seq::empty());
    assert(Seq::<u32>::empty() + spec_code_points(b).subrange(0, b.len() as int)
        =~= spec_code_points(b));
    assert(spec_pieces(font, b, Seq::empty(), 0, 0, Seq::empty()) == spec_code_points(b));
    lemma_single_run(run);
}

/// A document of one page whose content stream is `BT /F1 12 Tf (b) Tj ET`
/// without a filter, with `F1` a font with the standard encoding and `b`
/// Latin letters, has exactly the text `b`: nothing before it, nothing
/// after it, nothing left out.
pub proof fn lemma_document_that_shows_one_string(
    s: Seq<u8>,
    k: Obj,
    sd: Seq<(Seq<u8>, Obj)>,
    b: Seq<u8>,
)
    requires
        spec_has_pages(s, seq![k]),
        spec_child_has_stream(s, k, sd, spec_show_content(b)),
        spec_dict_get(sd, "Filter".spec_bytes()) is None,
        spec_letters(b),
        spec_plain_font(s, spec_table(s), spec_child_fonts(s, k), spec_font_name()),
    ensures
        spec_extract_text(s) == Ok::<_, ExtractError>(spec_characters(b)),
{
    let fonts = spec_child_fonts(s, k);
    lemma_plain_font_is_standard(s, spec_table(s), fonts, spec_font_name());
    lemma_content_that_shows_one_string(s, spec_table(s), fonts, b);
    lemma_one_page_unfiltered(s, k, sd, spec_show_content(b));
    lemma_letters_are_characters(b, 0, Seq::empty());
    assert(Seq::<char>::empty() + spec_characters(b).subrange(0, b.len() as int)
        =~= spec_characters(b));
}

/// The page `k` shows the Latin letters `b` with a font that has the
/// standard encoding: what its content is turned into is `b`.
proof fn lemma_page_shows_letters(s: Seq<u8>, k: Obj, b: Seq<u8>)
    requires
        spec_letters(b),
        spec_plain_font(s, spec_table(s), spec_child_fonts(s, k), spec_font_name()),
    ensures
        spec_chars(
            spec_content_text(s, spec_table(s), spec_show_content(b), spec_child_fonts(s, k)),
            0,
            Seq::empty(),
        ) == spec_characters(b),
{
    let fonts = spec_child_fonts(s, k);
    lemma_plain_font_is_standard(s, spec_table(s), fonts, spec_font_name());
    lemma_content_that_shows_one_string(s, spec_table(s), fonts, b);
    lemma_letters_are_characters(b, 0, Seq::empty());
    assert(Seq::<char>::empty() + spec_characters(b).subrange(0, b.len() as int)
        =~= spec_characters(b));
}

/// A document of one page whose content stream holds what the encoder of
/// its single filter wrote for `BT /F1 12 Tf (b) Tj ET` has the text `b`,
/// the same as the document that holds the content without a filter.
pub proof fn lemma_filtered_document_shows_the_string(
    s: Seq<u8>,
    k: Obj,
    sd: Seq<(Seq<u8>, Obj)>,
    raw: Seq<u8>,
    b: Seq<u8>,
)
    requires
        spec_has_pages(s, seq![k]),
        spec_child_has_stream(s, k, sd, raw),
        spec_encoded_with(sd, raw, spec_show_content(b)),
        spec_letters(b),
        spec_plain_font(s, spec_table(s), spec_child_fonts(s, k), spec_font_name()),
    ensures
        spec_extract_text(s) == Ok::<_, ExtractError>(spec_characters(b)),
{
    lemma_one_page_through_one_filter(s, k, sd, raw, spec_show_content(b));
    lemma_page_shows_letters(s, k, b);
}

/// A document of two pages, one of which shows `b` and the other of which
/// has a content stream with a filter that is not implemented, has the
/// text `b`, whichever page comes first.
pub proof fn lemma_document_with_one_unreadable_page(
    s: Seq<u8>,
    first: Obj,
    second: Obj,
    good: Obj,
    bad: Obj,
    gd: Seq<(Seq<u8>, Obj)>,
    b: Seq<u8>,
    bd: Seq<(Seq<u8>, Obj)>,
    raw: Seq<u8>,
)
    requires
        spec_has_pages(s, seq![first, second]),
        (good == first && bad == second) || (good == second && bad == first),
        spec_child_has_stream(s, good, gd, spec_show_content(b)),
        spec_dict_get(gd, "Filter".spec_bytes()) is None,
        spec_letters(b),
        spec_plain_font(s, spec_table(s), spec_child_fonts(s, good), spec_font_name()),
        spec_child_has_stream(s, bad, bd, raw),
        spec_unknown_filter(bd),
    ensures
        spec_extract_text(s) == Ok::<_, ExtractError>(spec_characters(b)),
{
    lemma_page_with_unknown_filter_is_left_out(
        s,
        first,
        second,
        good,
        bad,
        gd,
        spec_show_content(b),
        bd,
        raw,
    );
    lemma_page_shows_letters(s, good, b);
}

/// A document of one page whose content is object `n`, where the newest
/// section of the document has an entry for `n` and the object at that
/// entry shows `b`, has the text `b`, whatever the sections before say of
/// object `n`.
pub proof fn lemma_updated_content_is_shown(
    s: Seq<u8>,
    newest: (Seq<XrefEntry>, Option<ObjectId>, Option<usize>),
    j: int,
    off: usize,
    k: Obj,
    generation: int,
    sd: Seq<(Seq<u8>, Obj)>,
    b: Seq<u8>,
)
    requires
        spec_newest_section(s, newest),
        0 <= j < newest.0.len(),
        forall|i: int| 0 <= i < j ==> newest.0[i].number != newest.0[j].number,
        newest.0[j].locator == Locator::Offset(off),
        spec_fetch_offset(s, spec_table(s), off as int) == Ok::<_, ExtractError>(
            Obj::Stream(sd, spec_show_content(b)),
        ),
        spec_has_pages(s, seq![k]),
        spec_child_is_leaf(s, k),
        spec_dict_get(spec_child_entries(s, k), "Contents".spec_bytes()) == Some(
            Obj::Reference(newest.0[j].number as int, generation),
        ),
        spec_dict_get(sd, "Filter".spec_bytes()) is None,
        spec_letters(b),
        spec_plain_font(s, spec_table(s), spec_child_fonts(s, k), spec_font_name()),
    ensures
        spec_extract_text(s) == Ok::<_, ExtractError>(spec_characters(b)),
{
    let n = newest.0[j].number;
    lemma_document_fetches_the_newest(s, newest, j);
    assert(spec_fetch(s, spec_table(s), n) == Ok::<_, ExtractError>(
        Obj::Stream(sd, spec_show_content(b)),
    ));
    assert(spec_resolve(s, spec_table(s), n, MAX_REFERENCE_DEPTH as nat) == Ok::<
        _,
        ExtractError,
    >(Obj::Stream(sd, spec_show_content(b))));
    assert(spec_child_has_stream(s, k, sd, spec_show_content(b)));
    lemma_document_that_shows_one_string(s, k, sd, b);
}

} // verus!
