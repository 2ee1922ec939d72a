use pdf_text::content::{apply_operator, run, skipped, Machine, TextEvent};
use pdf_text::geometry::{
    clamp, compose, fixed_add, fixed_mul, identity, translation, Matrix, FIXED_LIMIT,
};
use pdf_text::object::{parse_value, DictEntry, PdfObject};
use pdf_text::text::{to_string, ExtractedPage, TextRun};
use pdf_text::xref::ObjectId;

fn fonts() -> Vec<DictEntry> {
    match parse_value(b"<< /F1 8 0 R /F2 << /Subtype /Type1 >> >>", 0, 8).unwrap().0 {
        PdfObject::Dictionary(d) => d,
        _ => unreachable!(),
    }
}

fn event(font: &str, id: Option<u32>, codes: &str, x: i64, y: i64, size: i64) -> TextEvent {
    TextEvent {
        font: font.as_bytes().to_vec(),
        font_id: id.map(|n| ObjectId { number: n, generation: 0 }),
        codes: codes.as_bytes().to_vec(),
        breaks: Vec::new(),
        x,
        y,
        size,
    }
}

fn text_run(text: &str, x: i64, y: i64, size: i64, width: i64) -> TextRun {
    TextRun { text: text.chars().map(|c| c as u32).collect(), x, y, size, width }
}

fn flat(runs: Vec<TextRun>) -> String {
    to_string(&ExtractedPage { runs }.flatten())
}

#[test]
fn fixed_point_arithmetic() {
    assert_eq!(fixed_mul(1500, 2000), 3000);
    assert_eq!(fixed_mul(-1500, 2000), -3000);
    assert_eq!(fixed_mul(-1500, -2000), 3000);
    assert_eq!(fixed_mul(1, 999), 0);
    assert_eq!(fixed_mul(-1, 999), 0);
    assert_eq!(fixed_mul(333, 3000), 999);
    assert_eq!(fixed_add(1, 2), 3);
    assert_eq!(clamp(5), 5);
}

#[test]
fn fixed_point_results_saturate() {
    assert_eq!(clamp(i128::MAX), FIXED_LIMIT);
    assert_eq!(clamp(i128::MIN), -FIXED_LIMIT);
    assert_eq!(fixed_add(FIXED_LIMIT, FIXED_LIMIT), FIXED_LIMIT);
    assert_eq!(fixed_add(i64::MIN, i64::MIN), -FIXED_LIMIT);
    assert_eq!(fixed_mul(i64::MAX, i64::MAX), FIXED_LIMIT);
    assert_eq!(fixed_mul(i64::MIN, i64::MAX), -FIXED_LIMIT);
    assert_eq!(fixed_mul(i64::MIN, 1000), -FIXED_LIMIT);
}

#[test]
fn matrices_compose_left_to_right() {
    let scale = Matrix { a: 2000, b: 0, c: 0, d: 3000, e: 0, f: 0 };
    let shift = translation(10_000, 20_000);
    assert_eq!(compose(identity(), shift), shift);
    assert_eq!(compose(shift, identity()), shift);
    assert_eq!(compose(shift, scale), Matrix { a: 2000, b: 0, c: 0, d: 3000, e: 20_000, f: 60_000 });
    assert_eq!(compose(scale, shift), Matrix { a: 2000, b: 0, c: 0, d: 3000, e: 10_000, f: 20_000 });
    let turn = Matrix { a: 0, b: 1000, c: -1000, d: 0, e: 0, f: 0 };
    assert_eq!(compose(shift, turn), Matrix { a: 0, b: 1000, c: -1000, d: 0, e: -20_000, f: 10_000 });
}

#[test]
fn show_operators_give_one_event_each() {
    let events = run(
        b"BT /F1 12 Tf 72 700 Td (ab) Tj 0 -14 Td [(c) 5 (d)] TJ 14 TL (e) ' 1 2 (f) \" ET",
        &fonts(),
    );
    assert_eq!(
        events,
        vec![
            event("F1", Some(8), "ab", 72_000, 700_000, 12_000),
            event("F1", Some(8), "cd", 72_000, 686_000, 12_000),
            event("F1", Some(8), "e", 72_000, 672_000, 12_000),
            event("F1", Some(8), "f", 72_000, 658_000, 12_000),
        ]
    );
}

#[test]
fn text_matrix_moves_on_by_the_estimated_width() {
    let events = run(b"BT /F2 10 Tf 100 100 Td (abcd) Tj (e) Tj T* () Tj ET", &fonts());
    assert_eq!(
        events,
        vec![
            event("F2", None, "abcd", 100_000, 100_000, 10_000),
            event("F2", None, "e", 120_000, 100_000, 10_000),
            event("F2", None, "", 100_000, 100_000, 10_000),
        ]
    );
}

#[test]
fn matrices_place_and_scale_the_text() {
    let events = run(
        b"q 2 0 0 2 10 20 cm BT /F1 1 Tf 12 0 0 12 5 6 Tm (x) Tj ET Q BT /F1 8 Tf 1 1 Td (y) Tj ET",
        &fonts(),
    );
    assert_eq!(
        events,
        vec![
            event("F1", Some(8), "x", 20_000, 32_000, 24_000),
            event("F1", Some(8), "y", 1_000, 1_000, 8_000),
        ]
    );
}

#[test]
fn leading_is_set_by_both_operators() {
    let events = run(b"BT 5 TL T* (a) Tj 0 -7 TD T* (b) Tj ET", &fonts());
    assert_eq!(
        events,
        vec![event("", None, "a", 0, -5_000, 0), event("", None, "b", 0, -19_000, 0)]
    );
}

#[test]
fn operands_that_are_missing_count_as_nothing() {
    let events = run(b"Tj Td Tm Tf TJ cm Q (late) /F9 Tf 3 (x) Tj", &fonts());
    assert_eq!(
        events,
        vec![
            event("", None, "", 0, 0, 0),
            event("", None, "", 0, 0, 0),
            event("", None, "x", 0, 0, 0),
        ]
    );
}

#[test]
fn operators_work_on_a_machine() {
    let mut m = Machine::new();
    m.stack.push(PdfObject::Name(b"F2".to_vec()));
    m.stack.push(PdfObject::Real(9500));
    apply_operator(&mut m, b"Tf", &fonts());
    assert!(m.stack.is_empty());
    assert_eq!(m.font, b"F2".to_vec());
    assert_eq!(m.font_id, None);
    assert_eq!(m.state.size, 9500);
    m.stack.push(PdfObject::Integer(3));
    apply_operator(&mut m, b"q", &fonts());
    assert!(m.stack.is_empty());
    assert_eq!(m.saved, vec![identity()]);
    m.stack.push(PdfObject::Integer(3));
    apply_operator(&mut m, b"re", &fonts());
    assert!(m.stack.is_empty());
    assert!(m.events.is_empty());
}

#[test]
fn runs_on_one_line_are_joined() {
    assert_eq!(flat(vec![]), "");
    assert_eq!(flat(vec![text_run("ab", 0, 0, 10_000, 10_000)]), "ab");
    assert_eq!(
        flat(vec![text_run("ab", 0, 0, 10_000, 10_000), text_run("cd", 10_000, 0, 10_000, 10_000)]),
        "abcd"
    );
    assert_eq!(
        flat(vec![text_run("ab", 0, 0, 10_000, 10_000), text_run("cd", 12_500, 0, 10_000, 10_000)]),
        "abcd"
    );
    assert_eq!(
        flat(vec![text_run("ab", 0, 0, 10_000, 10_000), text_run("cd", 12_501, 0, 10_000, 10_000)]),
        "ab cd"
    );
    assert_eq!(
        flat(vec![text_run("ab", 0, 0, 10_000, 10_000), text_run("cd", 7_499, 0, 10_000, 10_000)]),
        "ab cd"
    );
}

#[test]
fn no_space_is_added_to_a_space() {
    assert_eq!(
        flat(vec![text_run("ab ", 0, 0, 10_000, 15_000), text_run("cd", 50_000, 0, 10_000, 10_000)]),
        "ab cd"
    );
    assert_eq!(
        flat(vec![text_run("ab", 0, 0, 10_000, 10_000), text_run(" cd", 50_000, 0, 10_000, 10_000)]),
        "ab cd"
    );
}

#[test]
fn a_drop_of_more_than_the_font_size_starts_a_line() {
    assert_eq!(
        flat(vec![text_run("ab", 0, 100_000, 10_000, 10_000), text_run("cd", 0, 89_999, 10_000, 10_000)]),
        "ab\ncd"
    );
    assert_eq!(
        flat(vec![text_run("ab", 0, 100_000, 10_000, 10_000), text_run("cd", 0, 90_000, 10_000, 10_000)]),
        "ab cd"
    );
    assert_eq!(
        flat(vec![text_run("ab", 0, 100_000, 10_000, 10_000), text_run("cd", 10_000, 200_000, 10_000, 10_000)]),
        "abcd"
    );
}

#[test]
fn runs_without_text_are_passed_over() {
    assert_eq!(
        flat(vec![
            text_run("", 0, 500_000, 10_000, 0),
            text_run("ab", 0, 100_000, 10_000, 10_000),
            text_run("", 90_000, 0, 10_000, 0),
            text_run("cd", 10_000, 100_000, 10_000, 10_000),
        ]),
        "abcd"
    );
}

#[test]
fn code_points_that_are_no_characters_are_left_out() {
    assert_eq!(to_string(&vec![0x48, 0xd800, 0x69, 0xdfff, 0x110000, 0x1f600, 0, 0xffff_ffff]), "Hi\u{1f600}\u{0}");
    assert_eq!(to_string(&vec![0xd7ff, 0xe000, 0x10ffff]), "\u{d7ff}\u{e000}\u{10ffff}");
    assert_eq!(to_string(&vec![]), "");
}

#[test]
fn spacing_operators_set_the_state() {
    let mut m = Machine::new();
    m.stack.push(PdfObject::Real(250));
    apply_operator(&mut m, b"Tc", &fonts());
    m.stack.push(PdfObject::Integer(2));
    apply_operator(&mut m, b"Tw", &fonts());
    assert_eq!((m.state.char_spacing, m.state.word_spacing), (250, 2000));
    assert!(m.stack.is_empty());
    m.stack.push(PdfObject::Integer(5));
    m.stack.push(PdfObject::Integer(6));
    m.stack.push(PdfObject::String(b"s".to_vec()));
    apply_operator(&mut m, b"\"", &fonts());
    assert_eq!((m.state.char_spacing, m.state.word_spacing), (6000, 5000));
    assert_eq!(m.events, vec![event("", None, "s", 0, 0, 0)]);
    apply_operator(&mut m, b"'", &fonts());
    assert_eq!((m.state.char_spacing, m.state.word_spacing), (6000, 5000));
    assert_eq!(m.events.len(), 2);
}

#[test]
fn wide_adjustments_in_an_array_are_word_gaps() {
    let events = run(
        b"BT /F1 10 Tf [-500 (ab) -180 (cd) -181 (ef) -300 -400 (g) 250 (h) -180.5 () -999 (i)] TJ ET",
        &fonts(),
    );
    assert_eq!(events.len(), 1);
    assert_eq!(events[0].codes, b"abcdefghi".to_vec());
    assert_eq!(events[0].breaks, vec![4, 6, 8]);
    let events = run(b"BT [(ab) -500] TJ (cd) Tj [-500] TJ [] TJ ET", &fonts());
    assert_eq!(events.len(), 4);
    assert_eq!(events[0].breaks, vec![2]);
    assert!(events[1].breaks.is_empty());
    assert!(events[2].breaks.is_empty());
    assert!(events[3].codes.is_empty());
}

#[test]
fn tokens_that_mean_nothing_are_counted() {
    assert_eq!(skipped(b""), 0);
    assert_eq!(skipped(b"q 1 0 0 1 0 0 cm BT /F1 9 Tf (a) Tj [(b)] TJ T* (c) ' 1 2 (d) \" ET Q"), 0);
    assert_eq!(skipped(b"0 0 m 1 1 l S f* B* W* n 0.5 g /Im1 Do /P <</M 1>> BDC EMC"), 0);
    assert_eq!(skipped(b") (a) Tj"), 1);
    assert_eq!(skipped(b"(a) Tx tj BTT"), 3);
    assert_eq!(skipped(b"[1 2 > >"), 3);
    assert_eq!(skipped(b"BI /W 1 ID )))) xx EI (a) Tj"), 0);
    assert_eq!(skipped(b"BI /W 1 ID )))) xx"), 0);
    assert_eq!(skipped(b"true null 12 (s) /N [1] <<>>"), 0);
}
