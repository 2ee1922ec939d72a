use pdf_text::error::ExtractError;
use pdf_text::object::PdfObject;
use pdf_text::resolve::{deref, fetch, resolve, Resolved, MAX_REFERENCE_DEPTH};
use pdf_text::table::{build, merge, startxref, XrefTable};
use pdf_text::xref::{
    keyword, object_header, parse_section, token_integer, trailer_info, Locator, ObjectId,
    XrefEntry,
};
use std::collections::HashMap;

fn id(number: u32) -> ObjectId {
    ObjectId { number, generation: 0 }
}

fn table_of(entries: &[(u32, Locator)]) -> XrefTable {
    let mut map = HashMap::new();
    for (n, l) in entries {
        map.insert(*n, *l);
    }
    XrefTable { map, root: id(1) }
}

#[test]
fn tokens_of_the_table_syntax() {
    assert_eq!(token_integer(b"  42 x", 0), Some((42, 4)));
    assert_eq!(token_integer(b"  4.2 x", 0), None);
    assert_eq!(token_integer(b"  x", 0), None);
    assert_eq!(keyword(b" xref\n", 0, "xref"), Some(5));
    assert_eq!(keyword(b" xrefs\n", 0, "xref"), None);
    assert_eq!(keyword(b"", 0, "xref"), None);
    assert_eq!(object_header(b"12 3 obj<<", 0), Some((ObjectId { number: 12, generation: 3 }, 8)));
    assert_eq!(object_header(b"12 3 objx", 0), None);
    assert_eq!(object_header(b"12 70000 obj", 0), None);
    assert_eq!(object_header(b"-1 0 obj", 0), None);
}

#[test]
fn classic_section_is_read() {
    let data = b"xref\n0 2\n0000000000 65535 f \n0000000017 00000 n \n5 1\n0000000099 00000 n \ntrailer\n<< /Size 6 /Root 1 0 R /Prev 1234 >>\n";
    let sec = parse_section(data, 0).unwrap();
    assert_eq!(
        sec.entries,
        vec![
            XrefEntry { number: 0, locator: Locator::Free },
            XrefEntry { number: 1, locator: Locator::Offset(17) },
            XrefEntry { number: 5, locator: Locator::Offset(99) },
        ]
    );
    assert_eq!(sec.root, Some(id(1)));
    assert_eq!(sec.prev, Some(1234));
}

#[test]
fn broken_sections_are_refused() {
    assert_eq!(parse_section(b"xref\n0 2\n0000000000 65535 f \ntrailer\n<< >>", 0), None);
    assert_eq!(parse_section(b"xref\n0 1\n0000000000 65535 x \ntrailer\n<< >>", 0), None);
    assert_eq!(parse_section(b"xref\n0 1\n0000000000 65535 f \n", 0), None);
    assert_eq!(parse_section(b"xref\n0 1\n0000000000 65535 f \ntrailer\n[1]", 0), None);
    assert_eq!(parse_section(b"xref", 5), None);
    assert_eq!(parse_section(b"1 0 obj\n<< /Type /Catalog >>\nendobj", 0), None);
}

#[test]
fn stream_section_is_read() {
    let mut data = b"9 0 obj\n<< /Type /XRef /W [1 2 1] /Index [3 2 10 1] /Root 2 0 R /Length 12 >>\nstream\n".to_vec();
    data.extend_from_slice(&[1, 0x01, 0x02, 0, 2, 0, 7, 3, 0, 0, 0, 9]);
    data.extend_from_slice(b"\nendstream\nendobj\n");
    let sec = parse_section(&data, 0).unwrap();
    assert_eq!(
        sec.entries,
        vec![
            XrefEntry { number: 3, locator: Locator::Offset(0x0102) },
            XrefEntry { number: 4, locator: Locator::Compressed(7, 3) },
            XrefEntry { number: 10, locator: Locator::Free },
        ]
    );
    assert_eq!(sec.root, Some(id(2)));
    assert_eq!(sec.prev, None);
}

#[test]
fn trailer_entries() {
    let (d, _) = pdf_text::object::parse_value(b"<< /Root 7 2 R /Prev 55 >>", 0, 8).unwrap();
    assert_eq!(
        trailer_info(d.as_dict().unwrap()),
        (Some(ObjectId { number: 7, generation: 2 }), Some(55))
    );
    let (d, _) = pdf_text::object::parse_value(b"<< /Root 7 /Prev -5 >>", 0, 8).unwrap();
    assert_eq!(trailer_info(d.as_dict().unwrap()), (None, None));
}

#[test]
fn newer_entries_win_in_a_merge() {
    let mut map = HashMap::new();
    map.insert(4u32, Locator::Offset(900));
    map.insert(6u32, Locator::Free);
    let older = vec![
        XrefEntry { number: 3, locator: Locator::Offset(30) },
        XrefEntry { number: 4, locator: Locator::Offset(40) },
        XrefEntry { number: 6, locator: Locator::Offset(60) },
        XrefEntry { number: 3, locator: Locator::Offset(31) },
    ];
    merge(&mut map, &older);
    assert_eq!(map.len(), 3);
    assert_eq!(map[&4], Locator::Offset(900));
    assert_eq!(map[&6], Locator::Free);
    assert_eq!(map[&3], Locator::Offset(30));
}

#[test]
fn startxref_is_the_last_in_the_tail() {
    assert_eq!(startxref(b"startxref\n5\n%%EOF startxref\n12\n%%EOF\n      "), Some(12));
    assert_eq!(startxref(b"startxref\n12"), Some(12));
    assert_eq!(startxref(b"startxref\n13"), None);
    assert_eq!(startxref(b"startxref\nabc\n%%EOF"), None);
    assert_eq!(startxref(b"startxre"), None);
    let mut far = b"startxref\n3\n".to_vec();
    far.extend(std::iter::repeat(b' ').take(2000));
    assert_eq!(startxref(&far), None);
}

#[test]
fn build_reads_sections_newest_first() {
    let mut doc = b"%PDF-1.4\n".to_vec();
    let a1 = doc.len();
    doc.extend_from_slice(b"1 0 obj\n<< /Type /Catalog >>\nendobj\n");
    let a2 = doc.len();
    doc.extend_from_slice(b"2 0 obj\n(old)\nendobj\n");
    let x1 = doc.len();
    doc.extend_from_slice(
        format!("xref\n0 3\n0000000000 65535 f \n{:010} 00000 n \n{:010} 00000 n \ntrailer\n<< /Root 1 0 R >>\nstartxref\n{}\n%%EOF\n", a1, a2, x1).as_bytes(),
    );
    let b2 = doc.len();
    doc.extend_from_slice(b"2 0 obj\n(new)\nendobj\n");
    let x2 = doc.len();
    doc.extend_from_slice(
        format!("xref\n2 1\n{:010} 00000 n \ntrailer\n<< /Root 1 0 R /Prev {} >>\nstartxref\n{}\n%%EOF\n", b2, x1, x2).as_bytes(),
    );
    let table = build(&doc).unwrap();
    assert_eq!(table.root, id(1));
    assert_eq!(table.locate(1), Some(Locator::Offset(a1)));
    assert_eq!(table.locate(2), Some(Locator::Offset(b2)));
    assert_eq!(table.locate(0), Some(Locator::Free));
    assert_eq!(table.locate(3), None);
    assert_eq!(resolve(id(2), &table, &doc), Ok(PdfObject::String(b"new".to_vec())));
}

#[test]
fn build_scans_where_no_section_can_be_read() {
    let doc = b"1 0 obj\n(first)\nendobj\n2 0 obj\n<< /Type /Catalog >>\nendobj\n1 0 obj\n(second)\nendobj\n";
    let table = build(doc).unwrap();
    assert_eq!(table.root, id(2));
    assert_eq!(table.locate(1), Some(Locator::Offset(59)));
    assert_eq!(table.locate(2), Some(Locator::Offset(23)));
    assert_eq!(resolve(id(1), &table, doc), Ok(PdfObject::String(b"second".to_vec())));
    let doc = b"5 0 obj\n(x)\nendobj\ntrailer\n<< /Root 5 0 R >>\n";
    assert_eq!(build(doc).unwrap().root, id(5));
    assert_eq!(build(b"5 0 obj\n(x)\nendobj\n").err(), Some(ExtractError::XrefError));
}

#[test]
fn missing_and_free_objects_are_null() {
    let table = table_of(&[(3, Locator::Free)]);
    assert_eq!(fetch(3, &table, b""), Ok(PdfObject::Null));
    assert_eq!(fetch(4, &table, b""), Ok(PdfObject::Null));
    assert_eq!(resolve(id(4), &table, b""), Ok(PdfObject::Null));
}

#[test]
fn offsets_that_lead_nowhere_are_errors() {
    let table = table_of(&[(1, Locator::Offset(100)), (2, Locator::Offset(0)), (3, Locator::Offset(8))]);
    let data = b"nothing 3 0 obj )";
    assert_eq!(fetch(1, &table, data), Err(ExtractError::TruncatedInput));
    assert_eq!(fetch(2, &table, data), Err(ExtractError::MalformedObject));
    assert_eq!(fetch(3, &table, data), Err(ExtractError::MalformedObject));
}

#[test]
fn object_that_refers_to_itself_is_a_cycle() {
    let data = b"1 0 obj\n1 0 R\nendobj\n";
    let table = table_of(&[(1, Locator::Offset(0))]);
    assert_eq!(fetch(1, &table, data), Ok(PdfObject::Reference(1, 0)));
    assert_eq!(resolve(id(1), &table, data), Err(ExtractError::ReferenceCycle));
    assert!(matches!(
        deref(&PdfObject::Reference(1, 0), &table, data),
        Err(ExtractError::ReferenceCycle)
    ));
}

#[test]
fn two_objects_that_refer_to_each_other_are_a_cycle() {
    let data = b"1 0 obj 2 0 R endobj 2 0 obj 1 0 R endobj";
    let table = table_of(&[(1, Locator::Offset(0)), (2, Locator::Offset(21))]);
    assert_eq!(resolve(id(1), &table, data), Err(ExtractError::ReferenceCycle));
    assert_eq!(resolve(id(2), &table, data), Err(ExtractError::ReferenceCycle));
}

/// Objects 1 to `links` refer each to the next; the one after them is an
/// integer.
fn chain(links: usize) -> (Vec<u8>, XrefTable) {
    let mut data = Vec::new();
    let mut entries = Vec::new();
    for n in 1..=links {
        entries.push((n as u32, Locator::Offset(data.len())));
        data.extend_from_slice(format!("{} 0 obj {} 0 R endobj\n", n, n + 1).as_bytes());
    }
    entries.push((links as u32 + 1, Locator::Offset(data.len())));
    data.extend_from_slice(format!("{} 0 obj 77 endobj\n", links + 1).as_bytes());
    (data, table_of(&entries))
}

#[test]
fn chains_are_followed_up_to_the_bound() {
    let (data, table) = chain(MAX_REFERENCE_DEPTH);
    assert_eq!(resolve(id(1), &table, &data), Ok(PdfObject::Integer(77)));
    let (data, table) = chain(MAX_REFERENCE_DEPTH + 1);
    assert_eq!(resolve(id(1), &table, &data), Err(ExtractError::ReferenceCycle));
    assert_eq!(resolve(id(2), &table, &data), Ok(PdfObject::Integer(77)));
    let (data, table) = chain(200);
    assert_eq!(resolve(id(1), &table, &data), Err(ExtractError::ReferenceCycle));
}

#[test]
fn deref_leaves_direct_objects_alone() {
    let table = table_of(&[]);
    let o = PdfObject::Integer(5);
    match deref(&o, &table, b"") {
        Ok(Resolved::Direct(r)) => assert_eq!(r, &PdfObject::Integer(5)),
        _ => panic!("a direct object was fetched"),
    }
    let data = b"1 0 obj /N endobj";
    let table = table_of(&[(1, Locator::Offset(0))]);
    let r = PdfObject::Reference(1, 0);
    let v = deref(&r, &table, data).ok().unwrap();
    assert_eq!(v.get(), &PdfObject::Name(b"N".to_vec()));
}

#[test]
fn objects_in_object_streams_are_fetched() {
    let body = b"11 0 12 5 (one)\n[2 3]";
    let mut data = format!("10 0 obj\n<< /Type /ObjStm /N 2 /First 10 /Length {} >>\nstream\n", body.len()).into_bytes();
    data.extend_from_slice(body);
    data.extend_from_slice(b"\nendstream\nendobj\n");
    let table = table_of(&[
        (10, Locator::Offset(0)),
        (11, Locator::Compressed(10, 0)),
        (12, Locator::Compressed(10, 1)),
        (13, Locator::Compressed(10, 2)),
        (14, Locator::Compressed(99, 0)),
        (15, Locator::Compressed(11, 0)),
    ]);
    assert_eq!(fetch(11, &table, &data), Ok(PdfObject::String(b"one".to_vec())));
    assert_eq!(
        fetch(12, &table, &data),
        Ok(PdfObject::Array(vec![PdfObject::Integer(2), PdfObject::Integer(3)]))
    );
    assert_eq!(fetch(13, &table, &data), Err(ExtractError::MalformedObject));
    assert_eq!(fetch(14, &table, &data), Err(ExtractError::MalformedObject));
    assert_eq!(fetch(15, &table, &data), Err(ExtractError::MalformedObject));
}

fn find(data: &[u8], word: &[u8], from: usize) -> usize {
    (from..data.len()).find(|i| data[*i..].starts_with(word)).unwrap()
}

#[test]
fn misplaced_objects_are_found_under_their_last_header() {
    let data = b"junk )   4 0 obj (old) endobj 5 0 obj (five) endobj 4 0 obj (new) endobj";
    let first = find(data, b"4 0 obj", 0);
    let second = find(data, b"4 0 obj", first + 1);
    let table = table_of(&[
        (4, Locator::Offset(0)),
        (5, Locator::Offset(1000)),
        (6, Locator::Offset(0)),
        (7, Locator::Offset(2000)),
        (8, Locator::Offset(first)),
    ]);
    assert_eq!(fetch(4, &table, data), Ok(PdfObject::String(b"new".to_vec())));
    assert_eq!(fetch(5, &table, data), Ok(PdfObject::String(b"five".to_vec())));
    assert_eq!(fetch(6, &table, data), Err(ExtractError::MalformedObject));
    assert_eq!(fetch(7, &table, data), Err(ExtractError::TruncatedInput));
    assert_eq!(fetch(8, &table, data), Ok(PdfObject::String(b"old".to_vec())));
    let table = table_of(&[(4, Locator::Offset(second))]);
    assert_eq!(fetch(4, &table, data), Ok(PdfObject::String(b"new".to_vec())));
    let broken = b"4 0 obj ) endobj";
    let table = table_of(&[(4, Locator::Offset(0))]);
    assert_eq!(fetch(4, &table, broken), Err(ExtractError::MalformedObject));
}
