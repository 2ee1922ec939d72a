use pdf_text::error::ExtractError;
use pdf_text::ocr;

/// A document with a classic table; `objects[i]` is the body of object
/// `i + 1`, and object 1 is the catalog.
fn document(objects: &[&str]) -> Vec<u8> {
    let mut out = b"%PDF-1.4\n".to_vec();
    let mut offsets = Vec::new();
    for (i, body) in objects.iter().enumerate() {
        offsets.push(out.len());
        out.extend_from_slice(format!("{} 0 obj\n{}\nendobj\n", i + 1, body).as_bytes());
    }
    let xref = out.len();
    out.extend_from_slice(format!("xref\n0 {}\n0000000000 65535 f \n", objects.len() + 1).as_bytes());
    for off in offsets {
        out.extend_from_slice(format!("{:010} 00000 n \n", off).as_bytes());
    }
    out.extend_from_slice(
        format!("trailer\n<< /Size {} /Root 1 0 R >>\nstartxref\n{}\n%%EOF\n", objects.len() + 1, xref)
            .as_bytes(),
    );
    out
}

fn is_typed(r: &Result<String, ExtractError>) -> bool {
    !matches!(r, Err(ExtractError::Timeout))
}

#[test]
fn catalog_that_refers_to_itself_is_a_cycle() {
    let bytes = b"%PDF-1.4\n1 0 obj\n1 0 R\nendobj\nxref\n0 2\n0000000000 65535 f \n0000000009 00000 n \ntrailer\n<< /Size 2 /Root 1 0 R >>\nstartxref\n30\n%%EOF\n";
    assert_eq!(ocr(bytes), Err(ExtractError::ReferenceCycle));
}

#[test]
fn catalog_behind_a_ring_of_references_is_a_cycle() {
    assert_eq!(ocr(&document(&["2 0 R", "3 0 R", "1 0 R"])), Err(ExtractError::ReferenceCycle));
    let mut ring: Vec<String> = (2..=50).map(|n| format!("{} 0 R", n)).collect();
    ring.push("1 0 R".to_string());
    let refs: Vec<&str> = ring.iter().map(|s| s.as_str()).collect();
    assert_eq!(ocr(&document(&refs)), Err(ExtractError::ReferenceCycle));
}

#[test]
fn page_tree_without_children_is_an_empty_document() {
    let bytes = b"%PDF-1.4\n1 0 obj\n<< /Type /Catalog /Pages 2 0 R >>\nendobj\n2 0 obj\n<< /Type /Pages /Kids [] /Count 0 >>\nendobj\nxref\n0 3\n0000000000 65535 f \n0000000009 00000 n \n0000000058 00000 n \ntrailer\n<< /Size 3 /Root 1 0 R >>\nstartxref\n110\n%%EOF\n";
    assert_eq!(ocr(bytes), Err(ExtractError::EmptyDocument));
}

#[test]
fn rings_of_references_end_wherever_they_are_used() {
    // the page tree
    assert_eq!(
        ocr(&document(&["<< /Type /Catalog /Pages 2 0 R >>", "3 0 R", "2 0 R"])),
        Err(ExtractError::EmptyDocument)
    );
    // the children
    assert_eq!(
        ocr(&document(&["<< /Type /Catalog /Pages 2 0 R >>", "<< /Type /Pages /Kids 3 0 R >>", "3 0 R"])),
        Err(ExtractError::EmptyDocument)
    );
    // one child
    assert_eq!(
        ocr(&document(&["<< /Type /Catalog /Pages 2 0 R >>", "<< /Type /Pages /Kids [3 0 R] >>", "3 0 R"])),
        Err(ExtractError::EmptyDocument)
    );
    // the content of a page: the page is there and gives no text
    assert_eq!(
        ocr(&document(&[
            "<< /Type /Catalog /Pages 2 0 R >>",
            "<< /Type /Pages /Kids [3 0 R] >>",
            "<< /Type /Page /Contents 4 0 R >>",
            "5 0 R",
            "4 0 R",
        ])),
        Ok(String::new())
    );
    // the length of a stream, its filter, and the fonts
    assert_eq!(
        ocr(&document(&[
            "<< /Type /Catalog /Pages 2 0 R >>",
            "<< /Type /Pages /Kids [3 0 R 6 0 R 8 0 R] >>",
            "<< /Type /Page /Contents 4 0 R >>",
            "<< /Length 5 0 R >>\nstream\nBT (length) Tj ET\nendstream",
            "5 0 R",
            "<< /Type /Page /Contents 7 0 R /Resources << /Font 5 0 R >> >>",
            "<< /Length 16 >>\nstream\nBT (font) Tj ET\nendstream",
            "<< /Type /Page /Contents 9 0 R >>",
            "<< /Length 18 /Filter 5 0 R >>\nstream\nBT (filter) Tj ET\nendstream",
        ])),
        Ok("length\nfont".to_string())
    );
}

#[test]
fn every_input_gets_a_text_or_a_typed_error() {
    assert_eq!(ocr(b""), Err(ExtractError::XrefError));
    assert_eq!(ocr(b"%PDF-1.4\n%%EOF\n"), Err(ExtractError::XrefError));
    assert_eq!(ocr(&[0u8; 64]), Err(ExtractError::XrefError));
    let doc = document(&[
        "<< /Type /Catalog /Pages 2 0 R >>",
        "<< /Type /Pages /Kids [3 0 R] >>",
        "<< /Type /Page /Contents 4 0 R >>",
        "<< /Length 17 >>\nstream\nBT (whole) Tj ET\nendstream",
    ]);
    assert_eq!(ocr(&doc), Ok("whole".to_string()));
    for n in 0..doc.len() {
        assert!(is_typed(&ocr(&doc[..n])));
        assert!(is_typed(&ocr(&doc[n..])));
        let mut damaged = doc.clone();
        damaged[n] = damaged[n].wrapping_add(1);
        assert!(is_typed(&ocr(&damaged)));
    }
    assert_eq!(ocr(&document(&["(no dictionary)"])), Err(ExtractError::MalformedObject));
    assert_eq!(ocr(&document(&["<< /Type /Catalog"])), Err(ExtractError::MalformedObject));
}

#[test]
fn object_at_a_wrong_offset_is_still_read() {
    let doc = document(&[
        "<< /Type /Catalog /Pages 2 0 R >>",
        "<< /Type /Pages /Kids [3 0 R] >>",
        "<< /Type /Page /Contents 4 0 R >>",
        "<< /Length 17 >>\nstream\nBT (found) Tj ET\nendstream",
    ]);
    let text = String::from_utf8(doc.clone()).unwrap();
    let at = text.find("4 0 obj").unwrap();
    let line = format!("{:010} 00000 n ", at);
    let entry = text.find(&line).unwrap();
    let mut moved = doc.clone();
    moved[entry..entry + 10].copy_from_slice(b"0000000003");
    assert_eq!(ocr(&doc), Ok("found".to_string()));
    assert_eq!(ocr(&moved), Ok("found".to_string()));
    moved[entry..entry + 10].copy_from_slice(b"0000999999");
    assert_eq!(ocr(&moved), Ok("found".to_string()));
}
