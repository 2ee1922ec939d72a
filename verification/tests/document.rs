use pdf_text::error::ExtractError;
use pdf_text::page::{extract, extract_text, Extraction};
use std::io::Write;

/// Writes a document with a classic cross-reference table. `objects[i]` is
/// the body of object `i + 1`.
fn classic(objects: &[Vec<u8>], root: usize) -> Vec<u8> {
    let mut out = b"%PDF-1.4\n".to_vec();
    let mut offsets = Vec::new();
    for (i, body) in objects.iter().enumerate() {
        offsets.push(out.len());
        out.extend_from_slice(format!("{} 0 obj\n", i + 1).as_bytes());
        out.extend_from_slice(body);
        out.extend_from_slice(b"\nendobj\n");
    }
    let xref = out.len();
    out.extend_from_slice(format!("xref\n0 {}\n", objects.len() + 1).as_bytes());
    out.extend_from_slice(b"0000000000 65535 f \n");
    for off in &offsets {
        out.extend_from_slice(format!("{:010} 00000 n \n", off).as_bytes());
    }
    out.extend_from_slice(
        format!(
            "trailer\n<< /Size {} /Root {} 0 R >>\nstartxref\n{}\n%%EOF\n",
            objects.len() + 1,
            root,
            xref
        )
        .as_bytes(),
    );
    out
}

fn stream(dict: &str, data: &[u8]) -> Vec<u8> {
    let mut v = format!("<< /Length {} {} >>\nstream\n", data.len(), dict).into_bytes();
    v.extend_from_slice(data);
    v.extend_from_slice(b"\nendstream");
    v
}

fn one_page(content: Vec<u8>, font: &str) -> Vec<u8> {
    classic(
        &[
            b"<< /Type /Catalog /Pages 2 0 R >>".to_vec(),
            b"<< /Type /Pages /Kids [3 0 R] /Count 1 >>".to_vec(),
            b"<< /Type /Page /Parent 2 0 R /Resources << /Font << /F1 5 0 R >> >> /Contents 4 0 R >>"
                .to_vec(),
            content,
            font.as_bytes().to_vec(),
        ],
        1,
    )
}

const HELVETICA: &str = "<< /Type /Font /Subtype /Type1 /BaseFont /Helvetica >>";

#[test]
fn minimal_document_gives_the_shown_string() {
    let doc = one_page(stream("", b"BT /F1 12 Tf 72 720 Td (Hi) Tj ET"), HELVETICA);
    assert_eq!(extract_text(&doc), Ok("Hi".to_string()));
}

#[test]
fn hexadecimal_strings_and_escapes_are_shown() {
    let doc = one_page(
        stream("", b"BT /F1 12 Tf 72 720 Td <48656C6C6F> Tj (\\040\\(w\\157rld\\)) Tj ET"),
        HELVETICA,
    );
    assert_eq!(extract_text(&doc), Ok("Hello (world)".to_string()));
}

#[test]
fn compressed_content_is_decoded() {
    let mut e = flate2::write::ZlibEncoder::new(Vec::new(), flate2::Compression::default());
    e.write_all(b"BT /F1 12 Tf 72 720 Td (Compressed text) Tj ET").unwrap();
    let z = e.finish().unwrap();
    let doc = one_page(stream("/Filter /FlateDecode", &z), HELVETICA);
    assert_eq!(extract_text(&doc), Ok("Compressed text".to_string()));
}

#[test]
fn filters_are_applied_in_the_order_listed() {
    let mut e = flate2::write::ZlibEncoder::new(Vec::new(), flate2::Compression::default());
    e.write_all(b"BT /F1 12 Tf (chain) Tj ET").unwrap();
    let z = e.finish().unwrap();
    let hex: String = z.iter().map(|b| format!("{:02x}", b)).collect::<String>() + ">";
    let doc = one_page(
        stream("/Filter [/ASCIIHexDecode /FlateDecode]", hex.as_bytes()),
        HELVETICA,
    );
    assert_eq!(extract_text(&doc), Ok("chain".to_string()));
}

#[test]
fn lines_and_gaps_become_line_feeds_and_spaces() {
    let content = b"BT /F1 10 Tf 12 TL 72 720 Td (first) Tj T* (second) Tj 100 0 Td (third) Tj ET";
    let doc = one_page(stream("", content), HELVETICA);
    assert_eq!(extract_text(&doc), Ok("first\nsecond third".to_string()));
}

#[test]
fn runs_that_follow_each_other_are_joined() {
    let content = b"BT /F1 10 Tf 72 720 Td (ab) Tj (cd) Tj [(e) -20 (f)] TJ ET";
    let doc = one_page(stream("", content), HELVETICA);
    assert_eq!(extract_text(&doc), Ok("abcdef".to_string()));
}

#[test]
fn word_gaps_inside_an_array_become_spaces() {
    let content = b"BT /F1 10 Tf 72 720 Td [(T)80(o)-333(b)-10(e)-333.3(or )-400(not)-250()-250(to) 500 (be)-999] TJ ET";
    let doc = one_page(stream("", content), HELVETICA);
    assert_eq!(extract_text(&doc), Ok("To be or not tobe ".to_string()));
}

#[test]
fn pages_are_joined_with_one_line_feed() {
    let doc = classic(
        &[
            b"<< /Type /Catalog /Pages 2 0 R >>".to_vec(),
            b"<< /Type /Pages /Kids [3 0 R 6 0 R] /Count 2 /Resources << /Font << /F1 5 0 R >> >> >>"
                .to_vec(),
            b"<< /Type /Page /Parent 2 0 R /Contents 4 0 R >>".to_vec(),
            stream("", b"BT /F1 12 Tf (one) Tj ET"),
            HELVETICA.as_bytes().to_vec(),
            b"<< /Type /Page /Parent 2 0 R /Contents [7 0 R 8 0 R] >>".to_vec(),
            stream("", b"BT /F1 12 Tf (two) Tj"),
            stream("", b"(and more) Tj ET"),
        ],
        1,
    );
    assert_eq!(extract_text(&doc), Ok("one\ntwoand more".to_string()));
}

#[test]
fn content_streams_of_a_page_are_joined_before_they_are_read() {
    let doc = classic(
        &[
            b"<< /Type /Catalog /Pages 2 0 R >>".to_vec(),
            b"<< /Type /Pages /Kids [3 0 R] /Count 1 >>".to_vec(),
            b"<< /Type /Page /Parent 2 0 R /Resources << /Font << /F1 5 0 R >> >> /Contents [4 0 R 6 0 R] >>"
                .to_vec(),
            stream("", b"BT /F1 12 Tf (split)"),
            HELVETICA.as_bytes().to_vec(),
            stream("", b"Tj ET"),
        ],
        1,
    );
    assert_eq!(extract_text(&doc), Ok("split".to_string()));
}

#[test]
fn unreadable_startxref_falls_back_to_a_scan() {
    let doc = one_page(stream("", b"BT /F1 12 Tf 72 720 Td (Hi) Tj ET"), HELVETICA);
    let text = String::from_utf8(doc.clone()).unwrap();
    let at = text.rfind("startxref").unwrap();
    let mut broken = doc[..at].to_vec();
    broken.extend_from_slice(b"startxref\nnowhere\n%%EOF\n");
    assert_eq!(extract_text(&broken), Ok("Hi".to_string()));
}

#[test]
fn wrong_startxref_offset_falls_back_to_a_scan() {
    let doc = one_page(stream("", b"BT /F1 12 Tf 72 720 Td (Hi) Tj ET"), HELVETICA);
    let text = String::from_utf8(doc.clone()).unwrap();
    let at = text.rfind("startxref").unwrap();
    let mut broken = doc[..at].to_vec();
    broken.extend_from_slice(b"startxref\n7\n%%EOF\n");
    assert_eq!(extract_text(&broken), Ok("Hi".to_string()));
}

#[test]
fn objects_without_any_table_are_found_by_the_scan() {
    let doc = b"%PDF-1.4\n1 0 obj\n<< /Type /Catalog /Pages 2 0 R >>\nendobj\n\
2 0 obj\n<< /Type /Pages /Kids [3 0 R] >>\nendobj\n\
3 0 obj\n<< /Type /Page /Contents 4 0 R >>\nendobj\n\
4 0 obj\n<< /Length 17 >>\nstream\nBT (plain) Tj ET\nendstream\nendobj\n"
        .to_vec();
    assert_eq!(extract_text(&doc), Ok("plain".to_string()));
}

#[test]
fn document_without_pages_is_empty() {
    let doc = classic(
        &[
            b"<< /Type /Catalog /Pages 2 0 R >>".to_vec(),
            b"<< /Type /Pages /Kids [] /Count 0 >>".to_vec(),
        ],
        1,
    );
    assert_eq!(extract_text(&doc), Err(ExtractError::EmptyDocument));
}

#[test]
fn catalog_without_page_tree_is_empty() {
    let doc = classic(&[b"<< /Type /Catalog >>".to_vec()], 1);
    assert_eq!(extract_text(&doc), Err(ExtractError::EmptyDocument));
}

#[test]
fn bytes_that_hold_no_document_give_the_xref_error() {
    assert_eq!(extract_text(b""), Err(ExtractError::XrefError));
    assert_eq!(extract_text(b"not a document at all"), Err(ExtractError::XrefError));
}

#[test]
fn page_with_unsupported_filter_is_left_out() {
    let doc = classic(
        &[
            b"<< /Type /Catalog /Pages 2 0 R >>".to_vec(),
            b"<< /Type /Pages /Kids [3 0 R 6 0 R] /Count 2 /Resources << /Font << /F1 5 0 R >> >> >>"
                .to_vec(),
            b"<< /Type /Page /Parent 2 0 R /Contents 4 0 R >>".to_vec(),
            stream("", b"BT /F1 12 Tf (Hi) Tj ET"),
            HELVETICA.as_bytes().to_vec(),
            b"<< /Type /Page /Parent 2 0 R /Contents 7 0 R >>".to_vec(),
            stream("/Filter /JBIG2Decode", b"BT /F1 12 Tf (lost) Tj ET"),
        ],
        1,
    );
    assert_eq!(extract_text(&doc), Ok("Hi".to_string()));
}

#[test]
fn document_whose_only_page_fails_is_not_empty() {
    let doc = one_page(stream("/Filter /LZWDecode", b"junk"), HELVETICA);
    assert_eq!(extract_text(&doc), Ok(String::new()));
}

#[test]
fn incremental_update_replaces_the_older_object() {
    let mut doc = one_page(stream("", b"BT /F1 12 Tf (old) Tj ET"), HELVETICA);
    let text = String::from_utf8(doc.clone()).unwrap();
    let first_xref = text.rfind("xref\n0 ").unwrap();
    let at = doc.len();
    doc.extend_from_slice(b"4 0 obj\n");
    doc.extend_from_slice(&stream("", b"BT /F1 12 Tf (new) Tj ET"));
    doc.extend_from_slice(b"\nendobj\n");
    let xref = doc.len();
    doc.extend_from_slice(
        format!(
            "xref\n4 1\n{:010} 00000 n \ntrailer\n<< /Size 6 /Root 1 0 R /Prev {} >>\nstartxref\n{}\n%%EOF\n",
            at, first_xref, xref
        )
        .as_bytes(),
    );
    assert_eq!(extract_text(&doc), Ok("new".to_string()));
}

#[test]
fn stream_length_stored_in_another_object_is_followed() {
    let mut content = b"<< /Length 6 0 R >>\nstream\n".to_vec();
    content.extend_from_slice(b"BT /F1 12 Tf (endstream inside) Tj ET");
    content.extend_from_slice(b"\nendstream");
    let doc = classic(
        &[
            b"<< /Type /Catalog /Pages 2 0 R >>".to_vec(),
            b"<< /Type /Pages /Kids [3 0 R] /Count 1 >>".to_vec(),
            b"<< /Type /Page /Parent 2 0 R /Resources << /Font << /F1 5 0 R >> >> /Contents 4 0 R >>"
                .to_vec(),
            content,
            HELVETICA.as_bytes().to_vec(),
            b"37".to_vec(),
        ],
        1,
    );
    assert_eq!(extract_text(&doc), Ok("endstream inside".to_string()));
}

#[test]
fn wrong_stream_length_is_recovered_by_the_closing_keyword() {
    let mut content = b"<< /Length 5 >>\nstream\n".to_vec();
    content.extend_from_slice(b"BT /F1 12 Tf (recovered) Tj ET");
    content.extend_from_slice(b"\nendstream");
    let doc = one_page(content, HELVETICA);
    assert_eq!(extract_text(&doc), Ok("recovered".to_string()));
}

#[test]
fn win_ansi_and_differences_are_applied() {
    let font = "<< /Type /Font /Subtype /Type1 /BaseFont /Helvetica /Encoding << /Type /Encoding /BaseEncoding /WinAnsiEncoding /Differences [65 /alpha /Euro 200 /uni20AC /fi] >> >>";
    let doc = one_page(stream("", b"BT /F1 12 Tf (AB\\200\\311\\351 C\\310) Tj ET"), font);
    assert_eq!(extract_text(&doc), Ok("\u{20ac}\u{20ac}\u{fb01}\u{e9} C\u{20ac}".to_string()));
}

#[test]
fn standard_encoding_is_the_default() {
    let doc = one_page(stream("", b"BT /F1 12 Tf (it's \\256ne \\320 ok) Tj ET"), HELVETICA);
    assert_eq!(extract_text(&doc), Ok("it\u{2019}s \u{fb01}ne \u{2014} ok".to_string()));
}

#[test]
fn mac_roman_encoding_is_applied() {
    let font = "<< /Type /Font /Subtype /TrueType /BaseFont /Arial /Encoding /MacRomanEncoding >>";
    let doc = one_page(stream("", b"BT /F1 12 Tf (caf\\216 \\245) Tj ET"), font);
    assert_eq!(extract_text(&doc), Ok("caf\u{e9} \u{2022}".to_string()));
}

#[test]
fn character_map_of_a_composite_font_is_applied() {
    let cmap = b"/CIDInit /ProcSet findresource begin 12 dict begin begincmap\n\
1 begincodespacerange <0000> <FFFF> endcodespacerange\n\
2 beginbfchar <0001> <0048> <0002> <D83DDE00> endbfchar\n\
2 beginbfrange <0010> <0012> <0061> <0020> <0021> [<0078> <00660069>] endbfrange\n\
endcmap end end";
    let doc = classic(
        &[
            b"<< /Type /Catalog /Pages 2 0 R >>".to_vec(),
            b"<< /Type /Pages /Kids [3 0 R] /Count 1 >>".to_vec(),
            b"<< /Type /Page /Parent 2 0 R /Resources << /Font << /F1 5 0 R >> >> /Contents 4 0 R >>"
                .to_vec(),
            stream("", b"BT /F1 12 Tf <0001001000110012002000210002FFFF> Tj ET"),
            b"<< /Type /Font /Subtype /Type0 /BaseFont /X /Encoding /Identity-H /ToUnicode 6 0 R >>"
                .to_vec(),
            stream("", cmap),
        ],
        1,
    );
    assert_eq!(extract_text(&doc), Ok("Habcxfi\u{1f600}".to_string()));
}

#[test]
fn missing_font_falls_back_to_printable_ascii() {
    let doc = classic(
        &[
            b"<< /Type /Catalog /Pages 2 0 R >>".to_vec(),
            b"<< /Type /Pages /Kids [3 0 R] /Count 1 >>".to_vec(),
            b"<< /Type /Page /Parent 2 0 R /Contents 4 0 R >>".to_vec(),
            stream("", b"BT /F9 12 Tf (ok\\001\\377!) Tj ET"),
        ],
        1,
    );
    assert_eq!(extract_text(&doc), Ok("ok!".to_string()));
}

#[test]
fn operators_that_are_not_text_are_passed_over() {
    let content = b"q 1 0 0 1 10 10 cm 0.5 g 10 10 100 100 re f\nBI /W 1 /H 1 ID \x00\xff(( EI\n\
BT /F1 12 Tf 1 0 0 1 72 720 Tm (kept) Tj ET Q ) > ] junk (not shown)";
    let doc = one_page(stream("", content), HELVETICA);
    assert_eq!(extract_text(&doc), Ok("kept".to_string()));
}

#[test]
fn page_tree_that_refers_to_itself_ends() {
    let doc = classic(
        &[
            b"<< /Type /Catalog /Pages 2 0 R >>".to_vec(),
            b"<< /Type /Pages /Kids [2 0 R 3 0 R] >>".to_vec(),
            b"<< /Type /Page /Parent 2 0 R /Contents 4 0 R >>".to_vec(),
            stream("", b"BT (x) Tj ET"),
        ],
        1,
    );
    let text = extract_text(&doc).unwrap();
    assert!(text.starts_with("x\nx"));
    assert_eq!(text.len(), 2 * 64 - 1);
}

fn zlib(data: &[u8]) -> Vec<u8> {
    let mut e = flate2::write::ZlibEncoder::new(Vec::new(), flate2::Compression::default());
    e.write_all(data).unwrap();
    e.finish().unwrap()
}

/// Applies the PNG "up" predictor to rows of `columns` bytes.
fn predict_up(data: &[u8], columns: usize) -> Vec<u8> {
    let mut out = Vec::new();
    let mut prev = vec![0u8; columns];
    for row in data.chunks(columns) {
        out.push(2);
        for (i, b) in row.iter().enumerate() {
            out.push(b.wrapping_sub(prev[i]));
        }
        prev = row.to_vec();
    }
    out
}

/// Writes a document whose objects 1 to 3 and 5 lie in an object stream
/// and whose cross-reference data is a stream.
fn compressed_document(predictor: bool) -> Vec<u8> {
    let bodies: [&[u8]; 4] = [
        b"<< /Type /Catalog /Pages 2 0 R >>",
        b"<< /Type /Pages /Kids [3 0 R] /Count 1 >>",
        b"<< /Type /Page /Parent 2 0 R /Resources << /Font << /F1 5 0 R >> >> /Contents 4 0 R >>",
        b"<< /Type /Font /Subtype /Type1 /BaseFont /Helvetica /Encoding /WinAnsiEncoding >>",
    ];
    let numbers = [1, 2, 3, 5];
    let mut header = String::new();
    let mut data = Vec::new();
    for (n, body) in numbers.iter().zip(bodies.iter()) {
        header.push_str(&format!("{} {} ", n, data.len()));
        data.extend_from_slice(body);
        data.push(b'\n');
    }
    let mut objstm = header.clone().into_bytes();
    objstm.extend_from_slice(&data);
    let mut out = b"%PDF-1.5\n".to_vec();
    let content_at = out.len();
    out.extend_from_slice(b"4 0 obj\n");
    out.extend_from_slice(&stream("/Filter /FlateDecode", &zlib(b"BT /F1 12 Tf (packed) Tj ET")));
    out.extend_from_slice(b"\nendobj\n");
    let objstm_at = out.len();
    out.extend_from_slice(b"6 0 obj\n");
    out.extend_from_slice(&stream(
        &format!("/Type /ObjStm /N 4 /First {} /Filter /FlateDecode", header.len()),
        &zlib(&objstm),
    ));
    out.extend_from_slice(b"\nendobj\n");
    let xref_at = out.len();
    let mut rows = Vec::new();
    let mut row = |kind: u8, a: usize, b: u8| {
        rows.push(kind);
        rows.push((a >> 8) as u8);
        rows.push(a as u8);
        rows.push(b);
    };
    row(0, 0, 255);
    row(2, 6, 0);
    row(2, 6, 1);
    row(2, 6, 2);
    row(1, content_at, 0);
    row(2, 6, 3);
    row(1, objstm_at, 0);
    row(1, xref_at, 0);
    let (parms, packed) = if predictor {
        ("/DecodeParms << /Predictor 12 /Columns 4 >>", zlib(&predict_up(&rows, 4)))
    } else {
        ("", zlib(&rows))
    };
    out.extend_from_slice(b"7 0 obj\n");
    out.extend_from_slice(&stream(
        &format!("/Type /XRef /Size 8 /W [1 2 1] /Root 1 0 R /Filter /FlateDecode {}", parms),
        &packed,
    ));
    out.extend_from_slice(b"\nendobj\n");
    out.extend_from_slice(format!("startxref\n{}\n%%EOF\n", xref_at).as_bytes());
    out
}

#[test]
fn cross_reference_stream_and_object_stream_are_read() {
    assert_eq!(extract_text(&compressed_document(false)), Ok("packed".to_string()));
}

#[test]
fn cross_reference_stream_with_a_predictor_is_read() {
    assert_eq!(extract_text(&compressed_document(true)), Ok("packed".to_string()));
}

#[test]
fn damaged_documents_give_a_result() {
    let doc = compressed_document(true);
    for i in 0..doc.len() {
        for bit in [0u8, 3, 7] {
            let mut broken = doc.clone();
            broken[i] ^= 1 << bit;
            let _ = extract_text(&broken);
        }
    }
    for n in 0..doc.len() {
        let _ = extract_text(&doc[..n]);
        let _ = extract_text(&doc[n..]);
    }
    let doc = one_page(stream("", b"BT /F1 12 Tf 72 720 Td [(a) -5 (b)] TJ ET"), HELVETICA);
    for i in 0..doc.len() {
        for b in [0u8, b'(', b')', b'<', b'>', b'[', b']', b'/', b'%', b' ', b'9', 0xff] {
            let mut broken = doc.clone();
            broken[i] = b;
            let _ = extract_text(&broken);
        }
    }
}

#[test]
fn many_pages_are_read_in_order() {
    let pages = 300;
    let mut objects = vec![
        b"<< /Type /Catalog /Pages 2 0 R >>".to_vec(),
        Vec::new(),
        HELVETICA.as_bytes().to_vec(),
    ];
    let mut kids = String::new();
    let mut expected = Vec::new();
    for i in 0..pages {
        let page = objects.len() + 1;
        kids.push_str(&format!("{} 0 R ", page));
        objects.push(
            format!(
                "<< /Type /Page /Parent 2 0 R /Resources << /Font << /F1 3 0 R >> >> /Contents {} 0 R >>",
                page + 1
            )
            .into_bytes(),
        );
        objects.push(stream("", format!("BT /F1 12 Tf (page {}) Tj ET", i).as_bytes()));
        expected.push(format!("page {}", i));
    }
    objects[1] = format!("<< /Type /Pages /Kids [{}] /Count {} >>", kids, pages).into_bytes();
    let doc = classic(&objects, 1);
    assert_eq!(extract_text(&doc), Ok(expected.join("\n")));
}

#[test]
fn pages_that_cannot_be_read_are_noted() {
    let doc = classic(
        &[
            b"<< /Type /Catalog /Pages 2 0 R >>".to_vec(),
            b"<< /Type /Pages /Kids [3 0 R 6 0 R 8 0 R 9 0 R] /Resources << /Font << /F1 5 0 R >> >> >>"
                .to_vec(),
            b"<< /Type /Page /Parent 2 0 R /Contents 4 0 R >>".to_vec(),
            stream("", b"BT /F1 12 Tf (Hi) Tj ET"),
            HELVETICA.as_bytes().to_vec(),
            b"<< /Type /Page /Parent 2 0 R /Contents 7 0 R >>".to_vec(),
            stream("/Filter /FlateDecode", b"not deflate data"),
            b"<< /Type /Page /Parent 2 0 R >>".to_vec(),
            b"<< /Type /Page /Parent 2 0 R /Contents [4 0 R 5 0 R] >>".to_vec(),
        ],
        1,
    );
    assert_eq!(
        extract(&doc),
        Ok(Extraction {
            text: "Hi\n".to_string(),
            pages: 4,
            failed_pages: 2,
            skipped_tokens: 0,
            fallback_runs: 0,
        })
    );
    let doc = one_page(stream("", b"BT /F1 12 Tf (Hi) Tj ET"), HELVETICA);
    assert_eq!(
        extract(&doc),
        Ok(Extraction {
            text: "Hi".to_string(),
            pages: 1,
            failed_pages: 0,
            skipped_tokens: 0,
            fallback_runs: 0,
        })
    );
}

#[test]
fn what_is_passed_over_is_noted() {
    let first = b"BT /F9 12 Tf (no) Tj ) xyz 5 w BI /W 1 ID \x00)) EI (font) Tj ET";
    let second = b"BT /F1 12 Tf ( here) Tj ET ] Tk";
    let doc = classic(
        &[
            b"<< /Type /Catalog /Pages 2 0 R >>".to_vec(),
            b"<< /Type /Pages /Kids [3 0 R 6 0 R] /Resources << /Font << /F1 5 0 R >> >> >>"
                .to_vec(),
            b"<< /Type /Page /Parent 2 0 R /Contents 4 0 R >>".to_vec(),
            stream("", first),
            HELVETICA.as_bytes().to_vec(),
            b"<< /Type /Page /Parent 2 0 R /Contents 7 0 R >>".to_vec(),
            stream("", second),
        ],
        1,
    );
    assert_eq!(
        extract(&doc),
        Ok(Extraction {
            text: "nofont\n here".to_string(),
            pages: 2,
            failed_pages: 0,
            skipped_tokens: 4,
            fallback_runs: 2,
        })
    );
}
