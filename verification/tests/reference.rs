use pdf_text::ocr;
use pdf_text::page::extract_text;

fn document(content: &str) -> Vec<u8> {
    let bodies = [
        "<< /Type /Catalog /Pages 2 0 R >>".to_string(),
        "<< /Type /Pages /Kids [3 0 R] /Count 1 >>".to_string(),
        "<< /Type /Page /Parent 2 0 R /MediaBox [0 0 612 792] /Resources << /Font << /F1 5 0 R >> >> /Contents 4 0 R >>".to_string(),
        format!("<< /Length {} >>\nstream\n{}\nendstream", content.len(), content),
        "<< /Type /Font /Subtype /Type1 /BaseFont /Helvetica /Encoding /WinAnsiEncoding >>".to_string(),
    ];
    let mut out = b"%PDF-1.4\n".to_vec();
    let mut offsets = Vec::new();
    for (i, body) in bodies.iter().enumerate() {
        offsets.push(out.len());
        out.extend_from_slice(format!("{} 0 obj\n{}\nendobj\n", i + 1, body).as_bytes());
    }
    let xref = out.len();
    out.extend_from_slice(b"xref\n0 6\n0000000000 65535 f \n");
    for off in offsets {
        out.extend_from_slice(format!("{:010} 00000 n \n", off).as_bytes());
    }
    out.extend_from_slice(
        format!("trailer\n<< /Size 6 /Root 1 0 R >>\nstartxref\n{}\n%%EOF\n", xref).as_bytes(),
    );
    out
}

fn words(text: &str) -> Vec<String> {
    text.split_whitespace().map(|w| w.to_string()).collect()
}

#[test]
fn ocr_gives_the_text_of_a_readable_document() {
    let doc = document("BT /F1 12 Tf 72 720 Td (Hi) Tj ET");
    assert_eq!(ocr(&doc), Ok("Hi".to_string()));
    assert_eq!(ocr(&doc), extract_text(&doc));
}

#[test]
fn words_agree_with_pdf_extract_on_a_plain_page() {
    let doc = document("BT /F1 12 Tf 72 720 Td (Hello) Tj 0 -14 Td (plain) Tj 0 -14 Td (world) Tj ET");
    let ours = extract_text(&doc).unwrap();
    let theirs = pdf_extract::extract_text_from_mem(&doc).unwrap();
    assert_eq!(ours, "Hello\nplain\nworld");
    assert_eq!(words(&ours), words(&theirs));
}
