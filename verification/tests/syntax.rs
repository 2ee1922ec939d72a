use pdf_text::error::ExtractError;
use pdf_text::lexer::{
    Number, hex_value, is_delimiter, is_regular, is_whitespace, matches_word, parse_hex_string,
    parse_literal_string, parse_name, parse_number, regular_end, skip_whitespace, NUMBER_CAP,
};
use pdf_text::object::{
    bytes_eq, dict_get, dict_get_str, dict_put, find_word, finish_object, int_entry,
    parse_object, parse_object_at, parse_value, stream_body, DictEntry, PdfObject, MAX_DEPTH,
};
use pdf_text::reader::ByteReader;
use pdf_text::token::{next_token, next_token_at, Token};

fn name(s: &str) -> PdfObject {
    PdfObject::Name(s.as_bytes().to_vec())
}

fn entry(k: &str, v: PdfObject) -> DictEntry {
    DictEntry { key: k.as_bytes().to_vec(), value: v }
}

#[test]
fn reader_peeks_without_moving() {
    let r = ByteReader::new(b"abcdef");
    assert_eq!(r.peek(3), Ok(&b"abc"[..]));
    assert_eq!(r.position(), 0);
    assert_eq!(r.peek(6), Ok(&b"abcdef"[..]));
    assert_eq!(r.peek(0), Ok(&b""[..]));
    assert_eq!(r.peek_byte(), Some(b'a'));
    assert_eq!(r.remaining(), 6);
}

#[test]
fn reader_reports_truncated_input() {
    let mut r = ByteReader::new(b"abc");
    assert_eq!(r.peek(4), Err(ExtractError::TruncatedInput));
    assert_eq!(r.peek(usize::MAX), Err(ExtractError::TruncatedInput));
    assert_eq!(r.advance(4), Err(ExtractError::TruncatedInput));
    assert_eq!(r.position(), 0);
    assert_eq!(r.seek(4), Err(ExtractError::TruncatedInput));
    assert_eq!(r.position(), 0);
}

#[test]
fn reader_advances_and_seeks() {
    let mut r = ByteReader::new(b"abcdef");
    assert_eq!(r.advance(2), Ok(()));
    assert_eq!(r.position(), 2);
    assert_eq!(r.peek(2), Ok(&b"cd"[..]));
    assert_eq!(r.seek(6), Ok(()));
    assert_eq!(r.peek_byte(), None);
    assert_eq!(r.advance(usize::MAX), Err(ExtractError::TruncatedInput));
    assert_eq!(r.position(), 6);
    assert_eq!(r.seek(1), Ok(()));
    assert_eq!(r.peek_byte(), Some(b'b'));
    assert_eq!(r.bytes(), b"abcdef");
}

#[test]
fn character_classes() {
    for b in [0u8, 9, 10, 12, 13, 32] {
        assert!(is_whitespace(b));
        assert!(!is_regular(b));
    }
    for b in b"()<>[]{}/%" {
        assert!(is_delimiter(*b));
        assert!(!is_regular(*b));
    }
    assert!(!is_whitespace(11));
    assert!(is_regular(b'a'));
    assert!(is_regular(b'#'));
    assert_eq!(hex_value(b'0'), 0);
    assert_eq!(hex_value(b'9'), 9);
    assert_eq!(hex_value(b'a'), 10);
    assert_eq!(hex_value(b'F'), 15);
    assert_eq!(hex_value(b'g'), 0);
}

#[test]
fn blank_space_and_comments_are_skipped() {
    assert_eq!(skip_whitespace(b"  \t\r\n x", 0), 6);
    assert_eq!(skip_whitespace(b"% note ( [\n  /N", 0), 13);
    assert_eq!(skip_whitespace(b"%one\r%two\nX", 0), 10);
    assert_eq!(skip_whitespace(b"abc", 1), 1);
    assert_eq!(skip_whitespace(b"  ", 0), 2);
    assert_eq!(skip_whitespace(b"% no end", 0), 8);
}

#[test]
fn regular_runs_end_at_delimiters() {
    assert_eq!(regular_end(b"abc/def", 0), 3);
    assert_eq!(regular_end(b"abc def", 4), 7);
    assert_eq!(regular_end(b"(x)", 0), 0);
    assert!(matches_word(b"xx true", 3, 7, "true"));
    assert!(!matches_word(b"xx true", 3, 6, "true"));
    assert!(!matches_word(b"xx trud", 3, 7, "true"));
}

#[test]
fn numbers_are_integers_or_thousandths() {
    assert_eq!(parse_number(b"0"), Some(Number::Integer(0)));
    assert_eq!(parse_number(b"+7"), Some(Number::Integer(7)));
    assert_eq!(parse_number(b"-42"), Some(Number::Integer(-42)));
    assert_eq!(parse_number(b"0012"), Some(Number::Integer(12)));
    assert_eq!(parse_number(b"12.3456"), Some(Number::Real(12345)));
    assert_eq!(parse_number(b"-12.3456"), Some(Number::Real(-12345)));
    assert_eq!(parse_number(b".5"), Some(Number::Real(500)));
    assert_eq!(parse_number(b"-.002"), Some(Number::Real(-2)));
    assert_eq!(parse_number(b"4."), Some(Number::Real(4000)));
    assert_eq!(parse_number(b"1.25"), Some(Number::Real(1250)));
}

#[test]
fn what_is_no_number_is_refused() {
    for t in ["", "+", "-", ".", "+.", "1a", "a1", "1.2.3", "--1", "1-", "1e5", "0x10"] {
        assert_eq!(parse_number(t.as_bytes()), None);
    }
}

#[test]
fn long_digit_runs_saturate() {
    assert_eq!(parse_number(b"999999999999999"), Some(Number::Integer(999_999_999_999_999)));
    assert_eq!(parse_number(b"1000000000000000"), Some(Number::Integer(NUMBER_CAP)));
    assert_eq!(parse_number(b"123456789012345678901234567890"), Some(Number::Integer(NUMBER_CAP)));
    assert_eq!(
        parse_number(b"-123456789012345678901234567890.5"),
        Some(Number::Real(-(NUMBER_CAP * 1000 + 500)))
    );
}

#[test]
fn literal_strings_nest_and_escape() {
    assert_eq!(parse_literal_string(b"(plain) x", 1), Ok((b"plain".to_vec(), 7)));
    assert_eq!(parse_literal_string(b"(a(b(c))d)", 1), Ok((b"a(b(c))d".to_vec(), 10)));
    assert_eq!(
        parse_literal_string(b"(\\n\\r\\t\\b\\f\\(\\)\\\\\\q)", 1),
        Ok((b"\n\r\t\x08\x0c()\\q".to_vec(), 20))
    );
    assert_eq!(parse_literal_string(b"(\\101\\7\\0053\\400)", 1), Ok((b"A\x07\x053\x00".to_vec(), 17)));
    assert_eq!(parse_literal_string(b"(a\\\nb\\\r\nc\\\rd)", 1), Ok((b"abcd".to_vec(), 13)));
    assert_eq!(parse_literal_string(b"()", 1), Ok((Vec::new(), 2)));
}

#[test]
fn unfinished_literal_string_is_truncated() {
    assert_eq!(parse_literal_string(b"(abc", 1), Err(ExtractError::TruncatedInput));
    assert_eq!(parse_literal_string(b"(a(b)", 1), Err(ExtractError::TruncatedInput));
    assert_eq!(parse_literal_string(b"(abc\\", 1), Err(ExtractError::TruncatedInput));
}

#[test]
fn hexadecimal_strings() {
    assert_eq!(parse_hex_string(b"<48 65\n6c>", 1), Ok((b"Hel".to_vec(), 10)));
    assert_eq!(parse_hex_string(b"<417>", 1), Ok((vec![0x41, 0x70], 5)));
    assert_eq!(parse_hex_string(b"<>", 1), Ok((Vec::new(), 2)));
    assert_eq!(parse_hex_string(b"<4G>", 1), Err(ExtractError::MalformedObject));
    assert_eq!(parse_hex_string(b"<41", 1), Err(ExtractError::TruncatedInput));
}

#[test]
fn names_expand_number_signs() {
    assert_eq!(parse_name(b"/Name1 x", 1), (b"Name1".to_vec(), 6));
    assert_eq!(parse_name(b"/A#20B#2fC/", 1), (b"A B/C".to_vec(), 10));
    assert_eq!(parse_name(b"/A#2", 1), (b"A#2".to_vec(), 4));
    assert_eq!(parse_name(b"/A#zz", 1), (b"A#zz".to_vec(), 5));
    assert_eq!(parse_name(b"/ x", 1), (Vec::new(), 1));
}

#[test]
fn values_of_every_kind() {
    assert_eq!(parse_value(b" null ", 0, 4), Ok((PdfObject::Null, 5)));
    assert_eq!(parse_value(b"true", 0, 4), Ok((PdfObject::Boolean(true), 4)));
    assert_eq!(parse_value(b"false]", 0, 4), Ok((PdfObject::Boolean(false), 5)));
    assert_eq!(parse_value(b"-17 ", 0, 4), Ok((PdfObject::Integer(-17), 3)));
    assert_eq!(parse_value(b"2.5", 0, 4), Ok((PdfObject::Real(2500), 3)));
    assert_eq!(parse_value(b"(s)", 0, 4), Ok((PdfObject::String(b"s".to_vec()), 3)));
    assert_eq!(parse_value(b"<4142>", 0, 4), Ok((PdfObject::String(b"AB".to_vec()), 6)));
    assert_eq!(parse_value(b"/N", 0, 4), Ok((name("N"), 2)));
    assert_eq!(parse_value(b"12 0 R", 0, 4), Ok((PdfObject::Reference(12, 0), 6)));
    assert_eq!(parse_value(b"12 0 RG", 0, 4), Ok((PdfObject::Integer(12), 2)));
    assert_eq!(parse_value(b"12 70000 R", 0, 4), Ok((PdfObject::Integer(12), 2)));
    assert_eq!(parse_value(b"-1 0 R", 0, 4), Ok((PdfObject::Integer(-1), 2)));
}

#[test]
fn arrays_and_dictionaries() {
    assert_eq!(
        parse_value(b"[1 /A (b) [2] 3 0 R]", 0, 4),
        Ok((
            PdfObject::Array(vec![
                PdfObject::Integer(1),
                name("A"),
                PdfObject::String(b"b".to_vec()),
                PdfObject::Array(vec![PdfObject::Integer(2)]),
                PdfObject::Reference(3, 0),
            ]),
            20
        ))
    );
    assert_eq!(
        parse_value(b"<</A 1/B<</C[]>>/A 2>>", 0, 4),
        Ok((
            PdfObject::Dictionary(vec![
                entry("A", PdfObject::Integer(2)),
                entry("B", PdfObject::Dictionary(vec![entry("C", PdfObject::Array(vec![]))])),
            ]),
            22
        ))
    );
}

#[test]
fn malformed_values_are_refused() {
    assert_eq!(parse_value(b"", 0, 4), Err(ExtractError::TruncatedInput));
    assert_eq!(parse_value(b"   % only a comment", 0, 4), Err(ExtractError::TruncatedInput));
    assert_eq!(parse_value(b")", 0, 4), Err(ExtractError::MalformedObject));
    assert_eq!(parse_value(b"endobj", 0, 4), Err(ExtractError::MalformedObject));
    assert_eq!(parse_value(b"[1 2", 0, 4), Err(ExtractError::TruncatedInput));
    assert_eq!(parse_value(b"[1 )]", 0, 4), Err(ExtractError::MalformedObject));
    assert_eq!(parse_value(b"<< /A 1", 0, 4), Err(ExtractError::TruncatedInput));
    assert_eq!(parse_value(b"<< /A 1 >", 0, 4), Err(ExtractError::TruncatedInput));
    assert_eq!(parse_value(b"<< /A 1 >x", 0, 4), Err(ExtractError::MalformedObject));
    assert_eq!(parse_value(b"<< 1 2 >>", 0, 4), Err(ExtractError::MalformedObject));
}

#[test]
fn nesting_is_bounded() {
    assert_eq!(parse_value(b"[[1]]", 0, 2), Ok((
        PdfObject::Array(vec![PdfObject::Array(vec![PdfObject::Integer(1)])]),
        5
    )));
    assert_eq!(parse_value(b"[[1]]", 0, 1), Err(ExtractError::MalformedObject));
    assert_eq!(parse_value(b"[]", 0, 0), Err(ExtractError::MalformedObject));
    let mut deep = Vec::new();
    for _ in 0..100000 {
        deep.push(b'[');
    }
    assert_eq!(parse_value(&deep, 0, MAX_DEPTH), Err(ExtractError::MalformedObject));
}

#[test]
fn dictionary_access() {
    let mut d = vec![entry("A", PdfObject::Integer(1))];
    dict_put(&mut d, b"B".to_vec(), PdfObject::Integer(2));
    dict_put(&mut d, b"A".to_vec(), PdfObject::Integer(3));
    assert_eq!(d, vec![entry("A", PdfObject::Integer(3)), entry("B", PdfObject::Integer(2))]);
    assert_eq!(dict_get(&d, b"B"), Some(&PdfObject::Integer(2)));
    assert_eq!(dict_get_str(&d, "A"), Some(&PdfObject::Integer(3)));
    assert_eq!(dict_get(&d, b"C"), None);
    assert_eq!(int_entry(&d, "A", 9), 3);
    assert_eq!(int_entry(&d, "Z", 9), 9);
    assert!(bytes_eq(b"ab", b"ab"));
    assert!(!bytes_eq(b"ab", b"abc"));
    assert!(!bytes_eq(b"ab", b"ac"));
}

#[test]
fn object_accessors() {
    assert_eq!(PdfObject::Integer(3).as_integer(), Some(3));
    assert_eq!(PdfObject::Real(3).as_integer(), None);
    assert_eq!(PdfObject::Integer(3).as_number(), Some(3000));
    assert_eq!(PdfObject::Real(-1500).as_number(), Some(-1500));
    assert_eq!(PdfObject::Integer(i64::MAX).as_number(), Some(9_000_000_000_000_000_000));
    assert_eq!(PdfObject::Integer(i64::MIN).as_number(), Some(-9_000_000_000_000_000_000));
    assert_eq!(PdfObject::Null.as_number(), None);
    assert_eq!(name("N").as_name(), Some(&b"N".to_vec()));
    assert_eq!(PdfObject::Array(vec![]).as_array(), Some(&vec![]));
    let d = vec![entry("K", PdfObject::Null)];
    assert_eq!(PdfObject::Stream(vec![entry("K", PdfObject::Null)], vec![1]).as_dict(), Some(&d));
    assert_eq!(PdfObject::Null.as_dict(), None);
}

#[test]
fn stream_with_declared_length() {
    let data = b"<< /Length 5 >>\nstream\r\nab\ncd\nendstream endobj";
    assert_eq!(
        parse_object_at(data, 0),
        Ok((
            PdfObject::Stream(vec![entry("Length", PdfObject::Integer(5))], b"ab\ncd".to_vec()),
            39
        ))
    );
}

#[test]
fn stream_without_usable_length_runs_to_the_keyword() {
    let data = b"<< /Length 500 >> stream\nabc\r\nendstream\nendobj";
    assert_eq!(
        parse_object_at(data, 0),
        Ok((PdfObject::Stream(vec![entry("Length", PdfObject::Integer(500))], b"abc".to_vec()), 39))
    );
    let data = b"<< >> stream\nabc";
    assert_eq!(parse_object_at(data, 0), Ok((PdfObject::Stream(vec![], b"abc".to_vec()), 16)));
    assert_eq!(stream_body(b"xxabc\nendstream", 2, None), (b"abc".to_vec(), 15));
    assert_eq!(stream_body(b"xxabc\nendstream", 2, Some(2)), (b"abc".to_vec(), 15));
    assert_eq!(stream_body(b"xxabc\nendstream", 2, Some(3)), (b"abc".to_vec(), 15));
    assert_eq!(stream_body(b"xxabc\nendstream", 2, Some(4)), (b"abc\n".to_vec(), 15));
    assert_eq!(find_word(b"abcabc", 1, "bc"), 1);
    assert_eq!(find_word(b"abcabc", 2, "bc"), 4);
    assert_eq!(find_word(b"abcabc", 5, "bc"), 6);
}

#[test]
fn length_hint_serves_a_referred_length() {
    let data = b"<< /Length 9 0 R >> stream\nab endstream cd\nendstream";
    let (dict, e) = parse_value(data, 0, MAX_DEPTH).unwrap();
    let (o, end) = finish_object(data, dict, e, Some(15));
    assert_eq!(
        o,
        PdfObject::Stream(vec![entry("Length", PdfObject::Reference(9, 0))], b"ab endstream cd".to_vec())
    );
    assert_eq!(end, data.len());
    let (dict, e) = parse_value(data, 0, MAX_DEPTH).unwrap();
    let (o, end) = finish_object(data, dict, e, None);
    assert_eq!(o, PdfObject::Stream(vec![entry("Length", PdfObject::Reference(9, 0))], b"ab ".to_vec()));
    assert_eq!(end, 39);
}

#[test]
fn dictionary_without_stream_keyword_stays_a_dictionary() {
    assert_eq!(parse_object_at(b"<< /A 1 >> endobj", 0), Ok((
        PdfObject::Dictionary(vec![entry("A", PdfObject::Integer(1))]),
        10
    )));
}

#[test]
fn parse_object_moves_the_reader_on_success_only() {
    let mut r = ByteReader::new(b" 12 (s) ) /N");
    assert_eq!(parse_object(&mut r), Ok(PdfObject::Integer(12)));
    assert_eq!(r.position(), 3);
    assert_eq!(parse_object(&mut r), Ok(PdfObject::String(b"s".to_vec())));
    assert_eq!(r.position(), 7);
    assert_eq!(parse_object(&mut r), Err(ExtractError::MalformedObject));
    assert_eq!(r.position(), 7);
    assert_eq!(r.seek(9), Ok(()));
    assert_eq!(parse_object(&mut r), Ok(name("N")));
    assert_eq!(parse_object(&mut r), Err(ExtractError::TruncatedInput));
    assert_eq!(r.position(), 12);
}

#[test]
fn tokens_are_operands_operators_or_junk() {
    assert_eq!(next_token_at(b" 12 Tj", 0), (Token::Operand(PdfObject::Integer(12)), 3));
    assert_eq!(next_token_at(b" 12 Tj", 3), (Token::Operator(b"Tj".to_vec()), 6));
    assert_eq!(next_token_at(b" 12 Tj", 6), (Token::End, 6));
    assert_eq!(next_token_at(b"  ) x", 0), (Token::Junk, 3));
    assert_eq!(next_token_at(b"[1 2", 0), (Token::Junk, 1));
    assert_eq!(next_token_at(b"T* x", 0), (Token::Operator(b"T*".to_vec()), 2));
    let mut r = ByteReader::new(b"/F1 9 Tf");
    assert_eq!(next_token(&mut r), Token::Operand(name("F1")));
    assert_eq!(next_token(&mut r), Token::Operand(PdfObject::Integer(9)));
    assert_eq!(next_token(&mut r), Token::Operator(b"Tf".to_vec()));
    assert_eq!(next_token(&mut r), Token::End);
    assert_eq!(r.position(), 8);
}
