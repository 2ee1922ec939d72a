use pdf_text::ascii85::{ascii85_decode, ascii85_encode};
use pdf_text::asciihex::{hex_decode, hex_encode};
use pdf_text::error::ExtractError;
use pdf_text::filter::{apply_filter, decode};
use pdf_text::flate::{flate_decode, flate_encode};
use pdf_text::inflate::{build_huffman, decode_symbol, inflate, read_bits, BitCursor};
use pdf_text::object::{parse_value, DictEntry, PdfObject};
use pdf_text::predictor::{unpredict, Predictor};
use pdf_text::runlength::{run_length_decode, run_length_encode};
use std::io::{Read, Write};

fn sample(n: usize) -> Vec<u8> {
    let mut v = Vec::with_capacity(n);
    let mut x: u32 = 12345;
    for i in 0..n {
        x = x.wrapping_mul(1103515245).wrapping_add(12345);
        if i % 7 < 4 {
            v.push(b'a' + ((x >> 16) % 5) as u8);
        } else {
            v.push((x >> 16) as u8);
        }
    }
    v
}

fn zlib(data: &[u8], level: u32) -> Vec<u8> {
    let mut e = flate2::write::ZlibEncoder::new(Vec::new(), flate2::Compression::new(level));
    e.write_all(data).unwrap();
    e.finish().unwrap()
}

#[test]
fn hex_decodes_digits_and_skips_blanks() {
    assert_eq!(hex_decode(b"48 65\n6C6c6F>ignored").unwrap(), b"Hello".to_vec());
}

#[test]
fn hex_pads_a_lone_final_digit() {
    assert_eq!(hex_decode(b"414>").unwrap(), vec![0x41, 0x40]);
}

#[test]
fn hex_rejects_other_bytes() {
    assert_eq!(hex_decode(b"4G>"), Err(ExtractError::DecodeError));
}

#[test]
fn hex_encode_is_upper_case_with_end_marker() {
    assert_eq!(hex_encode(&[0x00, 0xAB, 0x7f]), b"00AB7F>".to_vec());
}

#[test]
fn hex_round_trip() {
    let data = sample(1000);
    assert_eq!(hex_decode(&hex_encode(&data)).unwrap(), data);
}

#[test]
fn run_length_decodes_copies_and_repeats() {
    let enc = [2u8, b'a', b'b', b'c', 254, b'x', 128, 9, 9];
    assert_eq!(run_length_decode(&enc).unwrap(), b"abcxxx".to_vec());
}

#[test]
fn run_length_rejects_a_short_run() {
    assert_eq!(run_length_decode(&[5u8, 1, 2]), Err(ExtractError::DecodeError));
    assert_eq!(run_length_decode(&[200u8]), Err(ExtractError::DecodeError));
}

#[test]
fn run_length_round_trip() {
    for n in [0usize, 1, 127, 128, 129, 1000] {
        let data = sample(n);
        assert_eq!(run_length_decode(&run_length_encode(&data)).unwrap(), data);
    }
}

#[test]
fn flate_decodes_stored_fixed_and_dynamic_blocks() {
    for n in [0usize, 1, 10, 300, 5000, 70000] {
        let data = sample(n);
        for level in [0u32, 1, 6, 9] {
            assert_eq!(flate_decode(&zlib(&data, level)).unwrap(), data);
        }
    }
}

#[test]
fn flate_decodes_long_matches() {
    let mut data = Vec::new();
    for i in 0..40000u32 {
        data.push((i % 3) as u8);
    }
    assert_eq!(flate_decode(&zlib(&data, 9)).unwrap(), data);
}

#[test]
fn flate_rejects_bad_envelope_and_truncation() {
    assert_eq!(flate_decode(&[]), Err(ExtractError::DecodeError));
    assert_eq!(flate_decode(&[0x79, 0x01, 1, 0, 0, 255, 255]), Err(ExtractError::DecodeError));
    let z = zlib(&sample(500), 6);
    assert_eq!(flate_decode(&z[..z.len() / 2]), Err(ExtractError::DecodeError));
}

#[test]
fn flate_round_trip() {
    for n in [0usize, 1, 65535, 65536, 140000] {
        let data = sample(n);
        assert_eq!(flate_decode(&flate_encode(&data)).unwrap(), data);
    }
}

#[test]
fn flate_encode_is_read_by_zlib() {
    let data = sample(70000);
    let enc = flate_encode(&data);
    let mut d = flate2::read::ZlibDecoder::new(&enc[..]);
    let mut out = Vec::new();
    d.read_to_end(&mut out).unwrap();
    assert_eq!(out, data);
}

fn dict(text: &str) -> Vec<DictEntry> {
    match parse_value(text.as_bytes(), 0, 8).unwrap().0 {
        PdfObject::Dictionary(d) => d,
        _ => unreachable!(),
    }
}

#[test]
fn ascii85_decodes_groups() {
    assert_eq!(ascii85_decode(b"87cURD]i,\"Ebo80~>").unwrap(), b"Hello World!".to_vec());
    assert_eq!(ascii85_decode(b"<~87cUR D]i,\"\nEbo80~>").unwrap(), b"Hello World!".to_vec());
    assert_eq!(ascii85_decode(b"z!!!!!~>").unwrap(), vec![0u8; 8]);
    assert_eq!(ascii85_decode(b"s8W-!").unwrap(), vec![255u8; 4]);
    assert_eq!(ascii85_decode(b"").unwrap(), Vec::<u8>::new());
}

#[test]
fn ascii85_decodes_what_is_left_at_the_end() {
    assert_eq!(ascii85_decode(b"5l~>").unwrap(), b"A".to_vec());
    assert_eq!(ascii85_decode(b"5sb~>").unwrap(), b"AB".to_vec());
    assert_eq!(ascii85_decode(b"5sdp~>").unwrap(), b"ABC".to_vec());
}

#[test]
fn ascii85_rejects_what_is_no_text() {
    assert_eq!(ascii85_decode(b"5~>"), Err(ExtractError::DecodeError));
    assert_eq!(ascii85_decode(b"ab{cd~>"), Err(ExtractError::DecodeError));
    assert_eq!(ascii85_decode(b"abzcd~>"), Err(ExtractError::DecodeError));
    assert_eq!(ascii85_decode(b"s8W-\"~>"), Err(ExtractError::DecodeError));
    assert_eq!(ascii85_decode(b"uuuuu~>"), Err(ExtractError::DecodeError));
}

#[test]
fn ascii85_encodes_groups() {
    assert_eq!(ascii85_encode(b"Hello World!"), b"87cURD]i,\"Ebo80~>".to_vec());
    assert_eq!(ascii85_encode(b"A"), b"5l~>".to_vec());
    assert_eq!(ascii85_encode(b"AB"), b"5sb~>".to_vec());
    assert_eq!(ascii85_encode(b"ABC"), b"5sdp~>".to_vec());
    assert_eq!(ascii85_encode(&[0, 0, 0, 0]), b"!!!!!~>".to_vec());
    assert_eq!(ascii85_encode(b""), b"~>".to_vec());
}

#[test]
fn ascii85_round_trip() {
    for n in [0usize, 1, 2, 3, 4, 5, 7, 8, 1000, 1001, 1002, 1003] {
        let data = sample(n);
        assert_eq!(ascii85_decode(&ascii85_encode(&data)).unwrap(), data);
    }
    let edge = [0xffu8, 0xff, 0xff, 0xff, 0, 0, 0, 0, 0xff, 0, 0xff];
    for n in 0..=edge.len() {
        assert_eq!(ascii85_decode(&ascii85_encode(&edge[..n])).unwrap(), edge[..n].to_vec());
    }
}

#[test]
fn encoders_write_what_decodes_to_itself_again() {
    let data = sample(777);
    let y = hex_encode(&data);
    assert_eq!(hex_encode(&hex_decode(&y).unwrap()), y);
    let y = ascii85_encode(&data);
    assert_eq!(ascii85_encode(&ascii85_decode(&y).unwrap()), y);
    let y = run_length_encode(&data);
    assert_eq!(run_length_encode(&run_length_decode(&y).unwrap()), y);
    let y = flate_encode(&data);
    assert_eq!(flate_encode(&flate_decode(&y).unwrap()), y);
}

#[test]
fn run_length_encodes_runs_of_copied_bytes() {
    assert_eq!(run_length_encode(b""), vec![128]);
    assert_eq!(run_length_encode(b"abc"), vec![2, b'a', b'b', b'c', 128]);
    let long = sample(130);
    let enc = run_length_encode(&long);
    assert_eq!(enc.len(), 130 + 3);
    assert_eq!(enc[0], 127);
    assert_eq!(enc[129], 1);
    assert_eq!(enc[132], 128);
}

#[test]
fn flate_encode_writes_stored_blocks() {
    assert_eq!(flate_encode(b""), vec![0x78, 0x01, 1, 0, 0, 0xff, 0xff, 0, 0, 0, 1]);
    assert_eq!(
        flate_encode(b"abc"),
        vec![0x78, 0x01, 1, 3, 0, 0xfc, 0xff, b'a', b'b', b'c', 0x02, 0x4d, 0x01, 0x27]
    );
}

#[test]
fn bits_are_read_least_significant_first() {
    let data = [0b1010_0101u8, 0b0000_1111];
    let c = BitCursor { byte: 0, bit: 0 };
    let (v, c) = read_bits(&data, c, 3).unwrap();
    assert_eq!(v, 0b101);
    let (v, c) = read_bits(&data, c, 7).unwrap();
    assert_eq!(v, 0b11_10100);
    assert_eq!((c.byte, c.bit), (1, 2));
    let (v, c) = read_bits(&data, c, 0).unwrap();
    assert_eq!(v, 0);
    assert!(read_bits(&data, c, 7).is_none());
    let (v, c) = read_bits(&data, c, 6).unwrap();
    assert_eq!(v, 0b000011);
    assert_eq!((c.byte, c.bit), (2, 0));
    assert!(read_bits(&data, c, 1).is_none());
    let (v, _) = read_bits(&[0xff, 0xff, 0xff], BitCursor { byte: 0, bit: 7 }, 16).unwrap();
    assert_eq!(v, 0xffff);
}

#[test]
fn prefix_codes_are_canonical() {
    let h = build_huffman(&[2, 1, 3, 3, 0]).unwrap();
    assert_eq!(h.count, vec![1, 1, 1, 2, 0, 0, 0, 0, 0, 0, 0, 0, 0, 0, 0, 0]);
    assert_eq!(h.symbol[..4], [1, 0, 2, 3]);
    // codes: 1 -> 0, 0 -> 10, 2 -> 110, 3 -> 111, first bit first
    let bits = [0u8, 1, 0, 1, 1, 0, 1, 1, 1];
    let mut packed = [0u8; 2];
    for (i, b) in bits.iter().enumerate() {
        packed[i / 8] |= b << (i % 8);
    }
    let c = BitCursor { byte: 0, bit: 0 };
    let (s, c) = decode_symbol(&h, &packed, c).unwrap();
    assert_eq!(s, 1);
    let (s, c) = decode_symbol(&h, &packed, c).unwrap();
    assert_eq!(s, 0);
    let (s, c) = decode_symbol(&h, &packed, c).unwrap();
    assert_eq!(s, 2);
    let (s, c) = decode_symbol(&h, &packed, c).unwrap();
    assert_eq!(s, 3);
    assert_eq!((c.byte, c.bit), (1, 1));
}

#[test]
fn prefix_codes_that_claim_too_much_are_refused() {
    assert!(build_huffman(&[1, 1, 1]).is_none());
    assert!(build_huffman(&[1, 2, 2, 2]).is_none());
    assert!(build_huffman(&[0u8; 321]).is_none());
    assert!(build_huffman(&[1, 1]).is_some());
    assert!(build_huffman(&[]).is_some());
    assert!(build_huffman(&[0, 0, 5]).is_some());
    let empty = build_huffman(&[0, 0]).unwrap();
    assert!(decode_symbol(&empty, &[0xff, 0xff], BitCursor { byte: 0, bit: 0 }).is_none());
}

#[test]
fn inflate_reads_raw_deflate_data() {
    let z = zlib(b"raw deflate data, raw deflate data", 6);
    assert_eq!(inflate(&z, 2).unwrap(), b"raw deflate data, raw deflate data".to_vec());
    assert_eq!(inflate(&[0x01, 0x01, 0x00, 0xfe, 0xff, 0x2a], 0).unwrap(), vec![0x2a]);
    assert_eq!(inflate(&[0x03, 0x00], 0).unwrap(), Vec::<u8>::new());
}

#[test]
fn inflate_rejects_broken_data() {
    assert!(inflate(&[], 0).is_none());
    assert!(inflate(&[0x07], 0).is_none());
    assert!(inflate(&[0x01, 0x01, 0x00, 0xff, 0xff, 0x2a], 0).is_none());
    assert!(inflate(&[0x01, 0x02, 0x00, 0xfd, 0xff, 0x2a], 0).is_none());
    // a match that reaches back before the start of the output
    assert!(inflate(&[0x03, 0x02, 0x00], 0).is_none());
    let mut z = zlib(&sample(3000), 9);
    let n = z.len();
    z.truncate(n - 10);
    assert!(inflate(&z, 2).is_none());
}

#[test]
fn predictor_rows_are_restored() {
    let pr = Predictor { kind: 12, colors: 1, bits: 8, columns: 3 };
    let rows = vec![2, 1, 2, 3, 2, 1, 1, 1, 1, 10, 1, 1, 0, 9, 8, 7, 3, 4, 4, 4, 4, 10, 20, 30];
    assert_eq!(
        unpredict(pr, rows).unwrap(),
        vec![1, 2, 3, 2, 3, 4, 10, 11, 12, 9, 8, 7, 8, 12, 13, 18, 38, 68]
    );
    assert_eq!(unpredict(pr, vec![2, 1, 2, 3, 2, 1]).unwrap(), vec![1, 2, 3]);
    assert_eq!(unpredict(pr, vec![2, 250, 0, 0, 2, 10, 0, 0]).unwrap(), vec![250, 0, 0, 4, 0, 0]);
}

#[test]
fn predictor_pixels_may_be_wider_than_a_byte() {
    let pr = Predictor { kind: 15, colors: 3, bits: 8, columns: 2 };
    assert_eq!(
        unpredict(pr, vec![1, 1, 2, 3, 1, 1, 1, 3, 5, 5, 5, 1, 1, 1]).unwrap(),
        vec![1, 2, 3, 2, 3, 4, 5, 6, 6, 4, 5, 6]
    );
}

#[test]
fn predictor_parameters_are_checked() {
    let data = vec![0u8, 1, 2, 3];
    assert_eq!(unpredict(Predictor { kind: 1, colors: 0, bits: 0, columns: 0 }, data.clone()), Ok(data.clone()));
    assert_eq!(unpredict(Predictor { kind: -4, colors: 1, bits: 8, columns: 1 }, data.clone()), Ok(data.clone()));
    assert_eq!(
        unpredict(Predictor { kind: 2, colors: 1, bits: 8, columns: 1 }, data.clone()),
        Err(ExtractError::UnsupportedFilter)
    );
    for pr in [
        Predictor { kind: 10, colors: 0, bits: 8, columns: 1 },
        Predictor { kind: 10, colors: 257, bits: 8, columns: 1 },
        Predictor { kind: 10, colors: 1, bits: 3, columns: 1 },
        Predictor { kind: 10, colors: 1, bits: 8, columns: 0 },
        Predictor { kind: 10, colors: 1, bits: 8, columns: i64::MAX },
    ] {
        assert_eq!(unpredict(pr, data.clone()), Err(ExtractError::DecodeError));
    }
    assert_eq!(
        unpredict(Predictor { kind: 10, colors: 1, bits: 8, columns: 1 }, vec![5, 1]),
        Err(ExtractError::DecodeError)
    );
}

#[test]
fn filters_are_chosen_by_name() {
    assert_eq!(apply_filter(b"ASCIIHexDecode", None, b"4142>"), Ok(b"AB".to_vec()));
    assert_eq!(apply_filter(b"ASCII85Decode", None, b"5sb~>"), Ok(b"AB".to_vec()));
    assert_eq!(apply_filter(b"RunLengthDecode", None, &[255, b'A', 128]), Ok(b"AA".to_vec()));
    assert_eq!(apply_filter(b"FlateDecode", None, &zlib(b"AB", 6)), Ok(b"AB".to_vec()));
    for n in ["LZWDecode", "DCTDecode", "JBIG2Decode", "Crypt", "", "flatedecode"] {
        assert_eq!(apply_filter(n.as_bytes(), None, b"x"), Err(ExtractError::UnsupportedFilter));
    }
}

#[test]
fn stream_dictionary_decides_the_decoding() {
    assert_eq!(decode(&dict("<< /Length 3 >>"), b"raw"), Ok(b"raw".to_vec()));
    assert_eq!(decode(&dict("<< /Filter null >>"), b"raw"), Ok(b"raw".to_vec()));
    assert_eq!(decode(&dict("<< /Filter [] >>"), b"raw"), Ok(b"raw".to_vec()));
    assert_eq!(decode(&dict("<< /Filter /ASCIIHexDecode >>"), b"41>"), Ok(b"A".to_vec()));
    assert_eq!(
        decode(&dict("<< /Filter [/ASCIIHexDecode /ASCII85Decode] >>"), b"35 73 62 7e 3e>"),
        Ok(b"AB".to_vec())
    );
    assert_eq!(
        decode(&dict("<< /Filter [/ASCII85Decode /ASCIIHexDecode] >>"), b"35 73 62 7e 3e>"),
        Err(ExtractError::DecodeError)
    );
    assert_eq!(decode(&dict("<< /Filter 7 >>"), b"x"), Err(ExtractError::UnsupportedFilter));
    assert_eq!(decode(&dict("<< /Filter [/ASCIIHexDecode 7] >>"), b"41>"), Err(ExtractError::UnsupportedFilter));
    assert_eq!(decode(&dict("<< /Filter 3 0 R >>"), b"x"), Err(ExtractError::UnsupportedFilter));
}

#[test]
fn decode_parameters_go_with_their_filter() {
    let rows = zlib(&[2, 1, 2, 2, 1, 1], 6);
    let hex: String = rows.iter().map(|b| format!("{:02X}", b)).collect::<String>() + ">";
    assert_eq!(
        decode(&dict("<< /Filter /FlateDecode /DecodeParms << /Predictor 12 /Columns 2 >> >>"), &rows),
        Ok(vec![1, 2, 2, 3])
    );
    assert_eq!(
        decode(&dict("<< /Filter [/FlateDecode] /DecodeParms [<< /Predictor 12 /Columns 2 >>] >>"), &rows),
        Ok(vec![1, 2, 2, 3])
    );
    assert_eq!(
        decode(
            &dict("<< /Filter [/ASCIIHexDecode /FlateDecode] /DecodeParms [null << /Predictor 12 /Columns 2 >>] >>"),
            hex.as_bytes()
        ),
        Ok(vec![1, 2, 2, 3])
    );
    assert_eq!(
        decode(
            &dict("<< /Filter [/ASCIIHexDecode /FlateDecode] /DecodeParms << /Predictor 12 /Columns 2 >> >>"),
            hex.as_bytes()
        ),
        Ok(vec![2, 1, 2, 2, 1, 1])
    );
}
