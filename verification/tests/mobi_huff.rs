use shiori::mobi_huff::{decompress, HuffmanError};

fn be32(v: u32) -> [u8; 4] {
    v.to_be_bytes()
}

/// A HUFF record whose 256 code entries all have length 31, the terminal
/// flag, and the given max code field.
fn huff_record(max_code_field: impl Fn(usize) -> u32) -> Vec<u8> {
    let mut r = Vec::new();
    r.extend_from_slice(b"HUFF");
    r.extend_from_slice(&be32(0x18));
    r.extend_from_slice(&be32(24));
    r.extend_from_slice(&be32(24 + 1024));
    r.extend_from_slice(&[0u8; 8]);
    for i in 0..256 {
        r.extend_from_slice(&be32((max_code_field(i) << 8) | 0x80 | 31));
    }
    for _ in 0..64 {
        r.extend_from_slice(&be32(0));
    }
    r
}

/// A CDIC record holding the given phrases (bytes, literal flag).
fn cdic_record(phrases: &[(&[u8], bool)]) -> Vec<u8> {
    let mut r = Vec::new();
    r.extend_from_slice(b"CDIC");
    r.extend_from_slice(&be32(0x10));
    r.extend_from_slice(&be32(phrases.len() as u32));
    r.extend_from_slice(&be32(8));
    let mut body = Vec::new();
    let mut offsets = Vec::new();
    let table_len = 2 * phrases.len();
    for (bytes, flag) in phrases {
        offsets.push((table_len + body.len()) as u16);
        let hdr = bytes.len() as u16 | if *flag { 0x8000 } else { 0 };
        body.extend_from_slice(&hdr.to_be_bytes());
        body.extend_from_slice(bytes);
    }
    for o in offsets {
        r.extend_from_slice(&o.to_be_bytes());
    }
    r.extend_from_slice(&body);
    r
}

#[test]
fn decompress_literal_phrases() {
    let huff = huff_record(|_| 0);
    let cdic = cdic_record(&[(b"ab", true)]);
    let section = [0u8; 8];
    let out = decompress(&[&huff, &cdic], &[&section]).unwrap();
    assert_eq!(out, vec![b"ababab".to_vec()]);
}

#[test]
fn decompress_expands_nested_phrase_once_per_use() {
    // Entry 0 selects phrase 0 ("ab", literal); entry 1 selects phrase 1,
    // a compressed stream of zero bits that expands to "ababab".
    let huff = huff_record(|i| if i == 1 { 0x80_0001 } else { 0 });
    let nested = [0u8; 8];
    let cdic = cdic_record(&[(b"ab", true), (&nested, false)]);
    let section = [1u8, 0, 0, 0, 0, 0, 0, 0];
    let out = decompress(&[&huff, &cdic], &[&section, &section]).unwrap();
    assert_eq!(out.len(), 2);
    assert_eq!(out[0], b"ababababab".to_vec());
    assert_eq!(out[1], b"ababababab".to_vec());
}

#[test]
fn decompress_self_referencing_phrase_is_an_error() {
    let huff = huff_record(|_| 0);
    let nested = [0u8; 8];
    let cdic = cdic_record(&[(&nested, false)]);
    let section = [0u8; 8];
    let r = decompress(&[&huff, &cdic], &[&section]);
    assert!(matches!(r, Err(HuffmanError::InvalidDictionaryIndex)));
}

#[test]
fn decompress_rejects_bad_headers() {
    assert!(matches!(decompress(&[], &[]), Err(HuffmanError::InvalidHuffHeader)));
    let mut huff = huff_record(|_| 0);
    huff[0] = b'X';
    assert!(matches!(decompress(&[&huff], &[]), Err(HuffmanError::InvalidHuffHeader)));
    let huff = huff_record(|_| 0);
    let mut cdic = cdic_record(&[(b"ab", true)]);
    cdic[7] = 0x11;
    assert!(matches!(decompress(&[&huff, &cdic], &[]), Err(HuffmanError::InvalidCDICHeader)));
    assert!(matches!(decompress(&[b"HUF"], &[]), Err(HuffmanError::IoError(_))));
}

#[test]
fn decompress_rejects_bad_code_entries() {
    let mut huff = huff_record(|_| 0);
    // Code length 0.
    huff[24..28].copy_from_slice(&be32(0x80));
    assert!(matches!(decompress(&[&huff], &[]), Err(HuffmanError::CodeLenOutOfBounds)));
    let mut huff = huff_record(|_| 0);
    // Short code without the terminal flag.
    huff[24..28].copy_from_slice(&be32(8));
    assert!(matches!(decompress(&[&huff], &[]), Err(HuffmanError::BadTerm)));
}

#[test]
fn decompress_short_section_and_empty_sections() {
    let huff = huff_record(|_| 0);
    let cdic = cdic_record(&[(b"ab", true)]);
    assert!(matches!(decompress(&[&huff, &cdic], &[&[0u8; 7]]), Err(HuffmanError::IoError(_))));
    assert_eq!(decompress(&[&huff, &cdic], &[]).unwrap(), Vec::<Vec<u8>>::new());
}

#[test]
fn decompress_out_of_range_index_is_an_error() {
    // Max code field 2 selects index 2, but the dictionary has one phrase.
    let huff = huff_record(|_| 2);
    let cdic = cdic_record(&[(b"ab", true)]);
    let r = decompress(&[&huff, &cdic], &[&[0u8; 8]]);
    assert!(matches!(r, Err(HuffmanError::InvalidDictionaryIndex)));
}
