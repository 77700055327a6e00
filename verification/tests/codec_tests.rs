use zkpdf_lib::{decode_request, encode_request, PDFCircuitInput};

#[test]
fn test_pdf_circuit_input_serialization() {
    let input = PDFCircuitInput {
        pdf_bytes: b"Test".to_vec(),
        page_number: 0,
        offset: 100,
        substring: "Important Document".to_string(),
    };

    let serialized = encode_request(&input);
    let deserialized: PDFCircuitInput = decode_request(&serialized).unwrap();

    assert_eq!(input.pdf_bytes, deserialized.pdf_bytes);
    assert_eq!(input.page_number, deserialized.page_number);
    assert_eq!(input.offset, deserialized.offset);
    assert_eq!(input.substring, deserialized.substring);
}

#[test]
fn round_trip_empty_fields() {
    let input = PDFCircuitInput {
        pdf_bytes: vec![],
        page_number: 10000,
        offset: usize::MAX,
        substring: String::new(),
    };

    let serialized = encode_request(&input);
    let deserialized = decode_request(&serialized).unwrap();

    assert_eq!(deserialized.pdf_bytes, Vec::<u8>::new());
    assert_eq!(deserialized.page_number, 10000);
    assert_eq!(deserialized.offset, usize::MAX);
    assert_eq!(deserialized.substring, "");
}

#[test]
fn round_trip_non_ascii_substring() {
    let input = PDFCircuitInput {
        pdf_bytes: vec![0xFF, 0x00, 0x80],
        page_number: 7,
        offset: 2,
        substring: "r\u{E9}sum\u{E9} \u{1F4C4}".to_string(),
    };

    let serialized = encode_request(&input);
    let deserialized = decode_request(&serialized).unwrap();

    assert_eq!(deserialized.pdf_bytes, vec![0xFF, 0x00, 0x80]);
    assert_eq!(deserialized.page_number, 7);
    assert_eq!(deserialized.offset, 2);
    assert_eq!(deserialized.substring, "r\u{E9}sum\u{E9} \u{1F4C4}");
}

#[test]
fn encode_layout_is_little_endian() {
    let input = PDFCircuitInput {
        pdf_bytes: vec![0xAB, 0xCD],
        page_number: 0x0102,
        offset: 3,
        substring: "hi".to_string(),
    };

    let serialized = encode_request(&input);
    let expected: Vec<u8> = vec![
        0x02, 0x01, 0x00, 0x00, // page number
        3, 0, 0, 0, 0, 0, 0, 0, // offset
        2, 0, 0, 0, 0, 0, 0, 0, // document length
        0xAB, 0xCD, // document bytes
        2, 0, 0, 0, 0, 0, 0, 0, // substring byte length
        b'h', b'i', // substring bytes
    ];
    assert_eq!(serialized, expected);
}

#[test]
fn decode_rejects_truncated_input() {
    assert!(decode_request(&[]).is_none());
    assert!(decode_request(&[0u8; 19]).is_none());
    // Header only: a document length that reaches past the end.
    let mut bytes = vec![0u8; 20];
    bytes[12] = 5;
    assert!(decode_request(&bytes).is_none());
}

#[test]
fn decode_rejects_bad_substring_length() {
    let input = PDFCircuitInput {
        pdf_bytes: vec![1, 2, 3],
        page_number: 1,
        offset: 0,
        substring: "abc".to_string(),
    };
    let mut serialized = encode_request(&input);
    // One trailing byte that the substring length does not cover.
    serialized.push(b'x');
    assert!(decode_request(&serialized).is_none());
}

#[test]
fn decode_rejects_invalid_utf8_substring() {
    let input = PDFCircuitInput {
        pdf_bytes: vec![],
        page_number: 0,
        offset: 0,
        substring: "ab".to_string(),
    };
    let mut serialized = encode_request(&input);
    let n = serialized.len();
    serialized[n - 1] = 0xFF;
    assert!(decode_request(&serialized).is_none());
}
