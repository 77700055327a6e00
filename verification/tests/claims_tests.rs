use zkpdf_lib::{
    extract_text_from_pdf, validate_input, verify_pdf_claim, verify_substring_at_offset,
    PDFCircuitInput, PDFVerificationError, PDFVerificationResult,
};

#[test]
fn test_verify_pdf_claim_success() {
    let input = PDFCircuitInput {
        pdf_bytes: b"Important Document - This is a test PDF".to_vec(),
        page_number: 0,
        offset: 0,
        substring: "Important Document".to_string(),
    };

    let result = verify_pdf_claim(input).unwrap();
    assert!(result.verified);
    assert_eq!(result.page_number, 0);
    assert_eq!(result.offset, 0);
    assert_eq!(result.substring, "Important Document");
}

#[test]
fn test_verify_pdf_claim_substring_not_at_offset() {
    let input = PDFCircuitInput {
        pdf_bytes: b"Important Document - This is a test PDF".to_vec(),
        page_number: 0,
        offset: 10,
        substring: "Important Document".to_string(),
    };

    let result = verify_pdf_claim(input).unwrap();
    assert!(!result.verified);
}

#[test]
fn test_verify_pdf_claim_empty_pdf() {
    let input = PDFCircuitInput {
        pdf_bytes: vec![],
        page_number: 0,
        offset: 0,
        substring: "Important Document".to_string(),
    };

    let result = verify_pdf_claim(input);
    assert!(result.is_err());
    assert_eq!(result.unwrap_err(), PDFVerificationError::EmptyPDFData);
}

#[test]
fn test_verify_pdf_claim_empty_substring() {
    let input = PDFCircuitInput {
        pdf_bytes: b"Important Document".to_vec(),
        page_number: 0,
        offset: 0,
        substring: String::new(),
    };

    let result = verify_pdf_claim(input);
    assert!(result.is_err());
    assert_eq!(result.unwrap_err(), PDFVerificationError::EmptySubstring);
}

#[test]
fn test_verify_pdf_claim_offset_out_of_bounds() {
    let input = PDFCircuitInput {
        pdf_bytes: b"Short".to_vec(),
        page_number: 0,
        offset: 1000,
        substring: "Document".to_string(),
    };

    let result = verify_pdf_claim(input);
    assert!(result.is_err());
    assert_eq!(result.unwrap_err(), PDFVerificationError::OffsetOutOfBounds);
}

#[test]
fn test_verify_pdf_claim_invalid_page_number() {
    let input = PDFCircuitInput {
        pdf_bytes: b"Important Document".to_vec(),
        page_number: 20000,
        offset: 0,
        substring: "Important".to_string(),
    };

    let result = verify_pdf_claim(input);
    assert!(result.is_err());
    assert_eq!(
        result.unwrap_err(),
        PDFVerificationError::InvalidPageNumber(20000)
    );
}

#[test]
fn test_verify_substring_at_offset() {
    assert!(verify_substring_at_offset("Hello World", 0, "Hello"));
    assert!(verify_substring_at_offset("Hello World", 6, "World"));
    assert!(!verify_substring_at_offset("Hello World", 0, "World"));
    assert!(!verify_substring_at_offset("Hello World", 100, "Test"));
}

#[test]
fn test_extract_text_from_pdf() {
    let pdf_bytes = b"Test PDF content";
    let text = extract_text_from_pdf(pdf_bytes);
    assert_eq!(text, "Test PDF content");
}

#[test]
fn test_validate_input_success() {
    let input = PDFCircuitInput {
        pdf_bytes: b"Test".to_vec(),
        page_number: 0,
        offset: 0,
        substring: "Test".to_string(),
    };
    assert!(validate_input(&input).is_ok());
}

#[test]
fn test_problem_statement_usage() {
    let pdf_data =
        b"Some content before... Important Document - This is the content we're looking for"
            .to_vec();

    let input = PDFCircuitInput {
        pdf_bytes: pdf_data,
        page_number: 0,
        offset: 23,
        substring: "Important Document".to_string(),
    };

    let result = verify_pdf_claim(input).expect("Verification should succeed");

    assert!(result.verified, "PDF verification should succeed");
    assert_eq!(result.substring, "Important Document");
    assert_eq!(result.page_number, 0);
    assert_eq!(result.offset, 23);
}

#[test]
fn test_problem_statement_exact_offset() {
    let mut pdf_data = vec![0u8; 100];
    pdf_data.extend_from_slice(b"Important Document");

    let input = PDFCircuitInput {
        pdf_bytes: pdf_data,
        page_number: 0,
        offset: 100,
        substring: "Important Document".to_string(),
    };

    let result = verify_pdf_claim(input).expect("Verification should succeed");

    assert!(result.verified, "PDF verification at offset 100 should succeed");
}

#[test]
fn test_multiple_verifications() {
    let pdf_data = b"Header - Important Document - Footer".to_vec();

    let input1 = PDFCircuitInput {
        pdf_bytes: pdf_data.clone(),
        page_number: 0,
        offset: 0,
        substring: "Header".to_string(),
    };
    let result1 = verify_pdf_claim(input1).unwrap();
    assert!(result1.verified);

    let input2 = PDFCircuitInput {
        pdf_bytes: pdf_data.clone(),
        page_number: 0,
        offset: 9,
        substring: "Important Document".to_string(),
    };
    let result2 = verify_pdf_claim(input2).unwrap();
    assert!(result2.verified);

    let input3 = PDFCircuitInput {
        pdf_bytes: pdf_data,
        page_number: 0,
        offset: 30,
        substring: "Footer".to_string(),
    };
    let result3 = verify_pdf_claim(input3).unwrap();
    assert!(result3.verified);
}

#[test]
fn test_verification_with_result_operator() {
    fn verify_document() -> PDFVerificationResult<()> {
        let pdf_data = vec![b'A'; 150];
        let mut full_data = pdf_data;
        full_data.extend_from_slice(b"Important Document");

        let input = PDFCircuitInput {
            pdf_bytes: full_data,
            page_number: 0,
            offset: 150,
            substring: "Important Document".to_string(),
        };

        let result = verify_pdf_claim(input)?;
        assert!(result.verified);
        Ok(())
    }

    verify_document().expect("Verification with ? operator should work");
}
