//! Claim verification for byte documents.
//!
//! A claim states that a given substring occurs at a given byte offset inside
//! a document supplied as raw bytes.  The library validates the request
//! (non-empty document, non-empty substring, page number within range, offset
//! inside the document, no length overflow), decodes the document bytes to
//! text with a lossy UTF-8 decoder that never fails, and reports whether the
//! substring's bytes occur exactly at the stated offset of the decoded text.

use vstd::prelude::*;

pub mod claims;
pub mod codec;
pub mod decimal;
pub mod text;

pub use claims::{
    lemma_empty_document_rejected, lemma_empty_substring_rejected,
    lemma_offset_out_of_bounds_rejected, lemma_page_number_rejected,
    lemma_valid_request_passes_validation, spec_validate, substring_matches_at, validate_input,
    verify_pdf_claim, verify_substring_at_offset,
};
pub use codec::{decode_request, encode_request, lemma_request_round_trip};
pub use text::{
    extract_text_from_pdf, is_valid_utf8_bytes, lemma_lossy_decode_of_ascii,
    lemma_lossy_decode_of_valid_utf8, lossy_decode,
};

verus! {

/// Largest page number a claim request may carry.
pub const MAX_PAGE_NUMBER: u32 = 10000;

/// Error types for claim verification.
///
/// Every variant describes an input-validation failure; a substring that is
/// merely absent at the stated offset is not an error.
#[derive(Debug, PartialEq, Eq)]
pub enum PDFVerificationError {
    /// The page number exceeds [`MAX_PAGE_NUMBER`].
    InvalidPageNumber(u32),
    /// The offset plus the substring's byte length would overflow.
    InvalidOffset(usize),
    /// No document bytes were supplied.
    EmptyPDFData,
    /// The substring was not found at the specified offset.
    SubstringNotFound,
    /// The search target is empty.
    EmptySubstring,
    /// The offset lies at or beyond the end of the document.
    OffsetOutOfBounds,
}

/// Result type for claim verification operations.
pub type PDFVerificationResult<T> = Result<T, PDFVerificationError>;

/// Input structure for a claim verification request.
#[derive(Debug, Clone)]
pub struct PDFCircuitInput {
    /// The raw bytes of the document.
    pub pdf_bytes: Vec<u8>,
    /// The page number to verify (0-indexed); a declared label only.
    pub page_number: u32,
    /// The byte offset within the document.
    pub offset: usize,
    /// The substring expected at the given offset.
    pub substring: String,
}

/// Verification result reporting the outcome of a claim check.
#[derive(Debug, Clone)]
pub struct PDFVerificationProof {
    /// Whether the substring was found at the stated offset.
    pub verified: bool,
    /// The page number that was verified.
    pub page_number: u32,
    /// The offset that was checked.
    pub offset: usize,
    /// The substring that was searched for.
    pub substring: String,
    /// Descriptive text about the verification.
    pub metadata: String,
}

} // verus!
