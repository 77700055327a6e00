//! Validation and verification of claim requests.

use vstd::prelude::*;
use vstd::utf8::encode_utf8;

use crate::decimal::{metadata_chars, metadata_string};
use crate::text::{extract_text_from_pdf, lossy_decode};
use crate::{
    MAX_PAGE_NUMBER, PDFCircuitInput, PDFVerificationError, PDFVerificationProof,
    PDFVerificationResult,
};

verus! {

/// The outcome of validating a claim request, with the first violated
/// constraint winning: empty document, then empty substring, then page number
/// out of range, then offset at or past the end of the document, then offset
/// plus substring byte length overflowing the machine's word.
pub open spec fn spec_validate(input: PDFCircuitInput) -> Result<(), PDFVerificationError> {
    if input.pdf_bytes@.len() == 0 {
        Err(PDFVerificationError::EmptyPDFData)
    } else if input.substring@.len() == 0 {
        Err(PDFVerificationError::EmptySubstring)
    } else if input.page_number > MAX_PAGE_NUMBER {
        Err(PDFVerificationError::InvalidPageNumber(input.page_number))
    } else if input.offset >= input.pdf_bytes@.len() {
        Err(PDFVerificationError::OffsetOutOfBounds)
    } else if input.offset + encode_utf8(input.substring@).len() > usize::MAX {
        Err(PDFVerificationError::InvalidOffset(input.offset))
    } else {
        Ok(())
    }
}

/// Validate the parameters of a claim request.
pub fn validate_input(input: &PDFCircuitInput) -> (r: PDFVerificationResult<()>)
    ensures
        r == spec_validate(*input),
{
    if input.pdf_bytes.len() == 0 {
        return Err(PDFVerificationError::EmptyPDFData);
    }
    if input.substring.as_str().is_empty() {
        return Err(PDFVerificationError::EmptySubstring);
    }
    if input.page_number > MAX_PAGE_NUMBER {
        return Err(PDFVerificationError::InvalidPageNumber(input.page_number));
    }
    if input.offset >= input.pdf_bytes.len() {
        return Err(PDFVerificationError::OffsetOutOfBounds);
    }
    let substring_byte_len = input.substring.as_str().as_bytes().len();
    if input.offset.checked_add(substring_byte_len).is_none() {
        return Err(PDFVerificationError::InvalidOffset(input.offset));
    }
    Ok(())
}

/// True when the bytes of `substring` occur exactly at byte position
/// `offset` of the UTF-8 encoding of `text`.
pub open spec fn substring_matches_at(text: Seq<char>, offset: int, substring: Seq<char>) -> bool {
    &&& offset + encode_utf8(substring).len() <= encode_utf8(text).len()
    &&& encode_utf8(text).subrange(offset, offset + encode_utf8(substring).len() as int)
        == encode_utf8(substring)
}

/// Verify that the substring's bytes occur at the specified byte offset of
/// the text.  An offset or length that reaches past the end of the text
/// means the substring is not there; it is never an error.
pub fn verify_substring_at_offset(text: &str, offset: usize, substring: &str) -> (r: bool)
    ensures
        r == substring_matches_at(text@, offset as int, substring@),
{
    let text_bytes = text.as_bytes();
    let substring_bytes = substring.as_bytes();
    let text_len = text_bytes.len();
    let substring_len = substring_bytes.len();
    if offset > text_len || substring_len > text_len - offset {
        return false;
    }
    let mut j: usize = 0;
    while j < substring_len
        invariant
            j <= substring_len,
            offset + substring_len <= text_len,
            text_len == text_bytes@.len(),
            substring_len == substring_bytes@.len(),
            text_bytes@ == encode_utf8(text@),
            substring_bytes@ == encode_utf8(substring@),
            forall|k: int| 0 <= k < j ==> text_bytes@[offset + k] == substring_bytes@[k],
        decreases substring_len - j,
    {
        if text_bytes[offset + j] != substring_bytes[j] {
            proof {
                assert(encode_utf8(text@).subrange(
                    offset as int,
                    offset + encode_utf8(substring@).len() as int,
                )[j as int] == encode_utf8(text@)[offset + j]);
            }
            return false;
        }
        j = j + 1;
    }
    proof {
        assert(encode_utf8(text@).subrange(
            offset as int,
            offset + encode_utf8(substring@).len() as int,
        ) =~= encode_utf8(substring@));
    }
    true
}

/// Verify a claim about a document.
///
/// The request is validated first; the outcome of [`spec_validate`] names
/// the error, if any.  On a valid request, the document bytes are decoded
/// to text and the result reports whether the substring's bytes occur at
/// the stated offset of that text; a mismatch is a normal outcome, never an
/// error.
pub fn verify_pdf_claim(input: PDFCircuitInput) -> (r: PDFVerificationResult<
    PDFVerificationProof,
>)
    ensures
        spec_validate(input) matches Err(e) ==> r == Err::<PDFVerificationProof,
        PDFVerificationError>(e),
        spec_validate(input) is Ok ==> (r matches Ok(result) && {
            &&& result.verified == substring_matches_at(
                lossy_decode(input.pdf_bytes@),
                input.offset as int,
                input.substring@,
            )
            &&& result.page_number == input.page_number
            &&& result.offset == input.offset
            &&& result.substring@ == input.substring@
            &&& result.metadata@ == metadata_chars(input.pdf_bytes@.len())
        }),
{
    if let Err(e) = validate_input(&input) {
        return Err(e);
    }
    let pdf_text = extract_text_from_pdf(input.pdf_bytes.as_slice());
    let verified = verify_substring_at_offset(
        pdf_text.as_str(),
        input.offset,
        input.substring.as_str(),
    );
    let metadata = metadata_string(input.pdf_bytes.len());
    Ok(
        PDFVerificationProof {
            verified,
            page_number: input.page_number,
            offset: input.offset,
            substring: input.substring,
            metadata,
        },
    )
}

/// Law: a request with a non-empty document, a non-empty substring, a page
/// number within range, an offset inside the document, and no length
/// overflow passes validation, so verification reports a result rather than
/// an error, and its `verified` flag equals the match condition by the
/// contract of [`verify_pdf_claim`].
pub proof fn lemma_valid_request_passes_validation(input: PDFCircuitInput)
    requires
        input.pdf_bytes@.len() > 0,
        input.substring@.len() > 0,
        input.page_number <= MAX_PAGE_NUMBER,
        input.offset < input.pdf_bytes@.len(),
        input.offset + encode_utf8(input.substring@).len() <= usize::MAX,
    ensures
        spec_validate(input) == Ok::<(), PDFVerificationError>(()),
{
}

/// Law: an empty document is rejected with `EmptyPDFData`, whatever the
/// other fields hold.
pub proof fn lemma_empty_document_rejected(input: PDFCircuitInput)
    requires
        input.pdf_bytes@.len() == 0,
    ensures
        spec_validate(input) == Err::<(), PDFVerificationError>(PDFVerificationError::EmptyPDFData),
{
}

/// Law: an empty substring in a non-empty document is rejected with
/// `EmptySubstring`, whatever the other fields hold.
pub proof fn lemma_empty_substring_rejected(input: PDFCircuitInput)
    requires
        input.pdf_bytes@.len() > 0,
        input.substring@.len() == 0,
    ensures
        spec_validate(input) == Err::<(), PDFVerificationError>(
            PDFVerificationError::EmptySubstring,
        ),
{
}

/// Law: a page number above [`MAX_PAGE_NUMBER`] is rejected with
/// `InvalidPageNumber` carrying that page number, once the document and the
/// substring are non-empty.
pub proof fn lemma_page_number_rejected(input: PDFCircuitInput)
    requires
        input.pdf_bytes@.len() > 0,
        input.substring@.len() > 0,
        input.page_number > MAX_PAGE_NUMBER,
    ensures
        spec_validate(input) == Err::<(), PDFVerificationError>(
            PDFVerificationError::InvalidPageNumber(input.page_number),
        ),
{
}

/// Law: an offset at or beyond the document's length is rejected with
/// `OffsetOutOfBounds`, once the document and the substring are non-empty
/// and the page number is within range.
pub proof fn lemma_offset_out_of_bounds_rejected(input: PDFCircuitInput)
    requires
        input.pdf_bytes@.len() > 0,
        input.substring@.len() > 0,
        input.page_number <= MAX_PAGE_NUMBER,
        input.offset >= input.pdf_bytes@.len(),
    ensures
        spec_validate(input) == Err::<(), PDFVerificationError>(
            PDFVerificationError::OffsetOutOfBounds,
        ),
{
}

} // verus!
