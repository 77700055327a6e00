//! A byte codec for claim requests.
//!
//! A request is framed as: page number (4 bytes, little endian), offset
//! (8 bytes, little endian), document length (8 bytes, little endian), the
//! document bytes, substring byte length (8 bytes, little endian), and the
//! substring's UTF-8 bytes.  Decoding accepts exactly the well-formed
//! framings and restores every field; [`lemma_request_round_trip`] states
//! the round trip.

use vstd::bytes::*;
use vstd::prelude::*;
use vstd::slice::{slice_subrange, slice_to_vec};
use vstd::utf8::*;

use crate::PDFCircuitInput;
use crate::text::{is_valid_utf8_bytes, lemma_encode_utf8_injective, string_from_utf8_bytes};

verus! {

/// The framed bytes of a claim request.
pub open spec fn spec_encode_request(req: PDFCircuitInput) -> Seq<u8> {
    spec_u32_to_le_bytes(req.page_number) + spec_u64_to_le_bytes(req.offset as u64)
        + spec_u64_to_le_bytes(req.pdf_bytes@.len() as u64) + req.pdf_bytes@
        + spec_u64_to_le_bytes(encode_utf8(req.substring@).len() as u64) + encode_utf8(
        req.substring@,
    )
}

/// The fields recovered from framed bytes: page number, offset, document
/// bytes, and substring characters; `None` when the framing is not
/// well-formed.
pub open spec fn spec_decode_request(bytes: Seq<u8>) -> Option<(u32, usize, Seq<u8>, Seq<char>)> {
    if bytes.len() < 20 {
        None
    } else {
        let page_number = spec_u32_from_le_bytes(bytes.subrange(0, 4));
        let offset64 = spec_u64_from_le_bytes(bytes.subrange(4, 12));
        let pdf_len64 = spec_u64_from_le_bytes(bytes.subrange(12, 20));
        if offset64 > usize::MAX as u64 || pdf_len64 as int > bytes.len() - 20 {
            None
        } else {
            let pdf_end = 20 + pdf_len64 as int;
            if bytes.len() - pdf_end < 8 {
                None
            } else {
                let sub_len64 = spec_u64_from_le_bytes(bytes.subrange(pdf_end, pdf_end + 8));
                let sub_start = pdf_end + 8;
                if sub_len64 as int != bytes.len() - sub_start {
                    None
                } else {
                    let sub_bytes = bytes.subrange(sub_start, bytes.len() as int);
                    if valid_utf8(sub_bytes) {
                        Some(
                            (
                                page_number,
                                offset64 as usize,
                                bytes.subrange(20, pdf_end),
                                decode_utf8(sub_bytes),
                            ),
                        )
                    } else {
                        None
                    }
                }
            }
        }
    }
}

/// Frame a claim request as bytes.
pub fn encode_request(req: &PDFCircuitInput) -> (out: Vec<u8>)
    ensures
        out@ == spec_encode_request(*req),
{
    let mut out = u32_to_le_bytes(req.page_number);
    let mut offset_bytes = u64_to_le_bytes(req.offset as u64);
    out.append(&mut offset_bytes);
    let mut pdf_len_bytes = u64_to_le_bytes(req.pdf_bytes.len() as u64);
    out.append(&mut pdf_len_bytes);
    let mut pdf_copy = slice_to_vec(req.pdf_bytes.as_slice());
    out.append(&mut pdf_copy);
    let sub_bytes = req.substring.as_str().as_bytes();
    let mut sub_len_bytes = u64_to_le_bytes(sub_bytes.len() as u64);
    out.append(&mut sub_len_bytes);
    let mut sub_copy = slice_to_vec(sub_bytes);
    out.append(&mut sub_copy);
    proof {
        assert(out@ =~= spec_encode_request(*req));
    }
    out
}

/// Recover a claim request from framed bytes; `None` when the framing is
/// not well-formed.
pub fn decode_request(bytes: &[u8]) -> (r: Option<PDFCircuitInput>)
    ensures
        spec_decode_request(bytes@) is None ==> r is None,
        spec_decode_request(bytes@) matches Some(fields) ==> (r matches Some(req) && {
            &&& req.page_number == fields.0
            &&& req.offset == fields.1
            &&& req.pdf_bytes@ == fields.2
            &&& req.substring@ == fields.3
        }),
{
    let n = bytes.len();
    if n < 20 {
        return None;
    }
    let page_number = u32_from_le_bytes(slice_subrange(bytes, 0, 4));
    let offset64 = u64_from_le_bytes(slice_subrange(bytes, 4, 12));
    let pdf_len64 = u64_from_le_bytes(slice_subrange(bytes, 12, 20));
    if offset64 > usize::MAX as u64 {
        return None;
    }
    let offset = offset64 as usize;
    if pdf_len64 > (n - 20) as u64 {
        return None;
    }
    let pdf_len = pdf_len64 as usize;
    let pdf_end = 20 + pdf_len;
    let pdf_bytes = slice_to_vec(slice_subrange(bytes, 20, pdf_end));
    if n - pdf_end < 8 {
        return None;
    }
    let sub_len64 = u64_from_le_bytes(slice_subrange(bytes, pdf_end, pdf_end + 8));
    let sub_start = pdf_end + 8;
    if sub_len64 != (n - sub_start) as u64 {
        return None;
    }
    let sub_slice = slice_subrange(bytes, sub_start, n);
    if !is_valid_utf8_bytes(sub_slice) {
        return None;
    }
    let substring = string_from_utf8_bytes(slice_to_vec(sub_slice));
    proof {
        decode_utf8_encode_utf8(sub_slice@);
        lemma_encode_utf8_injective(substring@, decode_utf8(sub_slice@));
    }
    Some(PDFCircuitInput { pdf_bytes, page_number, offset, substring })
}

/// Law: decoding the framed bytes of any claim request restores every field
/// of the request exactly.
pub proof fn lemma_request_round_trip(req: PDFCircuitInput)
    requires
        req.pdf_bytes@.len() <= usize::MAX,
        encode_utf8(req.substring@).len() <= usize::MAX,
    ensures
        spec_decode_request(spec_encode_request(req)) == Some(
            (req.page_number, req.offset, req.pdf_bytes@, req.substring@),
        ),
{
    lemma_auto_spec_u32_to_from_le_bytes();
    lemma_auto_spec_u64_to_from_le_bytes();
    let enc = spec_encode_request(req);
    let page = spec_u32_to_le_bytes(req.page_number);
    let off = spec_u64_to_le_bytes(req.offset as u64);
    let pdf_len_bytes = spec_u64_to_le_bytes(req.pdf_bytes@.len() as u64);
    let sub_bytes = encode_utf8(req.substring@);
    let sub_len_bytes = spec_u64_to_le_bytes(sub_bytes.len() as u64);
    let p = req.pdf_bytes@.len() as int;
    let s = sub_bytes.len() as int;
    assert(enc.len() == 28 + p + s);
    assert(enc.subrange(0, 4) =~= page);
    assert(enc.subrange(4, 12) =~= off);
    assert(enc.subrange(12, 20) =~= pdf_len_bytes);
    assert(spec_u64_from_le_bytes(enc.subrange(4, 12)) == req.offset as u64);
    assert(spec_u64_from_le_bytes(enc.subrange(12, 20)) == req.pdf_bytes@.len() as u64);
    let pdf_end = 20 + p;
    assert(enc.subrange(20, pdf_end) =~= req.pdf_bytes@);
    assert(enc.subrange(pdf_end, pdf_end + 8) =~= sub_len_bytes);
    assert(spec_u64_from_le_bytes(enc.subrange(pdf_end, pdf_end + 8)) == sub_bytes.len() as u64);
    assert(enc.subrange(pdf_end + 8, enc.len() as int) =~= sub_bytes);
    encode_utf8_valid_utf8(req.substring@);
    encode_utf8_decode_utf8(req.substring@);
}

} // verus!
