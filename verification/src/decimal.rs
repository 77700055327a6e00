//! Decimal rendering of integers and the descriptive texts built from it.

use vstd::prelude::*;
use vstd::utf8::*;

use crate::PDFVerificationError;
use crate::text::{lemma_encode_utf8_injective, string_from_utf8_bytes};

verus! {

/// The ASCII bytes of the decimal rendering of `n`, without leading zeros
/// (a single zero digit for 0).
pub open spec fn dec_bytes(n: nat) -> Seq<u8>
    decreases n,
{
    if n < 10 {
        seq![(n + 48) as u8]
    } else {
        dec_bytes(n / 10).push((n % 10 + 48) as u8)
    }
}

/// The characters of the decimal rendering of `n`.
pub open spec fn dec_digits(n: nat) -> Seq<char>
    decreases n,
{
    if n < 10 {
        seq![((n + 48) as u8) as char]
    } else {
        dec_digits(n / 10).push(((n % 10 + 48) as u8) as char)
    }
}

/// The UTF-8 encoding of the decimal digit characters is the digit bytes:
/// every digit is an ASCII character with a one-byte encoding.
proof fn lemma_dec_digits_encode(n: nat)
    ensures
        encode_utf8(dec_digits(n)) == dec_bytes(n),
    decreases n,
{
    let d = n % 10;
    let b = ((if n < 10 {
        n
    } else {
        d
    }) + 48) as u8;
    let c = b as char;
    let u = c as u32;
    assert(u == b as u32);
    assert((u & 0x7F) as u8 == b) by (bit_vector)
        requires
            u == b as u32,
            b < 0x80,
    ;
    if n < 10 {
        assert(dec_digits(n) =~= Seq::<char>::empty().push(c));
        lemma_encode_utf8_snoc_ascii(Seq::<char>::empty(), c);
        assert(encode_utf8(Seq::<char>::empty()) =~= Seq::<u8>::empty());
        assert(encode_utf8(dec_digits(n)) =~= dec_bytes(n));
    } else {
        lemma_dec_digits_encode(n / 10);
        lemma_encode_utf8_snoc_ascii(dec_digits(n / 10), c);
        assert(encode_utf8(dec_digits(n)) =~= dec_bytes(n));
    }
}

/// Appending one ASCII character appends its single encoding byte.
proof fn lemma_encode_utf8_snoc_ascii(chars: Seq<char>, c: char)
    requires
        (c as u32) < 0x80,
    ensures
        encode_utf8(chars.push(c)) == encode_utf8(chars).push(((c as u32) & 0x7F) as u8),
    decreases chars.len(),
{
    if chars.len() == 0 {
        assert(chars.push(c)[0] == c);
        assert(chars.push(c).drop_first() =~= Seq::<char>::empty());
        assert(encode_utf8(Seq::<char>::empty()) =~= Seq::<u8>::empty());
        assert(encode_utf8(chars.push(c)) =~= encode_utf8(chars).push(((c as u32)
            & 0x7F) as u8));
    } else {
        let cs = chars.push(c);
        assert(cs[0] == chars[0]);
        assert(cs.drop_first() =~= chars.drop_first().push(c));
        lemma_encode_utf8_snoc_ascii(chars.drop_first(), c);
        assert(encode_utf8(chars.push(c)) =~= encode_utf8(chars).push(((c as u32)
            & 0x7F) as u8));
    }
}

/// Push the ASCII digits of `n` onto `out`, most significant first.
fn push_decimal_bytes(out: &mut Vec<u8>, n: usize)
    ensures
        final(out)@ == old(out)@ + dec_bytes(n as nat),
    decreases n,
{
    if n >= 10 {
        push_decimal_bytes(out, n / 10);
    }
    let d: u8 = (n % 10) as u8;
    out.push(d + 48);
    proof {
        assert(out@ =~= old(out)@ + dec_bytes(n as nat));
    }
}

/// The decimal rendering of `n` as a string.
pub fn decimal_string(n: usize) -> (s: String)
    ensures
        s@ == dec_digits(n as nat),
{
    let mut buf: Vec<u8> = Vec::new();
    push_decimal_bytes(&mut buf, n);
    proof {
        assert(buf@ =~= dec_bytes(n as nat));
        lemma_dec_digits_encode(n as nat);
        encode_utf8_valid_utf8(dec_digits(n as nat));
    }
    let s = string_from_utf8_bytes(buf);
    proof {
        lemma_encode_utf8_injective(s@, dec_digits(n as nat));
    }
    s
}

/// The descriptive text attached to a verification result for a document of
/// `n` bytes.
pub open spec fn metadata_chars(n: nat) -> Seq<char> {
    "Verified PDF with "@ + dec_digits(n) + " bytes"@
}

/// Build the descriptive text for a document of `n` bytes.
pub fn metadata_string(n: usize) -> (s: String)
    ensures
        s@ == metadata_chars(n as nat),
{
    let mut s = String::from_str("Verified PDF with ");
    let digits = decimal_string(n);
    s.append(digits.as_str());
    s.append(" bytes");
    s
}

impl PDFVerificationError {
    /// The descriptive text of this error.
    pub open spec fn spec_message(self) -> Seq<char> {
        match self {
            PDFVerificationError::InvalidPageNumber(n) => "Invalid page number: "@ + dec_digits(
                n as nat,
            ),
            PDFVerificationError::InvalidOffset(n) => "Invalid offset: "@ + dec_digits(n as nat),
            PDFVerificationError::EmptyPDFData => "PDF data is empty"@,
            PDFVerificationError::SubstringNotFound => "Substring not found at specified offset"@,
            PDFVerificationError::EmptySubstring => "Substring is empty"@,
            PDFVerificationError::OffsetOutOfBounds => "Offset out of bounds"@,
        }
    }

    /// Render this error as descriptive text.
    pub fn message(&self) -> (s: String)
        ensures
            s@ == self.spec_message(),
    {
        match self {
            PDFVerificationError::InvalidPageNumber(n) => {
                let mut s = String::from_str("Invalid page number: ");
                let digits = decimal_string(*n as usize);
                s.append(digits.as_str());
                s
            },
            PDFVerificationError::InvalidOffset(n) => {
                let mut s = String::from_str("Invalid offset: ");
                let digits = decimal_string(*n);
                s.append(digits.as_str());
                s
            },
            PDFVerificationError::EmptyPDFData => String::from_str("PDF data is empty"),
            PDFVerificationError::SubstringNotFound => String::from_str(
                "Substring not found at specified offset",
            ),
            PDFVerificationError::EmptySubstring => String::from_str("Substring is empty"),
            PDFVerificationError::OffsetOutOfBounds => String::from_str("Offset out of bounds"),
        }
    }
}

} // verus!
