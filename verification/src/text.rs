//! Lossy UTF-8 decoding of document bytes.
//!
//! Document bytes are turned into text without ever failing: every
//! well-formed scalar encoding becomes its character, and every maximal
//! subpart of an ill-formed sequence — the longest prefix of a well-formed
//! encoding, at least one byte — becomes one replacement character.
//! [`lossy_decode`] is the specification of that policy and
//! [`extract_text_from_pdf`] the verified decoder.

use vstd::prelude::*;
use vstd::utf8::*;

verus! {

/// The character substituted for each maximal subpart of an ill-formed
/// UTF-8 sequence.
pub const REPLACEMENT_CHARACTER: char = '\u{FFFD}';

/// True when `b1` may follow the leading byte `b0` of a three-byte scalar
/// encoding; the ranges exclude overlong encodings (after `E0`) and
/// surrogates (after `ED`).
pub open spec fn valid_second_byte_width_3(b0: u8, b1: u8) -> bool {
    if b0 == 0xE0 {
        0xA0 <= b1 <= 0xBF
    } else if b0 == 0xED {
        0x80 <= b1 <= 0x9F
    } else {
        0x80 <= b1 <= 0xBF
    }
}

/// True when `b1` may follow the leading byte `b0` of a four-byte scalar
/// encoding; the ranges exclude overlong encodings (after `F0`) and values
/// beyond the last scalar (after `F4`).
pub open spec fn valid_second_byte_width_4(b0: u8, b1: u8) -> bool {
    if b0 == 0xF0 {
        0x90 <= b1 <= 0xBF
    } else if b0 == 0xF4 {
        0x80 <= b1 <= 0x8F
    } else {
        0x80 <= b1 <= 0xBF
    }
}

/// The number of bytes replaced by one replacement character when the
/// sequence does not begin with a well-formed scalar encoding: the longest
/// prefix of a well-formed encoding (the maximal subpart of the ill-formed
/// sequence), and a single byte when no such prefix exists.
pub open spec fn replaced_prefix_len(bytes: Seq<u8>) -> int
    recommends
        bytes.len() > 0,
        !valid_first_scalar(bytes),
{
    if 0xE0 <= bytes[0] <= 0xEF {
        if bytes.len() >= 2 && valid_second_byte_width_3(bytes[0], bytes[1]) {
            2
        } else {
            1
        }
    } else if 0xF0 <= bytes[0] <= 0xF4 {
        if bytes.len() >= 2 && valid_second_byte_width_4(bytes[0], bytes[1]) {
            if bytes.len() >= 3 && is_continuation_byte(bytes[2]) {
                3
            } else {
                2
            }
        } else {
            1
        }
    } else {
        1
    }
}

/// The text decoded from the given bytes: each well-formed scalar encoding
/// contributes its character, and each maximal subpart of an ill-formed
/// sequence contributes one replacement character.
pub open spec fn lossy_decode(bytes: Seq<u8>) -> Seq<char>
    decreases bytes.len(),
    via lossy_decode_decreases
{
    if bytes.len() == 0 {
        seq![]
    } else if valid_first_scalar(bytes) {
        seq![decode_first_scalar(bytes) as char] + lossy_decode(pop_first_scalar(bytes))
    } else {
        seq![REPLACEMENT_CHARACTER] + lossy_decode(bytes.skip(replaced_prefix_len(bytes)))
    }
}

#[via_fn]
proof fn lossy_decode_decreases(bytes: Seq<u8>) {
    if bytes.len() != 0 {
        if valid_first_scalar(bytes) {
            lemma_first_scalar_len(bytes);
            assert(pop_first_scalar(bytes).len() == bytes.len() - length_of_first_scalar(bytes));
        } else {
            assert(1 <= replaced_prefix_len(bytes) <= bytes.len());
        }
    }
}

/// The width of a well-formed first scalar encoding is between 1 and 4 and
/// never exceeds the sequence.
proof fn lemma_first_scalar_len(bytes: Seq<u8>)
    requires
        valid_first_scalar(bytes),
    ensures
        1 <= length_of_first_scalar(bytes) <= bytes.len(),
        length_of_first_scalar(bytes) <= 4,
{
}

/// On bytes that form a valid UTF-8 encoding, lossy decoding agrees with
/// strict UTF-8 decoding: no replacement character is ever introduced.
pub proof fn lemma_lossy_decode_of_valid_utf8(bytes: Seq<u8>)
    requires
        valid_utf8(bytes),
    ensures
        lossy_decode(bytes) == decode_utf8(bytes),
    decreases bytes.len(),
{
    if bytes.len() != 0 {
        lemma_first_scalar_len(bytes);
        lemma_lossy_decode_of_valid_utf8(pop_first_scalar(bytes));
    }
}

/// On bytes that are all ASCII, lossy decoding yields exactly those bytes
/// as characters.
pub proof fn lemma_lossy_decode_of_ascii(bytes: Seq<u8>)
    requires
        forall|k: int| 0 <= k < bytes.len() ==> bytes[k] < 0x80,
    ensures
        lossy_decode(bytes).len() == bytes.len(),
        forall|k: int|
            0 <= k < bytes.len() ==> lossy_decode(bytes)[k] == (bytes[k] as char),
    decreases bytes.len(),
{
    if bytes.len() != 0 {
        let b0 = bytes[0];
        lemma_valid_width_1(bytes);
        assert(pop_first_scalar(bytes) =~= bytes.drop_first());
        lemma_lossy_decode_of_ascii(bytes.drop_first());
        assert((b0 & 0x7F) == b0) by (bit_vector)
            requires
                b0 < 0x80,
        ;
        char_u32_cast(b0 as char, b0 as u32);
        assert(lossy_decode(bytes) == seq![b0 as char] + lossy_decode(bytes.drop_first()));
        assert forall|k: int| 0 <= k < bytes.len() implies lossy_decode(bytes)[k] == (
        bytes[k] as char) by {
            if k > 0 {
                assert(lossy_decode(bytes)[k] == lossy_decode(bytes.drop_first())[k - 1]);
                assert(bytes.drop_first()[k - 1] == bytes[k]);
            }
        }
    }
}

proof fn lemma_valid_width_1(s: Seq<u8>)
    requires
        s.len() >= 1,
        s[0] < 0x80,
    ensures
        valid_first_scalar(s),
        length_of_first_scalar(s) == 1,
{
    let b0 = s[0];
    assert((b0 & 0x7F) == b0) by (bit_vector)
        requires
            b0 < 0x80,
    ;
}

proof fn lemma_overlong_width_2(s: Seq<u8>)
    requires
        s.len() >= 1,
        0xC0 <= s[0] <= 0xC1,
    ensures
        !valid_first_scalar(s),
{
    let b0 = s[0];
    if s.len() >= 2 && is_continuation_byte(s[1]) {
        let b1 = s[1];
        assert(((((b0 & 0x1F) as u32) << 6) | ((b1 & 0x3F) as u32)) < 0x80) by (bit_vector)
            requires
                0xC0 <= b0 <= 0xC1,
        ;
    }
}

proof fn lemma_valid_width_2(s: Seq<u8>)
    requires
        s.len() >= 2,
        0xC2 <= s[0] <= 0xDF,
        0x80 <= s[1] <= 0xBF,
    ensures
        valid_first_scalar(s),
        length_of_first_scalar(s) == 2,
{
    let b0 = s[0];
    let b1 = s[1];
    assert({
        let cp = (((b0 & 0x1F) as u32) << 6) | ((b1 & 0x3F) as u32);
        0x80 <= cp < 0xD800
    }) by (bit_vector)
        requires
            0xC2 <= b0 <= 0xDF,
    ;
}

proof fn lemma_valid_width_3(s: Seq<u8>)
    requires
        s.len() >= 3,
        0xE0 <= s[0] <= 0xEF,
        0x80 <= s[1] <= 0xBF,
        0x80 <= s[2] <= 0xBF,
        s[0] == 0xE0 ==> s[1] >= 0xA0,
        s[0] == 0xED ==> s[1] <= 0x9F,
    ensures
        valid_first_scalar(s),
        length_of_first_scalar(s) == 3,
{
    let b0 = s[0];
    let b1 = s[1];
    let b2 = s[2];
    assert({
        let cp = ((((b0 & 0x0F) as u32) << 12) | (((b1 & 0x3F) as u32) << 6)) | ((b2
            & 0x3F) as u32);
        0x800 <= cp && !(0xD800 <= cp <= 0xDFFF)
    }) by (bit_vector)
        requires
            0xE0 <= b0 <= 0xEF,
            0x80 <= b1 <= 0xBF,
            b0 == 0xE0 ==> b1 >= 0xA0,
            b0 == 0xED ==> b1 <= 0x9F,
    ;
}

proof fn lemma_invalid_width_3(s: Seq<u8>)
    requires
        s.len() >= 3,
        0xE0 <= s[0] <= 0xEF,
        0x80 <= s[1] <= 0xBF,
        0x80 <= s[2] <= 0xBF,
        (s[0] == 0xE0 && s[1] < 0xA0) || (s[0] == 0xED && s[1] > 0x9F),
    ensures
        !valid_first_scalar(s),
{
    let b0 = s[0];
    let b1 = s[1];
    let b2 = s[2];
    assert({
        let cp = ((((b0 & 0x0F) as u32) << 12) | (((b1 & 0x3F) as u32) << 6)) | ((b2
            & 0x3F) as u32);
        cp < 0x800 || (0xD800 <= cp <= 0xDFFF)
    }) by (bit_vector)
        requires
            0x80 <= b1 <= 0xBF,
            (b0 == 0xE0 && b1 < 0xA0) || (b0 == 0xED && b1 > 0x9F),
    ;
}

proof fn lemma_valid_width_4(s: Seq<u8>)
    requires
        s.len() >= 4,
        0xF0 <= s[0] <= 0xF4,
        0x80 <= s[1] <= 0xBF,
        0x80 <= s[2] <= 0xBF,
        0x80 <= s[3] <= 0xBF,
        s[0] == 0xF0 ==> s[1] >= 0x90,
        s[0] == 0xF4 ==> s[1] <= 0x8F,
    ensures
        valid_first_scalar(s),
        length_of_first_scalar(s) == 4,
{
    let b0 = s[0];
    let b1 = s[1];
    let b2 = s[2];
    let b3 = s[3];
    assert({
        let cp = (((((b0 & 0x7) as u32) << 18) | (((b1 & 0x3F) as u32) << 12)) | (((b2
            & 0x3F) as u32) << 6)) | ((b3 & 0x3F) as u32);
        0x10000 <= cp <= 0x10FFFF
    }) by (bit_vector)
        requires
            0xF0 <= b0 <= 0xF4,
            0x80 <= b1 <= 0xBF,
            b0 == 0xF0 ==> b1 >= 0x90,
            b0 == 0xF4 ==> b1 <= 0x8F,
    ;
}

proof fn lemma_invalid_width_4(s: Seq<u8>)
    requires
        s.len() >= 4,
        0xF0 <= s[0] <= 0xF7,
        0x80 <= s[1] <= 0xBF,
        0x80 <= s[2] <= 0xBF,
        0x80 <= s[3] <= 0xBF,
        (s[0] == 0xF0 && s[1] < 0x90) || (s[0] == 0xF4 && s[1] > 0x8F) || s[0] >= 0xF5,
    ensures
        !valid_first_scalar(s),
{
    let b0 = s[0];
    let b1 = s[1];
    let b2 = s[2];
    let b3 = s[3];
    assert({
        let cp = (((((b0 & 0x7) as u32) << 18) | (((b1 & 0x3F) as u32) << 12)) | (((b2
            & 0x3F) as u32) << 6)) | ((b3 & 0x3F) as u32);
        cp < 0x10000 || cp > 0x10FFFF
    }) by (bit_vector)
        requires
            0xF0 <= b0 <= 0xF7,
            0x80 <= b1 <= 0xBF,
            (b0 == 0xF0 && b1 < 0x90) || (b0 == 0xF4 && b1 > 0x8F) || b0 >= 0xF5,
    ;
}

/// Classify the bytes beginning at `i`: `(true, w)` when a well-formed
/// scalar encoding of `w` bytes begins there, else `(false, k)` where `k`
/// is the length of the maximal subpart replaced by one replacement
/// character.
fn scalar_step_at(bytes: &[u8], i: usize) -> (r: (bool, usize))
    requires
        i < bytes@.len(),
    ensures
        ({
            let s = bytes@.skip(i as int);
            &&& r.0 ==> valid_first_scalar(s) && r.1 == length_of_first_scalar(s)
            &&& !r.0 ==> !valid_first_scalar(s) && r.1 == replaced_prefix_len(s)
            &&& 1 <= r.1 && i + r.1 <= bytes@.len()
        }),
{
    let ghost s = bytes@.skip(i as int);
    let n = bytes.len();
    let rem = n - i;
    let b0 = bytes[i];
    proof {
        assert(s.len() == n - i);
        assert(s[0] == bytes@[i as int]);
        assert(forall|k: int| 0 < k < s.len() ==> s[k] == bytes@[i + k]);
    }
    if b0 < 0x80 {
        proof {
            lemma_valid_width_1(s);
        }
        return (true, 1);
    }
    if b0 < 0xC2 {
        // A lone continuation byte, or a leading byte only of overlong
        // two-byte encodings: no well-formed encoding begins with it.
        proof {
            if 0xC0 <= b0 {
                lemma_overlong_width_2(s);
            }
        }
        return (false, 1);
    }
    if b0 < 0xE0 {
        if rem >= 2 {
            let b1 = bytes[i + 1];
            if 0x80 <= b1 && b1 <= 0xBF {
                proof {
                    lemma_valid_width_2(s);
                }
                return (true, 2);
            }
        }
        // The continuation byte is missing, so the leading byte alone is
        // the maximal subpart.
        return (false, 1);
    }
    if b0 < 0xF0 {
        if rem >= 2 {
            let b1 = bytes[i + 1];
            let second_ok = if b0 == 0xE0 {
                0xA0 <= b1 && b1 <= 0xBF
            } else if b0 == 0xED {
                0x80 <= b1 && b1 <= 0x9F
            } else {
                0x80 <= b1 && b1 <= 0xBF
            };
            if second_ok {
                if rem >= 3 {
                    let b2 = bytes[i + 2];
                    if 0x80 <= b2 && b2 <= 0xBF {
                        proof {
                            lemma_valid_width_3(s);
                        }
                        return (true, 3);
                    }
                }
                // Cut short after a well-formed two-byte prefix: that
                // prefix is the maximal subpart.
                return (false, 2);
            }
            // The second byte is outside its allowed range: the leading
            // byte alone is the maximal subpart.
            proof {
                if 0x80 <= b1 && b1 <= 0xBF && s.len() >= 3 && is_continuation_byte(s[2]) {
                    lemma_invalid_width_3(s);
                }
            }
            return (false, 1);
        }
        return (false, 1);
    }
    if b0 < 0xF5 {
        if rem >= 2 {
            let b1 = bytes[i + 1];
            let second_ok = if b0 == 0xF0 {
                0x90 <= b1 && b1 <= 0xBF
            } else if b0 == 0xF4 {
                0x80 <= b1 && b1 <= 0x8F
            } else {
                0x80 <= b1 && b1 <= 0xBF
            };
            if second_ok {
                if rem >= 3 {
                    let b2 = bytes[i + 2];
                    if 0x80 <= b2 && b2 <= 0xBF {
                        if rem >= 4 {
                            let b3 = bytes[i + 3];
                            if 0x80 <= b3 && b3 <= 0xBF {
                                proof {
                                    lemma_valid_width_4(s);
                                }
                                return (true, 4);
                            }
                        }
                        // Cut short after a well-formed three-byte prefix.
                        return (false, 3);
                    }
                }
                // Cut short after a well-formed two-byte prefix.
                return (false, 2);
            }
            proof {
                if 0x80 <= b1 && b1 <= 0xBF && s.len() >= 4 && is_continuation_byte(s[2])
                    && is_continuation_byte(s[3]) {
                    lemma_invalid_width_4(s);
                }
            }
            return (false, 1);
        }
        return (false, 1);
    }
    // Leading bytes F5..F7 would encode values beyond the last scalar, and
    // F8..FF match no encoding at all.
    proof {
        if b0 < 0xF8 && s.len() >= 4 && is_continuation_byte(s[1]) && is_continuation_byte(s[2])
            && is_continuation_byte(s[3]) {
            lemma_invalid_width_4(s);
        }
    }
    (false, 1)
}

/// Appending one character to a sequence appends that character's scalar
/// encoding to the sequence's UTF-8 encoding.
proof fn lemma_encode_utf8_snoc(chars: Seq<char>, c: char)
    ensures
        encode_utf8(chars.push(c)) == encode_utf8(chars) + encode_scalar(c as u32),
    decreases chars.len(),
{
    if chars.len() == 0 {
        assert(chars.push(c)[0] == c);
        assert(chars.push(c).drop_first() =~= Seq::<char>::empty());
        assert(encode_utf8(Seq::<char>::empty()) =~= Seq::<u8>::empty());
        assert(encode_utf8(chars.push(c)) =~= encode_utf8(chars) + encode_scalar(c as u32));
    } else {
        let cs = chars.push(c);
        assert(cs[0] == chars[0]);
        assert(cs.drop_first() =~= chars.drop_first().push(c));
        lemma_encode_utf8_snoc(chars.drop_first(), c);
        assert(encode_utf8(chars.push(c)) =~= encode_utf8(chars) + encode_scalar(c as u32));
    }
}

/// The replacement character is encoded in UTF-8 as the three bytes
/// `EF BF BD`.
proof fn lemma_replacement_encoding()
    ensures
        encode_scalar(REPLACEMENT_CHARACTER as u32) =~= seq![0xEFu8, 0xBFu8, 0xBDu8],
{
    let r = REPLACEMENT_CHARACTER as u32;
    assert(r == 0xFFFD);
    assert((0xE0u8 | (((r >> 12) & 0x0F) as u8)) == 0xEF && (0x80u8 | (((r >> 6)
        & 0x3F) as u8)) == 0xBF && (0x80u8 | ((r & 0x3F) as u8)) == 0xBD) by (bit_vector)
        requires
            r == 0xFFFD,
    ;
}

/// A well-formed first scalar encoding decodes to a character whose
/// re-encoding is exactly the bytes it came from.
proof fn lemma_first_scalar_reencode(s: Seq<u8>)
    requires
        valid_first_scalar(s),
    ensures
        ({
            let w = length_of_first_scalar(s);
            &&& 1 <= w <= s.len()
            &&& encode_scalar((decode_first_scalar(s) as char) as u32) == s.subrange(0, w)
        }),
{
    lemma_first_scalar_len(s);
    let w = length_of_first_scalar(s);
    let t = s.subrange(0, w);
    assert(t.len() == w);
    assert(t[0] == s[0]);
    if w >= 2 {
        assert(t[1] == s[1]);
    }
    if w >= 3 {
        assert(t[2] == s[2]);
    }
    if w >= 4 {
        assert(t[3] == s[3]);
    }
    assert(valid_first_scalar(t));
    assert(length_of_first_scalar(t) == w);
    assert(decode_first_codepoint(t) == decode_first_codepoint(s));
    assert(pop_first_scalar(t) =~= Seq::<u8>::empty());
    assert(valid_utf8(Seq::<u8>::empty()));
    assert(valid_utf8(t));
    decode_utf8_first_scalar(t);
    assert(take_first_scalar(t) =~= t);
}

/// Two character sequences with the same UTF-8 encoding are the same.
pub(crate) proof fn lemma_encode_utf8_injective(a: Seq<char>, b: Seq<char>)
    requires
        encode_utf8(a) == encode_utf8(b),
    ensures
        a == b,
{
    encode_utf8_decode_utf8(a);
    encode_utf8_decode_utf8(b);
}

/// Relies on `String::from_utf8`: on bytes that form a valid UTF-8 encoding
/// it returns `Ok` with the string whose UTF-8 bytes are exactly the input.
#[verifier::external_body]
pub(crate) fn string_from_utf8_bytes(bytes: Vec<u8>) -> (s: String)
    requires
        valid_utf8(bytes@),
    ensures
        encode_utf8(s@) == bytes@,
{
    match String::from_utf8(bytes) {
        Ok(s) => s,
        Err(_) => String::new(),
    }
}

/// Reports whether the given bytes form a valid UTF-8 encoding.
pub fn is_valid_utf8_bytes(bytes: &[u8]) -> (r: bool)
    ensures
        r == valid_utf8(bytes@),
{
    let n = bytes.len();
    let mut i: usize = 0;
    proof {
        assert(bytes@.skip(0) =~= bytes@);
    }
    while i < n
        invariant
            n == bytes@.len(),
            0 <= i <= n,
            valid_utf8(bytes@) <==> valid_utf8(bytes@.skip(i as int)),
        decreases n - i,
    {
        let (valid, w) = scalar_step_at(bytes, i);
        if !valid {
            proof {
                assert(bytes@.skip(i as int).len() != 0);
            }
            return false;
        }
        proof {
            let s = bytes@.skip(i as int);
            assert(pop_first_scalar(s) =~= bytes@.skip(i as int + w as int));
        }
        i = i + w;
    }
    proof {
        assert(bytes@.skip(n as int) =~= Seq::<u8>::empty());
    }
    true
}

/// Extract text from document bytes.
///
/// The bytes are decoded as UTF-8 without ever failing: each maximal
/// subpart of an ill-formed sequence is replaced by one replacement
/// character, as `String::from_utf8_lossy` does.
pub fn extract_text_from_pdf(pdf_bytes: &[u8]) -> (text: String)
    ensures
        text@ == lossy_decode(pdf_bytes@),
{
    let n = pdf_bytes.len();
    let mut out: Vec<u8> = Vec::new();
    let ghost mut done: Seq<char> = Seq::empty();
    let mut i: usize = 0;
    proof {
        assert(pdf_bytes@.skip(0) =~= pdf_bytes@);
        assert(lossy_decode(pdf_bytes@) =~= done + lossy_decode(pdf_bytes@));
        assert(encode_utf8(done) =~= Seq::<u8>::empty());
    }
    while i < n
        invariant
            n == pdf_bytes@.len(),
            0 <= i <= n,
            lossy_decode(pdf_bytes@) == done + lossy_decode(pdf_bytes@.skip(i as int)),
            out@ == encode_utf8(done),
        decreases n - i,
    {
        let ghost s = pdf_bytes@.skip(i as int);
        let (valid, w) = scalar_step_at(pdf_bytes, i);
        if !valid {
            out.push(0xEF);
            out.push(0xBF);
            out.push(0xBD);
            proof {
                lemma_encode_utf8_snoc(done, REPLACEMENT_CHARACTER);
                lemma_replacement_encoding();
                assert(s.skip(replaced_prefix_len(s)) =~= pdf_bytes@.skip(i as int + w as int));
                assert(lossy_decode(s) == seq![REPLACEMENT_CHARACTER] + lossy_decode(
                    s.skip(replaced_prefix_len(s)),
                ));
                done = done.push(REPLACEMENT_CHARACTER);
                assert(out@ =~= encode_utf8(done));
                assert(lossy_decode(pdf_bytes@) =~= done + lossy_decode(
                    pdf_bytes@.skip(i as int + w as int),
                ));
            }
            i = i + w;
        } else {
            let ghost c = decode_first_scalar(s) as char;
            proof {
                lemma_first_scalar_reencode(s);
            }
            let end = i + w;
            let ghost out0 = out@;
            let mut j = i;
            while j < end
                invariant
                    i <= j <= end,
                    end <= n,
                    n == pdf_bytes@.len(),
                    out@ == out0 + pdf_bytes@.subrange(i as int, j as int),
                decreases end - j,
            {
                out.push(pdf_bytes[j]);
                proof {
                    assert(out@ =~= out0 + pdf_bytes@.subrange(i as int, j as int + 1));
                }
                j = j + 1;
            }
            proof {
                lemma_encode_utf8_snoc(done, c);
                assert(s.subrange(0, w as int) =~= pdf_bytes@.subrange(i as int, i as int
                    + w as int));
                assert(pop_first_scalar(s) =~= pdf_bytes@.skip(i as int + w as int));
                assert(lossy_decode(s) == seq![c] + lossy_decode(pop_first_scalar(s)));
                done = done.push(c);
                assert(out@ =~= encode_utf8(done));
                assert(lossy_decode(pdf_bytes@) =~= done + lossy_decode(
                    pdf_bytes@.skip(i as int + w as int),
                ));
            }
            i = end;
        }
    }
    proof {
        assert(pdf_bytes@.skip(n as int) =~= Seq::<u8>::empty());
        assert(lossy_decode(pdf_bytes@) =~= done);
        encode_utf8_valid_utf8(done);
    }
    let text = string_from_utf8_bytes(out);
    proof {
        lemma_encode_utf8_injective(text@, done);
    }
    text
}

} // verus!
