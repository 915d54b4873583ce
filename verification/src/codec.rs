//! Base64 and image decoding at the edges of the library, through the
//! `base64` and `image` crates.

use vstd::prelude::*;
use base64::{engine::general_purpose, Engine as _};

verus! {

/// The character of a 6-bit value in the standard base64 alphabet.
pub open spec fn base64_char(v: int) -> char {
    if v < 26 {
        (('A' as int) + v) as char
    } else if v < 52 {
        (('a' as int) + (v - 26)) as char
    } else if v < 62 {
        (('0' as int) + (v - 52)) as char
    } else if v == 62 {
        '+'
    } else {
        '/'
    }
}

/// Standard base64 with padding: each three bytes become four characters;
/// a final one or two bytes become four characters ending in `==` or `=`.
pub open spec fn base64_encoded(b: Seq<u8>) -> Seq<char>
    decreases b.len(),
{
    if b.len() == 0 {
        Seq::empty()
    } else {
        let b0 = b[0] as int;
        if b.len() == 1 {
            seq![base64_char(b0 / 4), base64_char((b0 % 4) * 16), '=', '=']
        } else {
            let b1 = b[1] as int;
            if b.len() == 2 {
                seq![base64_char(b0 / 4), base64_char((b0 % 4) * 16 + b1 / 16), base64_char((b1 % 16) * 4), '=']
            } else {
                let b2 = b[2] as int;
                seq![
                    base64_char(b0 / 4),
                    base64_char((b0 % 4) * 16 + b1 / 16),
                    base64_char((b1 % 16) * 4 + b2 / 64),
                    base64_char(b2 % 64),
                ] + base64_encoded(b.skip(3))
            }
        }
    }
}

proof fn lemma_base64_char(v: int, w: int)
    requires
        0 <= v < 64,
        0 <= w < 64,
    ensures
        base64_char(v) != '=',
        base64_char(v) == base64_char(w) ==> v == w,
{
}

proof fn lemma_split_digits(p: int, q: int, r: int, s: int, base: int)
    by (nonlinear_arith)
    requires
        base > 0,
        0 <= q < base,
        0 <= s < base,
        p * base + q == r * base + s,
    ensures
        p == r,
        q == s,
{
}

proof fn lemma_byte_parts(x: int, y: int, d: int)
    by (nonlinear_arith)
    requires
        d > 0,
        x / d == y / d,
        x % d == y % d,
    ensures
        x == y,
{
}

spec fn byte_or_zero(b: Seq<u8>, i: int) -> int {
    if i < b.len() { b[i] as int } else { 0 }
}

/// The first four characters of a non-empty encoding, and the rest.
proof fn lemma_first_group(b: Seq<u8>)
    requires
        b.len() > 0,
    ensures
        ({
            let e = base64_encoded(b);
            let (b0, b1, b2) = (b[0] as int, byte_or_zero(b, 1), byte_or_zero(b, 2));
            &&& e.len() >= 4
            &&& e[0] == base64_char(b0 / 4)
            &&& e[1] == base64_char((b0 % 4) * 16 + b1 / 16)
            &&& b.len() == 1 ==> e[2] == '=' && e[3] == '='
            &&& b.len() >= 2 ==> e[2] == base64_char((b1 % 16) * 4 + b2 / 64)
            &&& b.len() == 2 ==> e[3] == '='
            &&& b.len() >= 3 ==> e[3] == base64_char(b2 % 64) && e.subrange(4, e.len() as int) == base64_encoded(b.skip(3))
        }),
{
    let e = base64_encoded(b);
    if b.len() >= 3 {
        let head = seq![
            base64_char(b[0] as int / 4),
            base64_char((b[0] as int % 4) * 16 + b[1] as int / 16),
            base64_char((b[1] as int % 16) * 4 + b[2] as int / 64),
            base64_char(b[2] as int % 64),
        ];
        assert(e == head + base64_encoded(b.skip(3)));
        assert(e.subrange(4, e.len() as int) =~= base64_encoded(b.skip(3)));
    }
}

/// Standard base64 encodes different bytes as different text, so the bytes
/// a text decodes to are the only ones it encodes.
pub proof fn law_base64_is_injective(a: Seq<u8>, b: Seq<u8>)
    requires
        base64_encoded(a) == base64_encoded(b),
    ensures
        a == b,
    decreases a.len(),
{
    let e = base64_encoded(a);
    if a.len() == 0 || b.len() == 0 {
        if a.len() > 0 {
            lemma_first_group(a);
        }
        if b.len() > 0 {
            lemma_first_group(b);
        }
        assert(a =~= b);
    } else {
        lemma_first_group(a);
        lemma_first_group(b);
        let a0 = a[0] as int;
        let b0 = b[0] as int;
        let a1 = byte_or_zero(a, 1);
        let b1 = byte_or_zero(b, 1);
        let a2 = byte_or_zero(a, 2);
        let b2 = byte_or_zero(b, 2);
        assert(0 <= a0 < 256 && 0 <= b0 < 256 && 0 <= a1 < 256 && 0 <= b1 < 256 && 0 <= a2 < 256 && 0 <= b2 < 256);
        // Characters 2 and 3 tell how many bytes the first group holds.
        lemma_base64_char((a1 % 16) * 4 + a2 / 64, 0);
        lemma_base64_char((b1 % 16) * 4 + b2 / 64, 0);
        lemma_base64_char(a2 % 64, 0);
        lemma_base64_char(b2 % 64, 0);
        assert((a.len() == 1) == (b.len() == 1));
        assert((a.len() == 2) == (b.len() == 2));
        // The first character gives the top six bits of the first byte.
        lemma_base64_char(a0 / 4, b0 / 4);
        // The second gives the rest of it and the top four bits of the next.
        lemma_base64_char((a0 % 4) * 16 + a1 / 16, (b0 % 4) * 16 + b1 / 16);
        lemma_split_digits(a0 % 4, a1 / 16, b0 % 4, b1 / 16, 16);
        lemma_byte_parts(a0, b0, 4);
        if a.len() == 1 {
            assert(a =~= b);
        } else {
            // The third gives the rest of the second byte and the top two
            // bits of the third.
            lemma_base64_char((a1 % 16) * 4 + a2 / 64, (b1 % 16) * 4 + b2 / 64);
            lemma_split_digits(a1 % 16, a2 / 64, b1 % 16, b2 / 64, 4);
            lemma_byte_parts(a1, b1, 16);
            if a.len() == 2 {
                assert(a =~= b);
            } else {
                lemma_base64_char(a2 % 64, b2 % 64);
                lemma_byte_parts(a2, b2, 64);
                law_base64_is_injective(a.skip(3), b.skip(3));
                assert(a =~= seq![a[0], a[1], a[2]] + a.skip(3));
                assert(b =~= seq![b[0], b[1], b[2]] + b.skip(3));
            }
        }
    }
}

/// Whether `text` is the standard padded base64 encoding of some bytes.
pub open spec fn is_base64(text: Seq<char>) -> bool {
    exists|b: Seq<u8>| #[trigger] base64_encoded(b) == text
}

/// What `image::load_from_memory` followed by `to_rgb8` gives for encoded
/// image bytes: the pixels as R, G, B bytes row by row, or nothing when the
/// bytes are no image the crate reads.
pub uninterp spec fn decoded_rgb8(bytes: Seq<u8>) -> Option<Seq<u8>>;

/// `general_purpose::STANDARD.encode`: standard padded base64.
#[verifier::external_body]
pub(crate) fn base64_encode(bytes: &[u8]) -> (r: String)
    requires
        bytes@.len() <= 3 * (usize::MAX / 4),
    ensures
        r@ == base64_encoded(bytes@),
{
    general_purpose::STANDARD.encode(bytes)
}

/// `general_purpose::STANDARD.decode`.  That engine requires canonical
/// padding and no trailing bits, so it accepts exactly the texts that its
/// encoder produces, and gives back the bytes they encode.
#[verifier::external_body]
pub(crate) fn base64_decode(text: &str) -> (r: Option<Vec<u8>>)
    ensures
        r is Some <==> is_base64(text@),
        r matches Some(v) ==> base64_encoded(v@) == text@,
{
    general_purpose::STANDARD.decode(text).ok()
}

/// `image::load_from_memory`, then `DynamicImage::to_rgb8` and `into_raw`.
#[verifier::external_body]
pub(crate) fn decode_rgb8(bytes: &[u8]) -> (r: Option<Vec<u8>>)
    ensures
        match r {
            Some(v) => decoded_rgb8(bytes@) == Some(v@),
            None => decoded_rgb8(bytes@) is None,
        },
{
    match image::load_from_memory(bytes) {
        Ok(img) => Some(img.to_rgb8().into_raw()),
        Err(_) => None,
    }
}

/// A PNG as a data URI.
pub fn png_data_uri(png: &[u8]) -> (r: String)
    requires
        png@.len() <= 3 * (usize::MAX / 4),
    ensures
        r@ == "data:image/png;base64,"@ + base64_encoded(png@),
{
    let encoded = base64_encode(png);
    let mut r = "data:image/png;base64,".to_owned();
    r.append(encoded.as_str());
    r
}

} // verus!
