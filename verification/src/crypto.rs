//! Encodings, digests and signatures, from the crates `base64` and `ring`.

use vstd::prelude::*;

verus! {

/// Most bytes that are handed to an encoding or a digest at once: what they make of
/// them, and a count of bits in 64 bits, then stays within bounds.
pub const INPUT_MAX: usize = usize::MAX / 16;

// ─── Base64 ─────────────────────────────────────────────────────────────────

/// The URL-safe base64 text of bytes, without padding, as
/// `base64::engine::general_purpose::URL_SAFE_NO_PAD` writes it.
pub uninterp spec fn base64url_text(bytes: Seq<u8>) -> Seq<char>;

/// The bytes that `URL_SAFE_NO_PAD` reads from a text; `None` where it returns an
/// error.
pub uninterp spec fn base64url_bytes(text: Seq<char>) -> Option<Seq<u8>>;

/// The base64 text of bytes, padded, as
/// `base64::engine::general_purpose::STANDARD` writes it.
pub uninterp spec fn base64_text(bytes: Seq<u8>) -> Seq<char>;

/// The bytes that `STANDARD` reads from a text; `None` where it returns an error.
pub uninterp spec fn base64_bytes(text: Seq<char>) -> Option<Seq<u8>>;

pub open spec fn is_alphanumeric(c: char) -> bool {
    'A' <= c <= 'Z' || 'a' <= c <= 'z' || '0' <= c <= '9'
}

pub open spec fn is_base64url_char(c: char) -> bool {
    is_alphanumeric(c) || c == '-' || c == '_'
}

pub open spec fn is_base64_char(c: char) -> bool {
    is_alphanumeric(c) || c == '+' || c == '/' || c == '='
}

/// Calls `URL_SAFE_NO_PAD.encode`. The text is named; its length and alphabet are
/// those of the encoding, and `URL_SAFE_NO_PAD.decode` reads the bytes back.
#[verifier::external_body]
pub(crate) fn base64url_encode_bytes(bytes: &[u8]) -> (r: String)
    requires
        bytes@.len() <= INPUT_MAX,
    ensures
        r@ == base64url_text(bytes@),
        r@.len() == (bytes@.len() * 8 + 5) / 6,
        forall|i: int| 0 <= i < r@.len() ==> is_base64url_char(#[trigger] r@[i]),
        base64url_bytes(r@) == Some(bytes@),
{
    base64::Engine::encode(&base64::engine::general_purpose::URL_SAFE_NO_PAD, bytes)
}

/// Calls `URL_SAFE_NO_PAD.decode`. The result is named.
#[verifier::external_body]
pub(crate) fn base64url_decode_text(text: &str) -> (r: Option<Vec<u8>>)
    ensures
        match r {
            Some(bytes) => base64url_bytes(text@) == Some(bytes@),
            None => base64url_bytes(text@) is None,
        },
{
    base64::Engine::decode(&base64::engine::general_purpose::URL_SAFE_NO_PAD, text).ok()
}

/// Calls `STANDARD.encode`. The text is named; its alphabet is that of the encoding,
/// and `STANDARD.decode` reads the bytes back.
#[verifier::external_body]
pub(crate) fn base64_encode_bytes(bytes: &[u8]) -> (r: String)
    requires
        bytes@.len() <= INPUT_MAX,
    ensures
        r@ == base64_text(bytes@),
        forall|i: int| 0 <= i < r@.len() ==> is_base64_char(#[trigger] r@[i]),
        base64_bytes(r@) == Some(bytes@),
{
    base64::Engine::encode(&base64::engine::general_purpose::STANDARD, bytes)
}

/// Calls `STANDARD.decode`. The result is named.
#[verifier::external_body]
pub(crate) fn base64_decode_text(text: &str) -> (r: Option<Vec<u8>>)
    ensures
        match r {
            Some(bytes) => base64_bytes(text@) == Some(bytes@),
            None => base64_bytes(text@) is None,
        },
{
    base64::Engine::decode(&base64::engine::general_purpose::STANDARD, text).ok()
}

// ─── Digests ────────────────────────────────────────────────────────────────

/// The SHA-256 digest of bytes.
pub uninterp spec fn sha256_digest(bytes: Seq<u8>) -> Seq<u8>;

/// The HMAC-SHA256 tag of bytes under a key.
pub uninterp spec fn hmac_tag(key: Seq<u8>, bytes: Seq<u8>) -> Seq<u8>;

/// Calls `ring::digest::digest` with `SHA256`. The digest is named; it has 32 bytes.
#[verifier::external_body]
pub(crate) fn sha256(bytes: &[u8]) -> (r: Vec<u8>)
    requires
        bytes@.len() <= INPUT_MAX,
    ensures
        r@ == sha256_digest(bytes@),
        r@.len() == 32,
{
    ring::digest::digest(&ring::digest::SHA256, bytes).as_ref().to_vec()
}

/// Calls `ring::hmac::sign` with an `HMAC_SHA256` key. The tag is named; it has 32
/// bytes.
#[verifier::external_body]
pub(crate) fn hmac_sign(key: &[u8], bytes: &[u8]) -> (r: Vec<u8>)
    requires
        key@.len() <= INPUT_MAX,
        bytes@.len() <= INPUT_MAX,
    ensures
        r@ == hmac_tag(key@, bytes@),
        r@.len() == 32,
{
    ring::hmac::sign(&ring::hmac::Key::new(ring::hmac::HMAC_SHA256, key), bytes).as_ref().to_vec()
}

/// Calls `ring::hmac::verify` with an `HMAC_SHA256` key: whether the tag is that of
/// the bytes.
#[verifier::external_body]
pub(crate) fn hmac_verify(key: &[u8], bytes: &[u8], tag: &[u8]) -> (r: bool)
    requires
        key@.len() <= INPUT_MAX,
        bytes@.len() <= INPUT_MAX,
    ensures
        r == (tag@ == hmac_tag(key@, bytes@)),
{
    ring::hmac::verify(&ring::hmac::Key::new(ring::hmac::HMAC_SHA256, key), bytes, tag).is_ok()
}

// ─── Chance ─────────────────────────────────────────────────────────────────

/// Calls `ring::rand::SystemRandom::fill` on 32 bytes; `None` where it fails. What
/// the bytes are is chance.
#[verifier::external_body]
pub(crate) fn random_32() -> (r: Option<Vec<u8>>)
    ensures
        r matches Some(bytes) ==> bytes@.len() == 32,
{
    let mut buf = [0u8; 32];
    ring::rand::SecureRandom::fill(&ring::rand::SystemRandom::new(), &mut buf).ok()?;
    Some(buf.to_vec())
}

/// Whether the text is a token: 32 bytes in URL-safe base64.
pub open spec fn is_token(t: Seq<char>) -> bool {
    &&& t.len() == 43
    &&& forall|i: int| 0 <= i < t.len() ==> is_base64url_char(#[trigger] t[i])
    &&& exists|b: Seq<u8>|
        b.len() == 32 && t == #[trigger] base64url_text(b) && base64url_bytes(t) == Some(b)
}

/// The token of random bytes; `None` where there are none.
pub fn token_of(bytes: Option<Vec<u8>>) -> (r: Option<String>)
    requires
        bytes matches Some(b) ==> b@.len() <= INPUT_MAX,
    ensures
        match bytes {
            Some(b) => r matches Some(t) && t@ == base64url_text(b@) && base64url_bytes(t@)
                == Some(b@) && (b@.len() == 32 ==> is_token(t@)),
            None => r is None,
        },
{
    match bytes {
        Some(b) => Some(base64url_encode_bytes(b.as_slice())),
        None => None,
    }
}

/// A token of 32 random bytes; `None` where the system has no random bytes to give.
pub fn random_token() -> (r: Option<String>)
    ensures
        r matches Some(t) ==> is_token(t@),
{
    token_of(random_32())
}

// ─── Hexadecimal ────────────────────────────────────────────────────────────

/// The character of the hexadecimal digit `d`.
pub open spec fn hex_digit(d: int) -> char {
    if d < 10 {
        (48 + d) as char
    } else {
        (87 + d) as char
    }
}

/// The bytes as pairs of hexadecimal digits.
pub open spec fn hex_text(bytes: Seq<u8>) -> Seq<char>
    decreases bytes.len(),
{
    if bytes.len() == 0 {
        Seq::empty()
    } else {
        hex_text(bytes.drop_last()).push(hex_digit(bytes.last() as int / 16)).push(
            hex_digit(bytes.last() as int % 16),
        )
    }
}

fn hex_char(d: u8) -> (r: char)
    requires
        d < 16,
    ensures
        r == hex_digit(d as int),
{
    if d < 10 {
        (48 + d) as char
    } else {
        (87 + d) as char
    }
}

/// Writes bytes as pairs of hexadecimal digits.
pub fn hex_encode(bytes: &[u8]) -> (r: String)
    ensures
        r@ == hex_text(bytes@),
{
    let mut out = String::new();
    let mut i: usize = 0;
    assert(bytes@.take(0) =~= Seq::<u8>::empty());
    while i < bytes.len()
        invariant
            i <= bytes@.len(),
            out@ == hex_text(bytes@.take(i as int)),
        decreases bytes@.len() - i,
    {
        assert(bytes@.take(i + 1).drop_last() =~= bytes@.take(i as int));
        let b: u8 = bytes[i];
        out.push(hex_char(b / 16));
        out.push(hex_char(b % 16));
        i += 1;
    }
    assert(bytes@.take(bytes@.len() as int) =~= bytes@);
    out
}

pub open spec fn is_hex_digit(c: char) -> bool {
    '0' <= c <= '9' || 'a' <= c <= 'f'
}

/// The hexadecimal text has two digits per byte, and nothing else.
pub proof fn law_hex_text(bytes: Seq<u8>)
    ensures
        hex_text(bytes).len() == 2 * bytes.len(),
        forall|i: int| 0 <= i < hex_text(bytes).len() ==> is_hex_digit(#[trigger] hex_text(bytes)[i]),
    decreases bytes.len(),
{
    if bytes.len() > 0 {
        law_hex_text(bytes.drop_last());
        assert forall|i: int| 0 <= i < hex_text(bytes).len() implies is_hex_digit(
            #[trigger] hex_text(bytes)[i],
        ) by {
            if i < hex_text(bytes.drop_last()).len() {
                assert(is_hex_digit(hex_text(bytes.drop_last())[i]));
            }
        }
    }
}

/// Different bytes have different hexadecimal texts.
pub proof fn law_hex_text_injective(a: Seq<u8>, b: Seq<u8>)
    requires
        hex_text(a) == hex_text(b),
    ensures
        a == b,
    decreases a.len(),
{
    law_hex_text(a);
    law_hex_text(b);
    if a.len() > 0 {
        let s = hex_text(a);
        let fa = hex_text(a.drop_last());
        let fb = hex_text(b.drop_last());
        assert(fa =~= s.take(s.len() - 2));
        assert(fb =~= s.take(s.len() - 2));
        law_hex_text_injective(a.drop_last(), b.drop_last());
        assert(s[s.len() - 2] == hex_digit(a.last() as int / 16));
        assert(s[s.len() - 2] == hex_digit(b.last() as int / 16));
        assert(s[s.len() - 1] == hex_digit(a.last() as int % 16));
        assert(s[s.len() - 1] == hex_digit(b.last() as int % 16));
        assert(a.last() == b.last());
        assert(a =~= a.drop_last().push(a.last()));
        assert(b =~= b.drop_last().push(b.last()));
    } else {
        assert(a =~= b);
    }
}

/// Each byte has two digits, the higher half first, in order and in lower case.
pub proof fn law_two_digits_per_byte(bytes: Seq<u8>, i: int)
    requires
        0 <= i < bytes.len(),
    ensures
        hex_text(bytes).len() == 2 * bytes.len(),
        ({
            let high = hex_text(bytes)[2 * i];
            let low = hex_text(bytes)[2 * i + 1];
            bytes[i] as int == 16 * (if high <= '9' {
                high as int - '0' as int
            } else {
                high as int - 'a' as int + 10
            }) + (if low <= '9' {
                low as int - '0' as int
            } else {
                low as int - 'a' as int + 10
            })
        }),
    decreases bytes.len(),
{
    law_hex_text(bytes);
    law_hex_text(bytes.drop_last());
    if i < bytes.len() - 1 {
        law_two_digits_per_byte(bytes.drop_last(), i);
        assert(hex_text(bytes)[2 * i] == hex_text(bytes.drop_last())[2 * i]);
        assert(hex_text(bytes)[2 * i + 1] == hex_text(bytes.drop_last())[2 * i + 1]);
    }
}

} // verus!
