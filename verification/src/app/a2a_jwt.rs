//! Signed requests between instances.
//!
//! Each instance has an Ed25519 key pair. It signs its requests with JSON web
//! tokens and publishes its public key as a key set; the receiver verifies the
//! token under that key.

use crate::crypto::INPUT_MAX;
use crate::crypto::base64_bytes;
use crate::crypto::base64_decode_text;
use crate::crypto::base64_encode_bytes;
use crate::crypto::base64_text;
use crate::crypto::base64url_bytes;
use crate::crypto::base64url_decode_text;
use crate::crypto::base64url_encode_bytes;
use crate::crypto::base64url_text;
use crate::crypto::is_base64_char;
use crate::json::Json;
use crate::json::JsonNumber;
use crate::json::JsonView;
use crate::json::ObjectBuilder;
use crate::json::as_natural;
use crate::json::as_text;
use crate::json::json_from_value;
use crate::json::json_parsed;
use crate::json::lemma_object_member;
use crate::json::lemma_plain_members;
use crate::json::member;
use crate::json::object;
use crate::json::object_text;
use crate::json::plain_members;
use crate::json::value_model;
use crate::text::concat3;
use crate::text::from_chars;
use crate::text::has_prefix;
use crate::text::lemma_index_of;
use crate::text::lines;
use crate::text::lines_of;
use crate::text::pieces;
use crate::text::starts_with;
use crate::text::texts;
use crate::text::to_chars;
use crate::text::unterminated;
use vstd::prelude::*;

verus! {

/// What a token claims.
#[derive(Debug)]
pub struct A2aClaims {
    /// The sender's address.
    pub iss: String,
    /// When it was issued, in seconds since the epoch.
    pub iat: u64,
    /// When it expires, in seconds since the epoch.
    pub exp: u64,
}

pub ghost struct ClaimsView {
    pub iss: Seq<char>,
    pub iat: u64,
    pub exp: u64,
}

impl View for A2aClaims {
    type V = ClaimsView;

    open spec fn view(&self) -> ClaimsView {
        ClaimsView { iss: self.iss@, iat: self.iat, exp: self.exp }
    }
}

/// Why a key or a token was refused.
#[derive(Debug, Clone, Copy, PartialEq, Eq, Structural)]
pub enum A2aError {
    /// No key could be generated.
    KeyGeneration,
    /// The key file is no PEM.
    Pem,
    /// The private key is no Ed25519 key.
    InvalidKey,
    /// The token could not be signed.
    Signing,
    /// The public key is no base64 text.
    KeyText,
    /// The token is malformed, has a wrong signature or lacks a claim.
    Rejected,
    /// The token has expired.
    Expired,
    /// The claims are not those of a request.
    Claims,
}

impl A2aError {
    /// The error in words.
    pub fn message(&self) -> (r: &'static str)
        ensures
            r@ == (match *self {
                A2aError::KeyGeneration => "key generation failed"@,
                A2aError::Pem => "invalid PEM format for private key"@,
                A2aError::InvalidKey => "invalid Ed25519 private key"@,
                A2aError::Signing => "signing failed"@,
                A2aError::KeyText => "base64url decode failed"@,
                A2aError::Rejected => "token rejected"@,
                A2aError::Expired => "token has expired"@,
                A2aError::Claims => "token claims do not match"@,
            }),
    {
        match self {
            A2aError::KeyGeneration => "key generation failed",
            A2aError::Pem => "invalid PEM format for private key",
            A2aError::InvalidKey => "invalid Ed25519 private key",
            A2aError::Signing => "signing failed",
            A2aError::KeyText => "base64url decode failed",
            A2aError::Rejected => "token rejected",
            A2aError::Expired => "token has expired",
            A2aError::Claims => "token claims do not match",
        }
    }
}

// ─── Ed25519 and JSON web tokens ────────────────────────────────────────────

/// The public key of the Ed25519 key pair in a PKCS#8 document, as
/// `ring::signature::Ed25519KeyPair::from_pkcs8` reads it; `None` where it returns an
/// error.
pub uninterp spec fn ed25519_public(der: Seq<u8>) -> Option<Seq<u8>>;

/// The token that `jsonwebtoken::encode` makes of claims in a JSON text with an Ed25519
/// key in a PKCS#8 document; `None` where the text is refused or it returns an error.
pub uninterp spec fn jwt_token(der: Seq<u8>, claims: Seq<char>) -> Option<Seq<char>>;

/// The claims that `jsonwebtoken::decode` finds in an EdDSA token under an Ed25519
/// public key, while the token has not expired; `None` where it returns an error at
/// any time. The registered claims in `required` must be there.
pub uninterp spec fn jwt_claims(
    token: Seq<char>,
    public_key: Seq<u8>,
    required: Seq<Seq<char>>,
) -> Option<JsonView>;

/// The registered claims that a request must have.
pub open spec fn request_claims() -> Seq<Seq<char>> {
    seq!["iss"@, "exp"@]
}

/// Why `jsonwebtoken::decode` returned an error.
#[derive(Debug, Clone, Copy, PartialEq, Eq, Structural)]
pub enum DecodeFailure {
    /// The token has expired.
    Expired,
    /// Anything else.
    Refused,
}

/// The members of claims, in the order in which they are written.
pub open spec fn claims_members(c: ClaimsView) -> Seq<(Seq<char>, JsonView)> {
    seq![
        ("iss"@, JsonView::Str(c.iss)),
        ("iat"@, JsonView::Natural(c.iat)),
        ("exp"@, JsonView::Natural(c.exp)),
    ]
}

/// Claims as JSON.
pub open spec fn claims_json(c: ClaimsView) -> JsonView {
    object(claims_members(c))
}

/// The JSON text of claims.
pub open spec fn claims_text(c: ClaimsView) -> Seq<char> {
    object_text(claims_members(c))
}

/// Calls `ring::signature::Ed25519KeyPair::generate_pkcs8`; `None` where it fails.
/// Which key comes out is chance; `from_pkcs8` reads it.
#[verifier::external_body]
fn generate_pkcs8() -> (r: Option<Vec<u8>>)
    ensures
        r matches Some(der) ==> ed25519_public(der@) is Some,
{
    let rng = ring::rand::SystemRandom::new();
    ring::signature::Ed25519KeyPair::generate_pkcs8(&rng).ok().map(|d| d.as_ref().to_vec())
}

/// Calls `ring::signature::Ed25519KeyPair::from_pkcs8` and takes the public key. The
/// result is named; a public key has 32 bytes. A document is one DER value whose length
/// takes at most two bytes: `from_pkcs8` refuses any of more than 65539 bytes.
#[verifier::external_body]
fn pkcs8_public_key(der: &[u8]) -> (r: Option<Vec<u8>>)
    ensures
        match r {
            Some(key) => ed25519_public(der@) == Some(key@) && key@.len() == 32 && der@.len()
                <= 65539,
            None => ed25519_public(der@) is None,
        },
{
    let pair = ring::signature::Ed25519KeyPair::from_pkcs8(der).ok()?;
    Some(ring::signature::KeyPair::public_key(&pair).as_ref().to_vec())
}

/// Calls `jsonwebtoken::encode` with the algorithm EdDSA on the JSON text, carried as a
/// `serde_json::value::RawValue`. The token is named; of a JSON text, with a key that
/// `ring` reads, there is one, and `jsonwebtoken::decode` finds the claims of a request
/// in it under the public key.
#[verifier::external_body]
fn encode_token(der: &[u8], claims: &str) -> (r: Option<String>)
    ensures
        match r {
            Some(t) => jwt_token(der@, claims@) == Some(t@),
            None => jwt_token(der@, claims@) is None,
        },
        ed25519_public(der@) is Some && json_parsed(claims@) is Some ==> r is Some,
        r matches Some(t) ==> forall|c: ClaimsView|
            ed25519_public(der@) is Some && claims@ == #[trigger] claims_text(c) ==> jwt_claims(
                t@,
                ed25519_public(der@)->0,
                request_claims(),
            ) == Some(claims_json(c)),
{
    let raw = serde_json::value::RawValue::from_string(claims.to_owned()).ok()?;
    let header = jsonwebtoken::Header::new(jsonwebtoken::Algorithm::EdDSA);
    jsonwebtoken::encode(&header, &raw, &jsonwebtoken::EncodingKey::from_ed_der(der)).ok()
}

/// Calls `jsonwebtoken::decode` with `jsonwebtoken::Validation::new` for the algorithm
/// EdDSA, which refuses an expired token, and with the registered claims that must be
/// there. Claims that it returns are named. Only the expiry is held against the clock:
/// where another error comes back, the token holds no claims at any time. When a token
/// has expired is left unsaid, as it depends on the time of the call.
#[verifier::external_body]
fn decode_token(token: &str, public_key: &[u8], required: &[String]) -> (r: Result<
    serde_json::Value,
    DecodeFailure,
>)
    ensures
        match r {
            Ok(v) => jwt_claims(token@, public_key@, texts(required@)) == Some(value_model(v)),
            Err(DecodeFailure::Refused) => jwt_claims(token@, public_key@, texts(required@)) is None,
            Err(DecodeFailure::Expired) => true,
        },
{
    let key = jsonwebtoken::DecodingKey::from_ed_der(public_key);
    let mut validation = jsonwebtoken::Validation::new(jsonwebtoken::Algorithm::EdDSA);
    validation.set_required_spec_claims(required);
    match jsonwebtoken::decode::<serde_json::Value>(token, &key, &validation) {
        Ok(data) => Ok(data.claims),
        Err(e) => match e.kind() {
            jsonwebtoken::errors::ErrorKind::ExpiredSignature => Err(DecodeFailure::Expired),
            _ => Err(DecodeFailure::Refused),
        },
    }
}

// ─── Keys ───────────────────────────────────────────────────────────────────

/// A key pair that signs tokens.
pub struct KeyPair {
    /// The private key as a PKCS#8 document.
    private_key_der: Vec<u8>,
    /// The public key.
    public_key_bytes: Vec<u8>,
}

/// The PKCS#8 document and the public key.
pub ghost struct KeyView {
    pub der: Seq<u8>,
    pub public_key: Seq<u8>,
}

impl View for KeyPair {
    type V = KeyView;

    closed spec fn view(&self) -> KeyView {
        KeyView { der: self.private_key_der@, public_key: self.public_key_bytes@ }
    }
}

/// Whether the public key is that of the document.
pub open spec fn is_key_pair(k: KeyView) -> bool {
    ed25519_public(k.der) == Some(k.public_key) && k.public_key.len() == 32 && k.der.len() <= 65539
}

impl KeyPair {
    pub open spec fn wf(&self) -> bool {
        is_key_pair(self@)
    }

    /// Reads a key pair from a PKCS#8 document.
    pub fn from_der(der: Vec<u8>) -> (r: Result<Self, A2aError>)
        ensures
            match r {
                Ok(k) => k.wf() && k@.der == der@,
                Err(e) => e == A2aError::InvalidKey && ed25519_public(der@) is None,
            },
    {
        match pkcs8_public_key(der.as_slice()) {
            Some(public_key_bytes) => Ok(KeyPair { private_key_der: der, public_key_bytes }),
            None => Err(A2aError::InvalidKey),
        }
    }

    /// Generates a key pair.
    pub fn generate() -> (r: Result<Self, A2aError>)
        ensures
            match r {
                Ok(k) => k.wf(),
                Err(e) => e == A2aError::KeyGeneration,
            },
    {
        match generate_pkcs8() {
            Some(der) => Self::from_der(der),
            None => Err(A2aError::KeyGeneration),
        }
    }

    /// Reads a key pair from the PEM text of its private key.
    pub fn from_pem(pem: &str) -> (r: Result<Self, A2aError>)
        ensures
            match r {
                Ok(k) => k.wf() && pem_der(pem@) == Some(k@.der),
                Err(e) => if pem_der(pem@) is None {
                    e == A2aError::Pem
                } else {
                    e == A2aError::InvalidKey && ed25519_public(pem_der(pem@)->0) is None
                },
            },
    {
        match pem_to_der(pem) {
            Some(der) => Self::from_der(der),
            None => Err(A2aError::Pem),
        }
    }

    /// The PEM text of the private key. `from_pem` reads the key pair back.
    pub fn private_key_pem(&self) -> (r: String)
        requires
            self.wf(),
        ensures
            r@ == pem_text("PRIVATE KEY"@, base64_text(self@.der)),
            pem_der(r@) == Some(self@.der),
    {
        proof {
            reveal_strlit("PRIVATE KEY");
        }
        der_to_pem(self.private_key_der.as_slice(), "PRIVATE KEY")
    }

    /// The PEM text of the public key.
    pub fn public_key_pem(&self) -> (r: String)
        requires
            self.wf(),
        ensures
            r@ == pem_text("PUBLIC KEY"@, base64_text(self@.public_key)),
            pem_der(r@) == Some(self@.public_key),
    {
        proof {
            reveal_strlit("PUBLIC KEY");
        }
        der_to_pem(self.public_key_bytes.as_slice(), "PUBLIC KEY")
    }

    /// The public key, 32 bytes.
    pub fn public_key_bytes(&self) -> (r: &[u8])
        ensures
            r@ == self@.public_key,
    {
        self.public_key_bytes.as_slice()
    }

    /// The PKCS#8 document of the private key.
    pub fn private_key_der(&self) -> (r: &[u8])
        ensures
            r@ == self@.der,
    {
        self.private_key_der.as_slice()
    }

    /// The public key in URL-safe base64.
    pub fn public_key_base64url(&self) -> (r: String)
        requires
            self.wf(),
        ensures
            r@ == base64url_text(self@.public_key),
            base64url_bytes(r@) == Some(self@.public_key),
    {
        base64url_encode_bytes(self.public_key_bytes.as_slice())
    }

    /// Signs claims. The token holds them under the public key.
    pub fn sign_claims(&self, claims: &A2aClaims) -> (r: Result<String, A2aError>)
        requires
            self.wf(),
        ensures
            r matches Ok(t) && jwt_token(self@.der, claims_text(claims@)) == Some(t@) && jwt_claims(
                t@,
                self@.public_key,
                request_claims(),
            ) == Some(claims_json(claims@)),
    {
        proof {
            lemma_claims_json(claims@);
        }
        let text = claims_to_text(claims);
        match encode_token(self.private_key_der.as_slice(), text.as_str()) {
            Some(t) => Ok(t),
            None => Err(A2aError::Signing),
        }
    }

    /// Signs a token of the issuer that is good for `ttl_secs` from `now` on.
    pub fn sign_jwt(&self, issuer: &str, ttl_secs: u64, now: u64) -> (r: Result<String, A2aError>)
        requires
            self.wf(),
            now + ttl_secs <= u64::MAX,
        ensures
            ({
                let c = ClaimsView { iss: issuer@, iat: now, exp: (now + ttl_secs) as u64 };
                r matches Ok(t) && jwt_token(self@.der, claims_text(c)) == Some(t@) && jwt_claims(
                    t@,
                    self@.public_key,
                    request_claims(),
                ) == Some(claims_json(c))
            }),
    {
        let claims = A2aClaims { iss: issuer.to_owned(), iat: now, exp: now + ttl_secs };
        self.sign_claims(&claims)
    }
}

// ─── Claims ─────────────────────────────────────────────────────────────────

/// The claims that a JSON object holds. Claims in an array are none.
pub open spec fn claims_in(v: JsonView) -> Option<ClaimsView> {
    match (
        as_text(member(v, "iss"@)),
        as_natural(member(v, "iat"@)),
        as_natural(member(v, "exp"@)),
    ) {
        (Some(iss), Some(iat), Some(exp)) => Some(ClaimsView { iss, iat, exp }),
        _ => None,
    }
}

fn claims_to_text(c: &A2aClaims) -> (r: String)
    ensures
        r@ == claims_text(c@),
        plain_members(claims_members(c@)) ==> json_parsed(r@) == Some(claims_json(c@)),
{
    let r = ObjectBuilder::new().with_text("iss", c.iss.as_str()).with(
        "iat",
        Json::Number(JsonNumber::Natural(c.iat)),
    ).with("exp", Json::Number(JsonNumber::Natural(c.exp)));
    assert(r@ =~= claims_members(c@));
    r.text()
}

/// The claims that a JSON object holds.
pub fn claims_from_json(v: &Json) -> (r: Option<A2aClaims>)
    ensures
        match r {
            Some(c) => claims_in(v@) == Some(c@),
            None => claims_in(v@) is None,
        },
{
    match (v.str_member("iss"), v.u64_member("iat"), v.u64_member("exp")) {
        (Some(iss), Some(iat), Some(exp)) => Some(A2aClaims { iss: iss.to_owned(), iat, exp }),
        _ => None,
    }
}

proof fn lemma_claims_json(c: ClaimsView)
    ensures
        claims_in(claims_json(c)) == Some(c),
        plain_members(claims_members(c)),
{
    reveal_strlit("iss");
    reveal_strlit("iat");
    reveal_strlit("exp");
    assert("iss"@[1] == 's');
    assert("iat"@[1] == 'a');
    assert("exp"@[0] == 'e');
    assert("iss"@[0] == 'i');
    assert("iat"@[0] == 'i');
    let members = claims_members(c);
    assert(members[0].0 == "iss"@ && members[1].0 == "iat"@ && members[2].0 == "exp"@);
    lemma_object_member(members, 0);
    lemma_object_member(members, 1);
    lemma_object_member(members, 2);
    lemma_plain_members(members);
}

/// What a decoded token comes to: its claims, where they are those of a request.
pub fn verified_claims(decoded: Result<Json, DecodeFailure>) -> (r: Result<A2aClaims, A2aError>)
    ensures
        match decoded {
            Ok(v) => match claims_in(v@) {
                Some(c) => r matches Ok(d) && d@ == c,
                None => r == Err::<A2aClaims, A2aError>(A2aError::Claims),
            },
            Err(DecodeFailure::Expired) => r == Err::<A2aClaims, A2aError>(A2aError::Expired),
            Err(DecodeFailure::Refused) => r == Err::<A2aClaims, A2aError>(A2aError::Rejected),
        },
{
    match decoded {
        Ok(v) => match claims_from_json(&v) {
            Some(c) => Ok(c),
            None => Err(A2aError::Claims),
        },
        Err(DecodeFailure::Expired) => Err(A2aError::Expired),
        Err(DecodeFailure::Refused) => Err(A2aError::Rejected),
    }
}

/// What verifying a token under a public key can come to: the claims of the token, or
/// that they are not those of a request; a refusal, where the token holds none under
/// that key; or that it has expired.
pub open spec fn verified_as(
    token: Seq<char>,
    key: Seq<u8>,
    r: Result<A2aClaims, A2aError>,
) -> bool {
    let claims = jwt_claims(token, key, request_claims());
    match r {
        Ok(c) => claims matches Some(v) && claims_in(v) == Some(c@),
        Err(A2aError::Claims) => claims matches Some(v) && claims_in(v) is None,
        Err(A2aError::Rejected) => claims is None,
        Err(e) => e == A2aError::Expired,
    }
}

/// What verifying a token can come to under a public key in URL-safe base64.
pub open spec fn verified_base64_as(
    token: Seq<char>,
    key_text: Seq<char>,
    r: Result<A2aClaims, A2aError>,
) -> bool {
    match base64url_bytes(key_text) {
        Some(key) => verified_as(token, key, r),
        None => r == Err::<A2aClaims, A2aError>(A2aError::KeyText),
    }
}

/// Verifies a token under a public key. Whether it has expired is decided by the time
/// of the call.
pub fn verify_jwt(token: &str, public_key_bytes: &[u8]) -> (r: Result<A2aClaims, A2aError>)
    ensures
        verified_as(token@, public_key_bytes@, r),
{
    let mut required: Vec<String> = Vec::new();
    required.push("iss".to_owned());
    required.push("exp".to_owned());
    assert(texts(required@) =~= request_claims());
    let decoded = match decode_token(token, public_key_bytes, required.as_slice()) {
        Ok(value) => Ok(json_from_value(value)),
        Err(failure) => Err(failure),
    };
    verified_claims(decoded)
}

/// Verifies a token under a public key in URL-safe base64.
pub fn verify_jwt_base64(token: &str, public_key_b64: &str) -> (r: Result<A2aClaims, A2aError>)
    ensures
        verified_base64_as(token@, public_key_b64@, r),
{
    match base64_url_decode(public_key_b64) {
        Some(key) => verify_jwt(token, key.as_slice()),
        None => Err(A2aError::KeyText),
    }
}

/// A signed token is accepted until it expires: verifying a token that holds claims
/// under a public key, as one does that was signed with the key pair, gives these
/// claims or says that the token has expired, and nothing else.
pub proof fn law_signed_claims_come_back(
    token: Seq<char>,
    key: Seq<u8>,
    c: ClaimsView,
    r: Result<A2aClaims, A2aError>,
)
    requires
        jwt_claims(token, key, request_claims()) == Some(claims_json(c)),
        verified_as(token, key, r),
    ensures
        match r {
            Ok(d) => d@ == c,
            Err(e) => e == A2aError::Expired,
        },
{
    lemma_claims_json(c);
}

/// The same holds where the public key is given as it is published, in URL-safe base64.
pub proof fn law_signed_claims_come_back_base64(
    token: Seq<char>,
    key_text: Seq<char>,
    key: Seq<u8>,
    c: ClaimsView,
    r: Result<A2aClaims, A2aError>,
)
    requires
        base64url_bytes(key_text) == Some(key),
        jwt_claims(token, key, request_claims()) == Some(claims_json(c)),
        verified_base64_as(token, key_text, r),
    ensures
        match r {
            Ok(d) => d@ == c,
            Err(e) => e == A2aError::Expired,
        },
{
    law_signed_claims_come_back(token, key, c, r);
}

// ─── Key sets ───────────────────────────────────────────────────────────────

/// A published key.
#[derive(Debug, Clone)]
pub struct JwkKey {
    pub kty: String,
    pub crv: String,
    /// The public key in URL-safe base64.
    pub x: String,
}

/// The published keys.
#[derive(Debug, Clone)]
pub struct Jwks {
    pub keys: Vec<JwkKey>,
}

impl Jwks {
    /// The key set of one public key.
    pub fn from_public_key(public_key_bytes: &[u8]) -> (r: Self)
        requires
            public_key_bytes@.len() <= INPUT_MAX,
        ensures
            r.keys@.len() == 1,
            r.keys@[0].kty@ == "OKP"@,
            r.keys@[0].crv@ == "Ed25519"@,
            r.keys@[0].x@ == base64url_text(public_key_bytes@),
            base64url_bytes(r.keys@[0].x@) == Some(public_key_bytes@),
    {
        let mut keys: Vec<JwkKey> = Vec::new();
        keys.push(
            JwkKey {
                kty: "OKP".to_owned(),
                crv: "Ed25519".to_owned(),
                x: base64_url_encode(public_key_bytes),
            },
        );
        Jwks { keys }
    }
}

/// Writes bytes in URL-safe base64.
pub fn base64_url_encode(bytes: &[u8]) -> (r: String)
    requires
        bytes@.len() <= INPUT_MAX,
    ensures
        r@ == base64url_text(bytes@),
        base64url_bytes(r@) == Some(bytes@),
{
    base64url_encode_bytes(bytes)
}

/// Reads URL-safe base64.
pub fn base64_url_decode(s: &str) -> (r: Option<Vec<u8>>)
    ensures
        match r {
            Some(bytes) => base64url_bytes(s@) == Some(bytes@),
            None => base64url_bytes(s@) is None,
        },
{
    base64url_decode_text(s)
}

// ─── PEM ────────────────────────────────────────────────────────────────────

/// The lines that are no marks, one behind the other.
pub open spec fn unmarked(lines: Seq<Seq<char>>) -> Seq<char>
    decreases lines.len(),
{
    if lines.len() == 0 {
        Seq::empty()
    } else {
        let front = unmarked(lines.drop_last());
        if has_prefix(lines.last(), "-----"@) {
            front
        } else {
            front + lines.last()
        }
    }
}

/// The bytes in a PEM text.
pub open spec fn pem_der(pem: Seq<char>) -> Option<Seq<u8>> {
    base64_bytes(unmarked(lines_of(pem)))
}

/// The text in lines of 64 characters.
pub open spec fn wrapped(s: Seq<char>) -> Seq<char>
    decreases s.len(),
{
    if s.len() == 0 {
        Seq::empty()
    } else if s.len() <= 64 {
        s + "\n"@
    } else {
        s.take(64) + "\n"@ + wrapped(s.skip(64))
    }
}

/// The PEM text of a base64 text under a label.
pub open spec fn pem_text(label: Seq<char>, base64: Seq<char>) -> Seq<char> {
    "-----BEGIN "@ + label + "-----\n"@ + wrapped(base64) + "-----END "@ + label + "-----\n"@
}

/// Reads the bytes in a PEM text, whatever its labels.
pub fn pem_to_der(pem: &str) -> (r: Option<Vec<u8>>)
    ensures
        match r {
            Some(der) => pem_der(pem@) == Some(der@),
            None => pem_der(pem@) is None,
        },
{
    let all = lines(pem);
    let mut text = String::new();
    let mut i: usize = 0;
    assert(texts(all@).take(0) =~= Seq::<Seq<char>>::empty());
    while i < all.len()
        invariant
            i <= all@.len(),
            text@ == unmarked(texts(all@).take(i as int)),
        decreases all@.len() - i,
    {
        proof {
            let next = texts(all@).take(i + 1);
            assert(next.drop_last() =~= texts(all@).take(i as int));
            assert(next.last() == all@[i as int]@);
        }
        if !starts_with(all[i].as_str(), "-----") {
            text.append(all[i].as_str());
        }
        i += 1;
    }
    assert(texts(all@).take(all@.len() as int) =~= texts(all@));
    base64_decode_text(text.as_str())
}

/// The PEM text of bytes under a label. Where the label is on one line, `pem_to_der`
/// reads the bytes back.
pub fn der_to_pem(der: &[u8], label: &str) -> (r: String)
    requires
        der@.len() <= INPUT_MAX,
    ensures
        r@ == pem_text(label@, base64_text(der@)),
        (forall|i: int| 0 <= i < label@.len() ==> label@[i] != '\n') ==> pem_der(r@) == Some(der@),
{
    let base64 = base64_encode_bytes(der);
    let chars = to_chars(base64.as_str());
    let mut pem = concat3("-----BEGIN ", label, "-----\n");
    let ghost head = pem@;
    let mut i: usize = 0;
    assert(chars@.skip(0) =~= chars@);
    assert(pem@ + wrapped(chars@.skip(0)) =~= head + wrapped(chars@));
    while i < chars.len()
        invariant
            i <= chars@.len(),
            pem@ + wrapped(chars@.skip(i as int)) == head + wrapped(chars@),
        decreases chars@.len() - i,
    {
        let ghost before = pem@;
        let ghost rest = chars@.skip(i as int);
        let end: usize = if chars.len() - i > 64 {
            i + 64
        } else {
            chars.len()
        };
        let line = from_chars(&chars, i, end);
        pem.append(line.as_str());
        pem.append("\n");
        proof {
            if rest.len() > 64 {
                assert(line@ =~= rest.take(64));
                assert(rest.skip(64) =~= chars@.skip(end as int));
                assert(before + (rest.take(64) + "\n"@ + wrapped(rest.skip(64))) =~= before
                    + line@ + "\n"@ + wrapped(chars@.skip(end as int)));
            } else {
                assert(line@ =~= rest);
                assert(chars@.skip(end as int) =~= Seq::<char>::empty());
                assert(before + (rest + "\n"@) =~= before + line@ + "\n"@ + wrapped(
                    chars@.skip(end as int),
                ));
            }
        }
        i = end;
    }
    proof {
        assert(chars@.skip(i as int) =~= Seq::<char>::empty());
        assert(pem@ + wrapped(chars@.skip(i as int)) =~= pem@);
    }
    pem.append("-----END ");
    pem.append(label);
    pem.append("-----\n");
    proof {
        assert(pem@ =~= pem_text(label@, base64@));
        if forall|i: int| 0 <= i < label@.len() ==> label@[i] != '\n' {
            lemma_pem_body(label@, base64@);
        }
    }
    pem
}

proof fn lemma_pieces_front(line: Seq<char>, rest: Seq<char>)
    requires
        forall|i: int| 0 <= i < line.len() ==> line[i] != '\n',
    ensures
        pieces(line + "\n"@ + rest) == seq![line + "\n"@] + pieces(rest),
{
    reveal_strlit("\n");
    let s = line + "\n"@ + rest;
    assert(s[line.len() as int] == '\n');
    lemma_index_of(s, '\n', line.len() as int);
    assert(s.take(line.len() as int + 1) =~= line + "\n"@);
    assert(s.skip(line.len() as int + 1) =~= rest);
}

proof fn lemma_lines_front(line: Seq<char>, rest: Seq<char>)
    requires
        forall|i: int| 0 <= i < line.len() ==> line[i] != '\n',
        line.len() > 0 ==> line.last() != '\r',
    ensures
        lines_of(line + "\n"@ + rest) == seq![line] + lines_of(rest),
{
    reveal_strlit("\n");
    lemma_pieces_front(line, rest);
    let piece = line + "\n"@;
    assert(piece.drop_last() =~= line);
    assert(unterminated(piece) == line);
    assert(lines_of(line + "\n"@ + rest) =~= seq![line] + lines_of(rest));
}

proof fn lemma_unmarked_front(line: Seq<char>, rest: Seq<Seq<char>>)
    ensures
        unmarked(seq![line] + rest) == if has_prefix(line, "-----"@) {
            unmarked(rest)
        } else {
            line + unmarked(rest)
        },
    decreases rest.len(),
{
    let all = seq![line] + rest;
    if rest.len() == 0 {
        assert(all.drop_last() =~= Seq::<Seq<char>>::empty());
        assert(all.last() == line);
        assert(unmarked(all.drop_last()) == Seq::<char>::empty());
        assert(Seq::<char>::empty() + line =~= line + Seq::<char>::empty());
    } else {
        lemma_unmarked_front(line, rest.drop_last());
        assert(all.drop_last() =~= seq![line] + rest.drop_last());
        assert(all.last() == rest.last());
        if !has_prefix(rest.last(), "-----"@) {
            assert(line + unmarked(rest.drop_last()) + rest.last() =~= line + (unmarked(
                rest.drop_last(),
            ) + rest.last()));
        }
    }
}

/// The lines of a wrapped base64 text are no marks, and make up the text.
proof fn lemma_wrapped(s: Seq<char>, tail: Seq<char>)
    requires
        forall|i: int| 0 <= i < s.len() ==> is_base64_char(#[trigger] s[i]),
    ensures
        unmarked(lines_of(wrapped(s) + tail)) == s + unmarked(lines_of(tail)),
    decreases s.len(),
{
    reveal_strlit("-----");
    if s.len() == 0 {
        assert(wrapped(s) + tail =~= tail);
        assert(s + unmarked(lines_of(tail)) =~= unmarked(lines_of(tail)));
    } else {
        let line = if s.len() <= 64 { s } else { s.take(64) };
        let rest = if s.len() <= 64 { Seq::<char>::empty() } else { s.skip(64) };
        assert forall|i: int| 0 <= i < rest.len() implies is_base64_char(#[trigger] rest[i]) by {
            assert(is_base64_char(s[64 + i]));
        }
        assert forall|i: int| 0 <= i < line.len() implies line[i] != '\n' && line[i] != '\r'
            && line[i] != '-' by {
            assert(is_base64_char(s[i]));
        }
        lemma_wrapped(rest, tail);
        assert(wrapped(s) + tail =~= line + "\n"@ + (wrapped(rest) + tail));
        lemma_lines_front(line, wrapped(rest) + tail);
        lemma_unmarked_front(line, lines_of(wrapped(rest) + tail));
        assert(!has_prefix(line, "-----"@)) by {
            if has_prefix(line, "-----"@) {
                assert(line.take("-----"@.len() as int)[0] == line[0]);
            }
        }
        assert(s =~= line + rest);
        assert(line + (rest + unmarked(lines_of(tail))) =~= s + unmarked(lines_of(tail)));
    }
}

/// What lies between the marks of a PEM text is the base64 text.
proof fn lemma_pem_body(label: Seq<char>, base64: Seq<char>)
    requires
        forall|i: int| 0 <= i < label.len() ==> label[i] != '\n',
        forall|i: int| 0 <= i < base64.len() ==> is_base64_char(#[trigger] base64[i]),
    ensures
        unmarked(lines_of(pem_text(label, base64))) == base64,
{
    reveal_strlit("-----BEGIN ");
    reveal_strlit("-----END ");
    reveal_strlit("-----\n");
    reveal_strlit("-----");
    reveal_strlit("\n");
    let begin = "-----BEGIN "@ + label + "-----"@;
    let end = "-----END "@ + label + "-----"@;
    let none = Seq::<char>::empty();
    assert(pem_text(label, base64) =~= begin + "\n"@ + (wrapped(base64) + (end + "\n"@ + none)));
    lemma_lines_front(begin, wrapped(base64) + (end + "\n"@ + none));
    lemma_unmarked_front(begin, lines_of(wrapped(base64) + (end + "\n"@ + none)));
    assert(begin.take(5) =~= "-----"@);
    lemma_wrapped(base64, end + "\n"@ + none);
    lemma_lines_front(end, none);
    lemma_unmarked_front(end, lines_of(none));
    assert(end.take(5) =~= "-----"@);
    assert(lines_of(none) =~= Seq::<Seq<char>>::empty());
    assert(base64 + Seq::<char>::empty() =~= base64);
}

/// A token says who issued it, when, and until when it is good: verifying it gives these
/// claims, or says that it has expired.
pub proof fn law_token_says_who_and_when(
    k: &KeyPair,
    issuer: &str,
    ttl_secs: u64,
    now: u64,
    token: String,
    text: &str,
    key: &[u8],
    r: Result<A2aClaims, A2aError>,
)
    requires
        k.wf(),
        now + ttl_secs <= u64::MAX,
        call_ensures(KeyPair::sign_jwt, (k, issuer, ttl_secs, now), Ok(token)),
        text@ == token@,
        key@ == k@.public_key,
        call_ensures(verify_jwt, (text, key), r),
    ensures
        match r {
            Ok(c) => c.iss@ == issuer@ && c.iat == now && c.exp == now + ttl_secs,
            Err(e) => e == A2aError::Expired,
        },
{
    let c = ClaimsView { iss: issuer@, iat: now, exp: (now + ttl_secs) as u64 };
    law_signed_claims_come_back(token@, key@, c, r);
}

/// Claims are written and read under their registered names.
pub proof fn law_claims_by_name(c: ClaimsView, v: &Json, r: Option<A2aClaims>)
    requires
        call_ensures(claims_from_json, (v,), r),
    ensures
        member(claims_json(c), "iss"@) == Some(JsonView::Str(c.iss)),
        member(claims_json(c), "iat"@) == Some(JsonView::Natural(c.iat)),
        member(claims_json(c), "exp"@) == Some(JsonView::Natural(c.exp)),
        r matches Some(d) ==> member(v@, "iss"@) == Some(JsonView::Str(d.iss@)) && member(
            v@,
            "iat"@,
        ) == Some(JsonView::Natural(d.iat)) && member(v@, "exp"@) == Some(
            JsonView::Natural(d.exp),
        ),
        r is None ==> !(member(v@, "iss"@) matches Some(JsonView::Str(_))) || !(member(
            v@,
            "iat"@,
        ) matches Some(JsonView::Natural(_))) || !(member(v@, "exp"@) matches Some(
            JsonView::Natural(_),
        )),
{
    lemma_claims_json(c);
    reveal_strlit("iss");
    reveal_strlit("iat");
    reveal_strlit("exp");
    assert("iss"@[1] == 's' && "iss"@[0] == 'i');
    assert("iat"@[1] == 'a' && "iat"@[0] == 'i');
    assert("exp"@[0] == 'e');
    let members = claims_members(c);
    assert(members[0].0 == "iss"@ && members[1].0 == "iat"@ && members[2].0 == "exp"@);
    lemma_object_member(members, 0);
    lemma_object_member(members, 1);
    lemma_object_member(members, 2);
}

/// A key that was written as PEM is read back as the same key.
pub proof fn law_key_comes_back_from_pem(
    k: &KeyPair,
    pem: String,
    text: &str,
    r: Result<KeyPair, A2aError>,
)
    requires
        k.wf(),
        call_ensures(KeyPair::private_key_pem, (k,), pem),
        text@ == pem@,
        call_ensures(KeyPair::from_pem, (text,), r),
    ensures
        r matches Ok(b) && b@ == k@,
{
}

/// The base64 text in a PEM stands in lines of 64 characters, of which only the last may be
/// shorter.
pub proof fn law_lines_of_64(s: Seq<char>, i: int)
    requires
        forall|k: int| 0 <= k < s.len() ==> s[k] != '\n',
        0 <= i < wrapped(s).len(),
    ensures
        wrapped(s)[i] == '\n' <==> i % 65 == 64 || i == wrapped(s).len() - 1,
        s.len() > 0 ==> wrapped(s).last() == '\n',
        wrapped(s)[i] != '\n' ==> i - i / 65 < s.len() && wrapped(s)[i] == s[i - i / 65],
    decreases s.len(),
{
    reveal_strlit("\n");
    if s.len() > 64 {
        let rest = s.skip(64);
        assert forall|k: int| 0 <= k < rest.len() implies rest[k] != '\n' by {
            assert(s[64 + k] != '\n');
        }
        let w = wrapped(s);
        assert(w =~= s.take(64) + "\n"@ + wrapped(rest));
        assert(wrapped(rest).len() > 0);
        law_lines_of_64(rest, wrapped(rest).len() - 1);
        assert(w.last() == wrapped(rest).last());
        if i < 64 {
            assert(w[i] == s[i]);
        } else if i == 64 {
            assert(w[64] == '\n');
        } else {
            law_lines_of_64(rest, i - 65);
            assert(w[i] == wrapped(rest)[i - 65]);
        }
    }
}

} // verus!
