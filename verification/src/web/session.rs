//! Session cookies: a JSON payload in base64, a dot, and its HMAC-SHA256 in base64.
//!
//! A cookie is good if the tag is that of the payload and the payload has not
//! expired.

use crate::crypto::INPUT_MAX;
use crate::crypto::base64url_bytes;
use crate::crypto::base64url_decode_text;
use crate::crypto::base64url_encode_bytes;
use crate::crypto::base64url_text;
use crate::crypto::hmac_sign;
use crate::crypto::hmac_tag;
use crate::crypto::hmac_verify;
use crate::crypto::is_base64url_char;
use crate::crypto::is_token;
use crate::crypto::random_token;
use crate::json::Json;
use crate::json::JsonView;
use crate::json::ObjectBuilder;
use crate::json::as_integer;
use crate::json::as_text;
use crate::json::from_i64;
use crate::json::integer;
use crate::json::json_parsed;
use crate::json::lemma_object_member;
use crate::json::lemma_plain_members;
use crate::json::member;
use crate::json::object;
use crate::json::object_text;
use crate::json::parse_json;
use crate::json::plain_members;
use crate::text::byte_len;
use crate::text::concat3;
use crate::text::from_chars;
use crate::text::index_of;
use crate::text::lemma_byte_len_concat;
use crate::text::lemma_byte_len_encodes;
use crate::text::lemma_index_of;
use crate::text::lemma_utf8_text;
use crate::text::text_from_utf8;
use crate::text::text_len;
use crate::text::to_chars;
use crate::text::utf8_text;
use vstd::prelude::*;
use vstd::utf8::encode_utf8;

verus! {

/// What a session cookie says.
#[derive(Debug, Clone, PartialEq, Eq)]
pub struct SessionPayload {
    /// The Telegram user whose session it is.
    pub telegram_id: i64,
    /// When it was issued, in seconds since the epoch.
    pub iat: i64,
    /// When it expires, in seconds since the epoch.
    pub exp: i64,
    /// The session's token against forged requests.
    pub csrf: String,
}

/// The model of a payload.
pub ghost struct PayloadView {
    pub telegram_id: i64,
    pub iat: i64,
    pub exp: i64,
    pub csrf: Seq<char>,
}

impl View for SessionPayload {
    type V = PayloadView;

    open spec fn view(&self) -> PayloadView {
        PayloadView {
            telegram_id: self.telegram_id,
            iat: self.iat,
            exp: self.exp,
            csrf: self.csrf@,
        }
    }
}

impl SessionPayload {
    /// A payload that expires `ttl_secs` after `now_unix`.
    pub fn new(telegram_id: i64, now_unix: i64, ttl_secs: i64, csrf: String) -> (r: Self)
        requires
            i64::MIN <= now_unix + ttl_secs <= i64::MAX,
        ensures
            r@ == (PayloadView {
                telegram_id,
                iat: now_unix,
                exp: (now_unix + ttl_secs) as i64,
                csrf: csrf@,
            }),
    {
        SessionPayload { telegram_id, iat: now_unix, exp: now_unix + ttl_secs, csrf }
    }
}

/// The members of a payload in JSON.
pub open spec fn payload_members(p: PayloadView) -> Seq<(Seq<char>, JsonView)> {
    seq![
        ("telegram_id"@, integer(p.telegram_id)),
        ("iat"@, integer(p.iat)),
        ("exp"@, integer(p.exp)),
        ("csrf"@, JsonView::Str(p.csrf)),
    ]
}

/// The payload that a JSON object holds. Its fields in an array are no payload.
pub open spec fn payload_in(v: JsonView) -> Option<PayloadView> {
    match (
        as_integer(member(v, "telegram_id"@)),
        as_integer(member(v, "iat"@)),
        as_integer(member(v, "exp"@)),
        as_text(member(v, "csrf"@)),
    ) {
        (Some(telegram_id), Some(iat), Some(exp), Some(csrf)) => Some(
            PayloadView { telegram_id, iat, exp, csrf },
        ),
        _ => None,
    }
}

/// What is signed: the payload in base64.
pub open spec fn payload_text(p: PayloadView) -> Seq<char> {
    base64url_text(encode_utf8(object_text(payload_members(p))))
}

/// The tag of a text in base64.
pub open spec fn tag_text(text: Seq<char>, secret: Seq<u8>) -> Seq<char> {
    base64url_text(hmac_tag(secret, encode_utf8(text)))
}

/// The cookie of a payload.
pub open spec fn cookie_of(p: PayloadView, secret: Seq<u8>) -> Seq<char> {
    payload_text(p) + "."@ + tag_text(payload_text(p), secret)
}

/// The payload in base64 and JSON, read back.
pub open spec fn payload_read(text: Seq<char>) -> Option<PayloadView> {
    match base64url_bytes(text) {
        Some(bytes) => match utf8_text(bytes) {
            Some(json) => match json_parsed(json) {
                Some(v) => payload_in(v),
                None => None,
            },
            None => None,
        },
        None => None,
    }
}

/// What a cookie says, if it is good at the time.
pub open spec fn verified_cookie(
    cookie: Seq<char>,
    secret: Seq<u8>,
    now: i64,
) -> Option<PayloadView> {
    let dot = index_of(cookie, '.');
    if dot >= cookie.len() {
        None
    } else {
        let text = cookie.take(dot);
        if base64url_bytes(cookie.skip(dot + 1)) != Some(hmac_tag(secret, encode_utf8(text))) {
            None
        } else {
            match payload_read(text) {
                Some(p) if now <= p.exp => Some(p),
                _ => None,
            }
        }
    }
}

fn payload_to_text(p: &SessionPayload) -> (r: String)
    ensures
        r@ == object_text(payload_members(p@)),
        json_parsed(r@) == Some(object(payload_members(p@))),
{
    let r = ObjectBuilder::new().with("telegram_id", from_i64(p.telegram_id)).with(
        "iat",
        from_i64(p.iat),
    ).with("exp", from_i64(p.exp)).with_text("csrf", p.csrf.as_str());
    assert(r@ =~= payload_members(p@));
    proof {
        lemma_payload_json(p@);
    }
    r.text()
}

fn from_json(v: &Json) -> (r: Option<SessionPayload>)
    ensures
        match r {
            Some(p) => payload_in(v@) == Some(p@),
            None => payload_in(v@) is None,
        },
{
    match (
        v.i64_member("telegram_id"),
        v.i64_member("iat"),
        v.i64_member("exp"),
        v.str_member("csrf"),
    ) {
        (Some(telegram_id), Some(iat), Some(exp), Some(csrf)) => Some(
            SessionPayload { telegram_id, iat, exp, csrf: csrf.to_owned() },
        ),
        _ => None,
    }
}

/// A payload's JSON is plain, and holds the payload.
proof fn lemma_payload_json(p: PayloadView)
    ensures
        payload_in(object(payload_members(p))) == Some(p),
        plain_members(payload_members(p)),
{
    reveal_strlit("telegram_id");
    reveal_strlit("iat");
    reveal_strlit("exp");
    reveal_strlit("csrf");
    assert("iat"@[0] == 'i');
    assert("exp"@[0] == 'e');
    let members = payload_members(p);
    assert(members[1].0 == "iat"@ && members[2].0 == "exp"@ && members[3].0 == "csrf"@);
    lemma_object_member(members, 0);
    lemma_object_member(members, 1);
    lemma_object_member(members, 2);
    lemma_object_member(members, 3);
    lemma_plain_members(members);
}

/// A cookie that was signed is good up to its expiry, and says what was signed.
proof fn lemma_cookie_round_trip(p: PayloadView, secret: Seq<u8>, now: i64)
    requires
        json_parsed(object_text(payload_members(p))) == Some(object(payload_members(p))),
        base64url_bytes(payload_text(p)) == Some(encode_utf8(object_text(payload_members(p)))),
        base64url_bytes(tag_text(payload_text(p), secret)) == Some(
            hmac_tag(secret, encode_utf8(payload_text(p))),
        ),
        forall|i: int|
            0 <= i < payload_text(p).len() ==> is_base64url_char(#[trigger] payload_text(p)[i]),
    ensures
        verified_cookie(cookie_of(p, secret), secret, now) == if now <= p.exp {
            Some(p)
        } else {
            None
        },
{
    reveal_strlit(".");
    let text = payload_text(p);
    let cookie = cookie_of(p, secret);
    assert forall|i: int| 0 <= i < text.len() implies cookie[i] != '.' by {
        assert(is_base64url_char(text[i]));
    }
    lemma_index_of(cookie, '.', text.len() as int);
    assert(cookie.take(text.len() as int) =~= text);
    assert(cookie.skip(text.len() as int + 1) =~= tag_text(text, secret));
    lemma_utf8_text(object_text(payload_members(p)));
    lemma_payload_json(p);
}

/// Whether the payload and the secret are short enough to be signed.
pub open spec fn signable(p: PayloadView, secret: Seq<u8>) -> bool {
    &&& byte_len(object_text(payload_members(p))) <= INPUT_MAX
    &&& byte_len(payload_text(p)) <= INPUT_MAX
    &&& secret.len() <= INPUT_MAX
}

/// Signs a payload. Up to its expiry, the cookie is good under the same secret and
/// says what was signed.
pub fn sign(payload: &SessionPayload, secret: &[u8]) -> (r: String)
    requires
        signable(payload@, secret@),
    ensures
        r@ == cookie_of(payload@, secret@),
        forall|now: i64| #[trigger]
            verified_cookie(r@, secret@, now) == if now <= payload.exp {
                Some(payload@)
            } else {
                None
            },
{
    let json = payload_to_text(payload);
    proof {
        lemma_payload_json(payload@);
        lemma_byte_len_encodes(json@);
    }
    let text = base64url_encode_bytes(json.as_str().as_bytes());
    proof {
        lemma_byte_len_encodes(text@);
    }
    let tag = hmac_sign(secret, text.as_str().as_bytes());
    let tag_b64 = base64url_encode_bytes(tag.as_slice());
    let cookie = concat3(text.as_str(), ".", tag_b64.as_str());
    proof {
        assert forall|now: i64| #[trigger] verified_cookie(cookie@, secret@, now) == if now
            <= payload.exp {
            Some(payload@)
        } else {
            None
        } by {
            lemma_cookie_round_trip(payload@, secret@, now);
        }
    }
    cookie
}

/// Signs a payload; `None` where it or the secret is too long.
pub fn try_sign(payload: &SessionPayload, secret: &[u8]) -> (r: Option<String>)
    ensures
        match r {
            Some(cookie) => signable(payload@, secret@) && cookie@ == cookie_of(payload@, secret@),
            None => !signable(payload@, secret@),
        },
{
    let json = payload_to_text(payload);
    if text_len(json.as_str()) > INPUT_MAX || secret.len() > INPUT_MAX {
        return None;
    }
    proof {
        lemma_byte_len_encodes(json@);
    }
    let text = base64url_encode_bytes(json.as_str().as_bytes());
    if text_len(text.as_str()) > INPUT_MAX {
        return None;
    }
    Some(sign(payload, secret))
}

/// Verifies a cookie: what it says, if its tag is right and it has not expired.
pub fn verify(cookie: &str, secret: &[u8], now_unix: i64) -> (r: Option<SessionPayload>)
    requires
        byte_len(cookie@) <= INPUT_MAX,
        secret@.len() <= INPUT_MAX,
    ensures
        match r {
            Some(p) => verified_cookie(cookie@, secret@, now_unix) == Some(p@),
            None => verified_cookie(cookie@, secret@, now_unix) is None,
        },
{
    let chars = to_chars(cookie);
    let mut dot: usize = 0;
    while dot < chars.len() && chars[dot] != '.'
        invariant
            dot <= chars@.len(),
            forall|k: int| 0 <= k < dot ==> chars@[k] != '.',
        decreases chars@.len() - dot,
    {
        dot += 1;
    }
    proof {
        lemma_index_of(chars@, '.', dot as int);
    }
    if dot == chars.len() {
        return None;
    }
    let text = from_chars(&chars, 0, dot);
    let tag_b64 = from_chars(&chars, dot + 1, chars.len());
    proof {
        assert(text@ =~= cookie@.take(dot as int));
        assert(tag_b64@ =~= cookie@.skip(dot + 1));
        assert(cookie@ =~= text@ + cookie@.skip(dot as int));
        lemma_byte_len_concat(text@, cookie@.skip(dot as int));
        lemma_byte_len_encodes(text@);
    }
    let tag = match base64url_decode_text(tag_b64.as_str()) {
        Some(t) => t,
        None => {
            return None;
        },
    };
    if !hmac_verify(secret, text.as_str().as_bytes(), tag.as_slice()) {
        return None;
    }
    let payload = match base64url_decode_text(text.as_str()) {
        Some(bytes) => match text_from_utf8(bytes) {
            Some(json) => match parse_json(json.as_str()) {
                Some(v) => from_json(&v),
                None => None,
            },
            None => None,
        },
        None => None,
    };
    match payload {
        Some(p) => if now_unix > p.exp {
            None
        } else {
            Some(p)
        },
        None => None,
    }
}

/// A random token against forged requests; `None` where the system has no random
/// bytes to give.
pub fn generate_csrf_token() -> (r: Option<String>)
    ensures
        r matches Some(t) ==> is_token(t@),
{
    random_token()
}

// ─── Laws ───────────────────────────────────────────────────────────────────

/// An expired cookie is refused, whatever else it says.
pub proof fn law_expired_refused(cookie: Seq<char>, secret: Seq<u8>, now: i64)
    ensures
        verified_cookie(cookie, secret, now) matches Some(p) ==> now <= p.exp,
{
}

/// A cookie that was good stays so until its expiry.
pub proof fn law_good_until_expiry(cookie: Seq<char>, secret: Seq<u8>, now: i64, earlier: i64)
    requires
        earlier <= now,
        verified_cookie(cookie, secret, now) is Some,
    ensures
        verified_cookie(cookie, secret, earlier) == verified_cookie(cookie, secret, now),
{
}

/// Only a cookie with the right tag is good: a tag of another text or under another
/// secret is refused, unless it is the same.
pub proof fn law_tag_decides(cookie: Seq<char>, secret: Seq<u8>, now: i64)
    requires
        verified_cookie(cookie, secret, now) is Some,
    ensures
        ({
            let dot = index_of(cookie, '.');
            base64url_bytes(cookie.skip(dot + 1)) == Some(
                hmac_tag(secret, encode_utf8(cookie.take(dot))),
            )
        }),
{
}

/// What was signed is what comes back: under the same secret a cookie gives, up to its
/// expiry, every field of the payload, and nothing after it.
pub proof fn law_signed_payload_comes_back(
    payload: &SessionPayload,
    secret: &[u8],
    cookie: String,
    presented: &str,
    now: i64,
    r: Option<SessionPayload>,
)
    requires
        call_ensures(sign, (payload, secret), cookie),
        presented@ == cookie@,
        call_ensures(verify, (presented, secret, now), r),
    ensures
        now <= payload.exp ==> (r matches Some(p) && p.telegram_id == payload.telegram_id && p.iat
            == payload.iat && p.exp == payload.exp && p.csrf@ == payload.csrf@),
        now > payload.exp ==> r is None,
{
    assert(verified_cookie(cookie@, secret@, now) == if now <= payload.exp {
        Some(payload@)
    } else {
        None
    });
}

/// A session lasts as long as it was made for, from the time at which it was made.
pub proof fn law_session_lasts_its_time(
    telegram_id: i64,
    now_unix: i64,
    ttl_secs: i64,
    csrf: String,
    r: SessionPayload,
)
    requires
        i64::MIN <= now_unix + ttl_secs <= i64::MAX,
        call_ensures(SessionPayload::new, (telegram_id, now_unix, ttl_secs, csrf), r),
    ensures
        r.telegram_id == telegram_id,
        r.iat == now_unix,
        r.exp - r.iat == ttl_secs,
        r.csrf@ == csrf@,
{
    assert(r@.exp == (now_unix + ttl_secs) as i64);
}

/// What a good cookie says stands in front of its dot: the fields of a JSON object in
/// base64, signed under the secret.
pub proof fn law_good_cookie_says_what_it_holds(
    cookie: Seq<char>,
    secret: Seq<u8>,
    now: i64,
    text: Seq<char>,
    tag: Seq<char>,
    p: PayloadView,
)
    requires
        cookie == text + seq!['.'] + tag,
        !text.contains('.'),
        verified_cookie(cookie, secret, now) == Some(p),
    ensures
        base64url_bytes(tag) == Some(hmac_tag(secret, encode_utf8(text))),
        base64url_bytes(text) is Some,
        utf8_text(base64url_bytes(text)->0) is Some,
        json_parsed(utf8_text(base64url_bytes(text)->0)->0) is Some,
        ({
            let v = json_parsed(utf8_text(base64url_bytes(text)->0)->0)->0;
            &&& as_integer(member(v, "telegram_id"@)) == Some(p.telegram_id)
            &&& as_integer(member(v, "iat"@)) == Some(p.iat)
            &&& as_integer(member(v, "exp"@)) == Some(p.exp)
            &&& member(v, "csrf"@) == Some(JsonView::Str(p.csrf))
        }),
        now <= p.exp,
{
    assert forall|i: int| 0 <= i < text.len() implies cookie[i] != '.' by {
        assert(text.contains(text[i]));
    }
    assert(cookie[text.len() as int] == '.');
    lemma_index_of(cookie, '.', text.len() as int);
    assert(cookie.take(text.len() as int) =~= text);
    assert(cookie.skip(text.len() as int + 1) =~= tag);
}

} // verus!
