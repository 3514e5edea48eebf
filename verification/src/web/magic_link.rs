//! Magic links: one-time login tokens.
//!
//! The store keeps the SHA-256 digest of a token, never the token itself. A token
//! works once, and not after its expiry.

use crate::crypto::INPUT_MAX;
use crate::crypto::hex_encode;
use crate::crypto::hex_text;
use crate::crypto::is_hex_digit;
use crate::crypto::is_token;
use crate::crypto::law_hex_text;
use crate::crypto::random_token;
use crate::crypto::sha256;
use crate::crypto::sha256_digest;
use crate::text::byte_len;
use crate::text::lemma_ascii_len;
use crate::text::lemma_byte_len_encodes;
use crate::text_map::TextMap;
use vstd::prelude::*;
use vstd::utf8::encode_utf8;

verus! {

/// A login that waits for its link to be followed.
#[derive(Debug, Clone, Copy, PartialEq, Eq, Structural)]
pub struct PendingToken {
    pub telegram_id: i64,
    /// Expiry, in seconds since the epoch.
    pub expires_at: i64,
}

/// The pending logins, by the digests of their tokens.
pub struct TokenStore {
    inner: TextMap<PendingToken>,
}

/// The key under which a token is stored: its SHA-256 digest in hexadecimal.
pub open spec fn token_key(token: Seq<char>) -> Seq<char> {
    hex_text(sha256_digest(encode_utf8(token)))
}

/// The key of a token.
pub fn hash_token(token: &str) -> (r: String)
    requires
        byte_len(token@) <= INPUT_MAX,
    ensures
        r@ == token_key(token@),
        r@.len() == 64,
        forall|i: int| 0 <= i < r@.len() ==> is_hex_digit(#[trigger] r@[i]),
{
    proof {
        lemma_byte_len_encodes(token@);
    }
    let digest = sha256(token.as_bytes());
    proof {
        law_hex_text(digest@);
    }
    hex_encode(digest.as_slice())
}

/// A random token; `None` where the system has no random bytes to give.
pub fn generate_token() -> (r: Option<String>)
    ensures
        r matches Some(t) ==> is_token(t@),
{
    random_token()
}

/// The login that a token stands for at the time, if it is one.
pub open spec fn redeemed(
    m: Map<Seq<char>, PendingToken>,
    token: Seq<char>,
    now: i64,
) -> Option<PendingToken> {
    if m.contains_key(token_key(token)) && now <= m[token_key(token)].expires_at {
        Some(m[token_key(token)])
    } else {
        None
    }
}

/// Whether the store holds the logins that have not expired, and no others.
pub open spec fn swept(
    before: Map<Seq<char>, PendingToken>,
    after: Map<Seq<char>, PendingToken>,
    now: i64,
) -> bool {
    forall|k: Seq<char>| #[trigger]
        after.contains_key(k) <==> before.contains_key(k) && before[k].expires_at >= now
}

impl View for TokenStore {
    type V = Map<Seq<char>, PendingToken>;

    closed spec fn view(&self) -> Map<Seq<char>, PendingToken> {
        self.inner@
    }
}

impl Default for TokenStore {
    fn default() -> (r: Self)
        ensures
            r.wf(),
            r@ == Map::<Seq<char>, PendingToken>::empty(),
    {
        TokenStore::new()
    }
}

impl TokenStore {
    pub closed spec fn wf(&self) -> bool {
        self.inner.wf()
    }

    /// A store without logins.
    pub fn new() -> (r: Self)
        ensures
            r.wf(),
            r@ == Map::<Seq<char>, PendingToken>::empty(),
    {
        TokenStore { inner: TextMap::new() }
    }

    /// Stores a login under the token.
    pub fn store(&mut self, token: &str, telegram_id: i64, expires_at: i64)
        requires
            old(self).wf(),
            byte_len(token@) <= INPUT_MAX,
        ensures
            final(self).wf(),
            final(self)@ == old(self)@.insert(
                token_key(token@),
                PendingToken { telegram_id, expires_at },
            ),
    {
        let key = hash_token(token);
        self.inner.insert(key, PendingToken { telegram_id, expires_at });
    }

    /// Stores a login under the token that was drawn for it, and hands the token out;
    /// `None`, and nothing stored, where none was drawn.
    pub fn issue_drawn(
        &mut self,
        drawn: Option<String>,
        telegram_id: i64,
        expires_at: i64,
    ) -> (r: Option<String>)
        requires
            old(self).wf(),
            drawn matches Some(t) ==> byte_len(t@) <= INPUT_MAX,
        ensures
            final(self).wf(),
            r == drawn,
            final(self)@ == (match drawn {
                Some(t) => old(self)@.insert(
                    token_key(t@),
                    PendingToken { telegram_id, expires_at },
                ),
                None => old(self)@,
            }),
    {
        match drawn {
            Some(token) => {
                self.store(token.as_str(), telegram_id, expires_at);
                Some(token)
            },
            None => None,
        }
    }

    /// Issues a token for a login, which is sent to the user and stored as a digest;
    /// `None`, and nothing stored, where the system has no random bytes to give.
    pub fn issue(&mut self, telegram_id: i64, expires_at: i64) -> (r: Option<String>)
        requires
            old(self).wf(),
        ensures
            final(self).wf(),
            match r {
                Some(token) => final(self)@ == old(self)@.insert(
                    token_key(token@),
                    PendingToken { telegram_id, expires_at },
                ) && is_token(token@) && byte_len(token@) == 43,
                None => final(self)@ == old(self)@,
            },
    {
        let drawn = generate_token();
        proof {
            if drawn is Some {
                lemma_ascii_len(drawn->0@);
            }
        }
        self.issue_drawn(drawn, telegram_id, expires_at)
    }

    /// Redeems a token. It is gone afterwards, expired or not.
    pub fn consume(&mut self, token: &str, now_unix: i64) -> (r: Option<PendingToken>)
        requires
            old(self).wf(),
            byte_len(token@) <= INPUT_MAX,
        ensures
            final(self).wf(),
            final(self)@ == old(self)@.remove(token_key(token@)),
            r == redeemed(old(self)@, token@, now_unix),
    {
        let key = hash_token(token);
        match self.inner.remove(key.as_str()) {
            Some(entry) => {
                if now_unix > entry.expires_at {
                    None
                } else {
                    Some(entry)
                }
            },
            None => None,
        }
    }

    /// Drops the logins that have expired.
    pub fn sweep_expired(&mut self, now_unix: i64)
        requires
            old(self).wf(),
        ensures
            final(self).wf(),
            swept(old(self)@, final(self)@, now_unix),
            final(self)@.submap_of(old(self)@),
    {
        let keys = self.inner.keys();
        let ghost before = self@;
        let mut i: usize = 0;
        while i < keys.len()
            invariant
                i <= keys@.len(),
                self.inner.wf(),
                before == old(self)@,
                forall|k: int| 0 <= k < keys@.len() ==> before.contains_key((#[trigger] keys@[k])@),
                self.inner@.submap_of(before),
                forall|k: int|
                    0 <= k < i ==> (self.inner@.contains_key((#[trigger] keys@[k])@)
                        <==> before[keys@[k]@].expires_at >= now_unix),
                forall|key: Seq<char>| #[trigger]
                    before.contains_key(key) && before[key].expires_at >= now_unix
                        ==> self.inner@.contains_key(key),
            decreases keys@.len() - i,
        {
            let key = keys[i].as_str();
            let expired = match self.inner.get(key) {
                Some(t) => t.expires_at < now_unix,
                None => false,
            };
            assert(before.contains_key(keys@[i as int]@));
            if expired {
                let _dropped = self.inner.remove(key);
            }
            i += 1;
        }
        proof {
            assert forall|key: Seq<char>| #[trigger] self@.contains_key(key) implies before[key].expires_at
                >= now_unix by {
                assert(before.contains_key(key));
                let k = choose|k: int| 0 <= k < keys@.len() && (#[trigger] keys@[k])@ == key;
                assert(self.inner@.contains_key(keys@[k]@));
            }
        }
    }

    /// Number of pending logins.
    pub fn len(&self) -> (r: usize)
        requires
            self.wf(),
        ensures
            r == self@.len(),
    {
        self.inner.len()
    }

    /// Whether no login is pending.
    pub fn is_empty(&self) -> (r: bool)
        requires
            self.wf(),
        ensures
            r == (self@.len() == 0),
    {
        self.inner.len() == 0
    }

    /// The keys of the pending logins.
    pub fn keys(&self) -> (r: Vec<String>)
        requires
            self.wf(),
        ensures
            r@.len() == self@.len(),
            forall|i: int| 0 <= i < r@.len() ==> self@.contains_key((#[trigger] r@[i])@),
            forall|k: Seq<char>| #[trigger]
                self@.contains_key(k) ==> exists|i: int|
                    0 <= i < r@.len() && (#[trigger] r@[i])@ == k,
    {
        self.inner.keys()
    }
}

// ─── Laws ───────────────────────────────────────────────────────────────────

/// A token that was just issued is redeemed up to its expiry, and not after it.
pub proof fn law_issued_is_redeemed(
    m: Map<Seq<char>, PendingToken>,
    token: Seq<char>,
    entry: PendingToken,
    now: i64,
)
    ensures
        redeemed(m.insert(token_key(token), entry), token, now) == if now <= entry.expires_at {
            Some(entry)
        } else {
            None
        },
{
}

/// A token works at most once, expired or not.
pub proof fn law_single_use(m: Map<Seq<char>, PendingToken>, token: Seq<char>, now: i64)
    ensures
        redeemed(m.remove(token_key(token)), token, now) is None,
{
}

/// Redeeming a token leaves the tokens with other keys as they were.
pub proof fn law_others_unaffected(
    m: Map<Seq<char>, PendingToken>,
    token: Seq<char>,
    other: Seq<char>,
    now: i64,
)
    requires
        token_key(token) != token_key(other),
    ensures
        redeemed(m.remove(token_key(token)), other, now) == redeemed(m, other, now),
{
}

/// Sweeping changes nothing for a token that is redeemed at that time or later.
pub proof fn law_sweep_keeps_valid(
    before: Map<Seq<char>, PendingToken>,
    after: Map<Seq<char>, PendingToken>,
    swept_at: i64,
    token: Seq<char>,
    now: i64,
)
    requires
        swept(before, after, swept_at),
        after.submap_of(before),
        swept_at <= now,
    ensures
        redeemed(after, token, now) == redeemed(before, token, now),
{
    let k = token_key(token);
    assert(after.contains_key(k) <==> before.contains_key(k) && before[k].expires_at >= swept_at);
}

/// A link works once: whatever a first use of the token gave, a second one gives nothing,
/// at any time.
pub proof fn law_link_works_once(
    first: &mut TokenStore,
    second: &mut TokenStore,
    token: &str,
    now: i64,
    later: i64,
    r: Option<PendingToken>,
    q: Option<PendingToken>,
)
    requires
        call_ensures(TokenStore::consume, (first, token, now), r),
        *second == *final(first),
        call_ensures(TokenStore::consume, (second, token, later), q),
    ensures
        q is None,
{
}

/// A login that was stored comes back to whoever uses its token up to the expiry, and to
/// nobody after it.
pub proof fn law_stored_login_comes_back(
    stored: &mut TokenStore,
    used: &mut TokenStore,
    token: &str,
    telegram_id: i64,
    expires_at: i64,
    now: i64,
    r: Option<PendingToken>,
)
    requires
        call_ensures(TokenStore::store, (stored, token, telegram_id, expires_at), ()),
        *used == *final(stored),
        call_ensures(TokenStore::consume, (used, token, now), r),
    ensures
        now <= expires_at ==> (r matches Some(p) && p.telegram_id == telegram_id && p.expires_at
            == expires_at),
        now > expires_at ==> r is None,
{
}

/// A token that was never stored is worth nothing.
pub proof fn law_unknown_token_is_worthless(
    fresh: TokenStore,
    used: &mut TokenStore,
    token: &str,
    now: i64,
    r: Option<PendingToken>,
)
    requires
        call_ensures(TokenStore::new, (), fresh),
        *used == fresh,
        call_ensures(TokenStore::consume, (used, token, now), r),
    ensures
        r is None,
{
}

/// Storing one login, or using one token, takes no other login away.
pub proof fn law_logins_do_not_disturb_each_other(
    stored: &mut TokenStore,
    used: &mut TokenStore,
    token: &str,
    other: Seq<char>,
    telegram_id: i64,
    expires_at: i64,
    now: i64,
    at: i64,
    r: Option<PendingToken>,
)
    requires
        call_ensures(TokenStore::store, (stored, token, telegram_id, expires_at), ()),
        call_ensures(TokenStore::consume, (used, token, now), r),
        token_key(other) != token_key(token@),
    ensures
        redeemed(final(stored)@, other, at) == redeemed(old(stored)@, other, at),
        redeemed(final(used)@, other, at) == redeemed(old(used)@, other, at),
{
}

/// A token stands for the login that is stored under its digest, while that has not
/// expired.
pub proof fn law_redeemed_by_digest_and_time(
    m: Map<Seq<char>, PendingToken>,
    token: Seq<char>,
    now: i64,
)
    ensures
        redeemed(m, token, now) is Some <==> m.contains_key(
            hex_text(sha256_digest(encode_utf8(token))),
        ) && now <= m[hex_text(sha256_digest(encode_utf8(token)))].expires_at,
        redeemed(m, token, now) matches Some(p) ==> p == m[hex_text(
            sha256_digest(encode_utf8(token)),
        )],
{
}

/// Sweeping drops what has expired, and nothing that has not.
pub proof fn law_sweep_drops_the_expired(store: &mut TokenStore, now: i64, key: Seq<char>)
    requires
        call_ensures(TokenStore::sweep_expired, (store, now), ()),
        old(store)@.contains_key(key),
    ensures
        old(store)@[key].expires_at < now ==> !final(store)@.contains_key(key),
        old(store)@[key].expires_at >= now ==> final(store)@.contains_key(key),
        old(store)@[key].expires_at >= now ==> final(store)@[key] == old(store)@[key],
{
    let before = old(store)@;
    let after = final(store)@;
    assert(after.contains_key(key) <==> before.contains_key(key) && before[key].expires_at >= now);
}

/// An issued token is the one that was drawn, and stands for the login until the expiry.
pub proof fn law_issued_token_is_the_drawn_one(
    store: &mut TokenStore,
    drawn: Option<String>,
    telegram_id: i64,
    expires_at: i64,
    r: Option<String>,
    now: i64,
)
    requires
        call_ensures(TokenStore::issue_drawn, (store, drawn, telegram_id, expires_at), r),
    ensures
        r == drawn,
        drawn is None ==> final(store)@ == old(store)@,
        drawn matches Some(t) ==> (now <= expires_at ==> redeemed(final(store)@, t@, now) == Some(
            PendingToken { telegram_id, expires_at },
        )),
{
}

} // verus!
