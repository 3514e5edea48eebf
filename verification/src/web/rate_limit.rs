//! Rate limits: at most so many requests per key and window of time.
//!
//! A window opens with the first request of its key, and again with the first one
//! after it has passed.

use crate::text_map::TextMap;
use vstd::prelude::*;

verus! {

/// The window of a key.
#[derive(Debug, Clone, Copy, PartialEq, Eq, Structural)]
pub struct Bucket {
    /// Requests allowed in the window.
    pub count: u32,
    /// When the window opened, in seconds.
    pub window_start: i64,
}

/// A rate limiter.
pub struct RateLimiter {
    buckets: TextMap<Bucket>,
    limit: u32,
    window_secs: i64,
}

/// The window that a request of the key falls in.
pub open spec fn window_for(
    m: Map<Seq<char>, Bucket>,
    key: Seq<char>,
    now: i64,
    window_secs: i64,
) -> Bucket {
    if m.contains_key(key) && now - m[key].window_start < window_secs {
        m[key]
    } else {
        Bucket { count: 0, window_start: now }
    }
}

/// Whether a request of the key is allowed.
pub open spec fn allows(
    m: Map<Seq<char>, Bucket>,
    key: Seq<char>,
    now: i64,
    limit: u32,
    window_secs: i64,
) -> bool {
    window_for(m, key, now, window_secs).count < limit
}

/// The windows after a request of the key.
pub open spec fn recorded(
    m: Map<Seq<char>, Bucket>,
    key: Seq<char>,
    now: i64,
    limit: u32,
    window_secs: i64,
) -> Map<Seq<char>, Bucket> {
    let w = window_for(m, key, now, window_secs);
    m.insert(
        key,
        Bucket {
            count: if w.count < limit {
                (w.count + 1) as u32
            } else {
                w.count
            },
            window_start: w.window_start,
        },
    )
}

impl View for RateLimiter {
    type V = Map<Seq<char>, Bucket>;

    closed spec fn view(&self) -> Map<Seq<char>, Bucket> {
        self.buckets@
    }
}

impl RateLimiter {
    /// Requests that a window allows.
    pub closed spec fn limit(&self) -> u32 {
        self.limit
    }

    /// Length of a window in seconds.
    pub closed spec fn window_secs(&self) -> i64 {
        self.window_secs
    }

    /// No window has allowed more than the limit.
    pub closed spec fn wf(&self) -> bool {
        &&& self.buckets.wf()
        &&& self.window_secs >= 1
        &&& within_limit(self.buckets@, self.limit)
    }

    /// A limiter of `limit` requests per window; a window lasts at least one second.
    pub fn new(limit: u32, window_secs: i64) -> (r: Self)
        ensures
            r.wf(),
            r@ == Map::<Seq<char>, Bucket>::empty(),
            r.limit() == limit,
            r.window_secs() == if window_secs < 1 {
                1
            } else {
                window_secs
            },
    {
        RateLimiter {
            buckets: TextMap::new(),
            limit,
            window_secs: if window_secs < 1 {
                1
            } else {
                window_secs
            },
        }
    }

    /// Whether a request of the key may proceed; if so, it is counted.
    pub fn check_and_record(&mut self, key: &str, now_unix: i64) -> (r: bool)
        requires
            old(self).wf(),
        ensures
            final(self).wf(),
            final(self).limit() == old(self).limit(),
            final(self).window_secs() == old(self).window_secs(),
            r == allows(old(self)@, key@, now_unix, old(self).limit(), old(self).window_secs()),
            final(self)@ == recorded(
                old(self)@,
                key@,
                now_unix,
                old(self).limit(),
                old(self).window_secs(),
            ),
    {
        let current: Bucket = match self.buckets.get(key) {
            Some(b) => {
                if now_unix as i128 - b.window_start as i128 >= self.window_secs as i128 {
                    Bucket { count: 0, window_start: now_unix }
                } else {
                    *b
                }
            },
            None => Bucket { count: 0, window_start: now_unix },
        };
        proof {
            law_recorded_within_limit(self.buckets@, key@, now_unix, self.limit, self.window_secs);
        }
        let allowed = current.count < self.limit;
        let next: Bucket = if allowed {
            Bucket { count: current.count + 1, window_start: current.window_start }
        } else {
            current
        };
        self.buckets.insert(key.to_owned(), next);
        allowed
    }
}

// ─── Laws ───────────────────────────────────────────────────────────────────

/// Whether no window has allowed more than the limit.
pub open spec fn within_limit(m: Map<Seq<char>, Bucket>, limit: u32) -> bool {
    forall|k: Seq<char>| #[trigger] m.contains_key(k) ==> m[k].count <= limit
}

/// No request takes a window beyond the limit.
pub proof fn law_recorded_within_limit(
    m: Map<Seq<char>, Bucket>,
    key: Seq<char>,
    now: i64,
    limit: u32,
    window_secs: i64,
)
    requires
        within_limit(m, limit),
    ensures
        within_limit(recorded(m, key, now, limit, window_secs), limit),
{
    assert(m.contains_key(key) ==> m[key].count <= limit);
}

/// Requests of one key leave those of another as they were.
pub proof fn law_keys_independent(
    m: Map<Seq<char>, Bucket>,
    a: Seq<char>,
    b: Seq<char>,
    now_a: i64,
    now_b: i64,
    limit: u32,
    window_secs: i64,
)
    requires
        a != b,
    ensures
        allows(recorded(m, a, now_a, limit, window_secs), b, now_b, limit, window_secs) == allows(
            m,
            b,
            now_b,
            limit,
            window_secs,
        ),
{
}

/// Once the window has passed, a request is allowed again.
pub proof fn law_window_resets(
    m: Map<Seq<char>, Bucket>,
    key: Seq<char>,
    now: i64,
    limit: u32,
    window_secs: i64,
)
    requires
        limit > 0,
        m.contains_key(key),
        now - m[key].window_start >= window_secs,
    ensures
        allows(m, key, now, limit, window_secs),
{
}

/// A request: its key and its time.
pub ghost struct RequestView {
    pub key: Seq<char>,
    pub time: i64,
}

/// The windows after the requests, of whatever keys.
pub open spec fn after_requests(
    m: Map<Seq<char>, Bucket>,
    requests: Seq<RequestView>,
    limit: u32,
    window_secs: i64,
) -> Map<Seq<char>, Bucket>
    decreases requests.len(),
{
    if requests.len() == 0 {
        m
    } else {
        recorded(
            after_requests(m, requests.drop_last(), limit, window_secs),
            requests.last().key,
            requests.last().time,
            limit,
            window_secs,
        )
    }
}

/// The times of the requests of the key, in their order.
pub open spec fn times_of(requests: Seq<RequestView>, key: Seq<char>) -> Seq<i64>
    decreases requests.len(),
{
    if requests.len() == 0 {
        Seq::empty()
    } else {
        let front = times_of(requests.drop_last(), key);
        if requests.last().key == key {
            front.push(requests.last().time)
        } else {
            front
        }
    }
}

/// How many requests of the key are allowed.
pub open spec fn allowed_requests(
    m: Map<Seq<char>, Bucket>,
    key: Seq<char>,
    requests: Seq<RequestView>,
    limit: u32,
    window_secs: i64,
) -> nat
    decreases requests.len(),
{
    if requests.len() == 0 {
        0
    } else {
        let front = requests.drop_last();
        allowed_requests(m, key, front, limit, window_secs) + (if requests.last().key == key
            && allows(
            after_requests(m, front, limit, window_secs),
            key,
            requests.last().time,
            limit,
            window_secs,
        ) {
            1nat
        } else {
            0
        })
    }
}

/// Of the requests of a key within a window that opens with the first of them, the first
/// ones up to the limit are allowed, whatever requests of other keys come in between.
pub proof fn law_window_allows_limit(
    m: Map<Seq<char>, Bucket>,
    key: Seq<char>,
    requests: Seq<RequestView>,
    limit: u32,
    window_secs: i64,
)
    requires
        window_secs >= 1,
        m.contains_key(key) && times_of(requests, key).len() > 0 ==> times_of(requests, key)[0]
            - m[key].window_start >= window_secs,
        forall|i: int|
            0 <= i < times_of(requests, key).len() ==> (#[trigger] times_of(requests, key)[i])
                - times_of(requests, key)[0] < window_secs,
    ensures
        allowed_requests(m, key, requests, limit, window_secs) == if times_of(requests, key).len()
            <= limit {
            times_of(requests, key).len()
        } else {
            limit as nat
        },
        times_of(requests, key).len() == 0 ==> after_requests(
            m,
            requests,
            limit,
            window_secs,
        ).contains_key(key) == m.contains_key(key) && after_requests(
            m,
            requests,
            limit,
            window_secs,
        )[key] == m[key],
        times_of(requests, key).len() > 0 ==> after_requests(
            m,
            requests,
            limit,
            window_secs,
        ).contains_key(key) && after_requests(m, requests, limit, window_secs)[key] == (Bucket {
            count: allowed_requests(m, key, requests, limit, window_secs) as u32,
            window_start: times_of(requests, key)[0],
        }),
    decreases requests.len(),
{
    if requests.len() > 0 {
        let front = requests.drop_last();
        let times = times_of(requests, key);
        let earlier = times_of(front, key);
        assert forall|i: int| 0 <= i < earlier.len() implies (#[trigger] earlier[i]) - earlier[0]
            < window_secs by {
            assert(times[i] - times[0] < window_secs);
        }
        law_window_allows_limit(m, key, front, limit, window_secs);
        if requests.last().key == key {
            assert(times[times.len() - 1] - times[0] < window_secs);
        }
    }
}

/// Under a limit, a request of a key that was not seen before is allowed, and so is one
/// after the window of its key has passed.
pub proof fn law_first_request_is_allowed(
    limiter: &mut RateLimiter,
    key: &str,
    now: i64,
    r: bool,
)
    requires
        call_ensures(RateLimiter::check_and_record, (limiter, key, now), r),
        old(limiter).limit() > 0,
        !old(limiter)@.contains_key(key@) || now - old(limiter)@[key@].window_start >= old(limiter).window_secs(),
    ensures
        r,
        final(limiter)@.contains_key(key@),
        final(limiter)@[key@].count == 1,
        final(limiter)@[key@].window_start == now,
{
}

/// Within a window, a request is allowed while fewer than the limit were, and counted
/// where it is allowed. The window stays where it opened.
pub proof fn law_window_counts_up_to_the_limit(
    limiter: &mut RateLimiter,
    key: &str,
    now: i64,
    r: bool,
)
    requires
        call_ensures(RateLimiter::check_and_record, (limiter, key, now), r),
        old(limiter)@.contains_key(key@),
        now - old(limiter)@[key@].window_start < old(limiter).window_secs(),
    ensures
        r <==> old(limiter)@[key@].count < old(limiter).limit(),
        final(limiter)@[key@].count == old(limiter)@[key@].count + (if r {
            1int
        } else {
            0
        }),
        final(limiter)@[key@].window_start == old(limiter)@[key@].window_start,
        final(limiter).limit() == old(limiter).limit(),
        final(limiter).window_secs() == old(limiter).window_secs(),
{
}

/// A limiter allows what it was made for, in windows of at least a second.
pub proof fn law_limiter_as_made(limit: u32, window_secs: i64, r: RateLimiter, key: Seq<char>)
    requires
        call_ensures(RateLimiter::new, (limit, window_secs), r),
    ensures
        r.limit() == limit,
        window_secs >= 1 ==> r.window_secs() == window_secs,
        window_secs < 1 ==> r.window_secs() == 1,
        !r@.contains_key(key),
{
}

} // verus!
