//! What the web adapter holds between requests.

use crate::web::magic_link::PendingToken;
use crate::web::magic_link::TokenStore;
use crate::web::rate_limit::Bucket;
use crate::web::rate_limit::RateLimiter;
use crate::web::secret::LoadedSecret;
use crate::web::secret::SECRET_LEN;
use crate::web::secret::SecretError;
use crate::web::secret::is_secret_of;
use crate::web::secret::load_or_create;
use vstd::prelude::*;

verus! {

/// Seconds of a window of the rate limits.
pub const RATE_WINDOW_SECS: i64 = 3600;

/// The configuration of the web adapter.
#[derive(Debug, Clone)]
pub struct WebConfig {
    /// The address that the server listens on.
    pub bind: String,
    pub audit_log: String,
    /// How many logins may be asked for per hour.
    pub auth_requests_per_hour: u32,
}

/// The state of the web adapter.
pub struct WebState {
    pub cfg: WebConfig,
    pub secret: Vec<u8>,
    pub tokens: TokenStore,
    /// Requests per address.
    pub rate_limiter_ip: RateLimiter,
    /// Requests per Telegram user.
    pub rate_limiter_tg: RateLimiter,
    /// The agents with their home directories.
    pub agent_homes: Vec<(String, String)>,
    /// The bus that metrics are asked for on.
    pub metrics_bus: Option<String>,
}

impl WebState {
    pub open spec fn wf(&self) -> bool {
        &&& self.secret@.len() == SECRET_LEN
        &&& self.tokens.wf()
        &&& self.rate_limiter_ip.wf()
        &&& self.rate_limiter_tg.wf()
    }
}

/// The state at the start: no login is pending, nobody has asked for one, and both
/// limits are those of the configuration.
pub fn build_state_with_dispatcher(
    cfg: WebConfig,
    secret: Vec<u8>,
    agent_homes: Vec<(String, String)>,
    metrics_bus: Option<String>,
) -> (r: WebState)
    requires
        secret@.len() == SECRET_LEN,
    ensures
        r.wf(),
        r.cfg == cfg,
        r.secret@ == secret@,
        r.tokens@ == Map::<Seq<char>, PendingToken>::empty(),
        r.rate_limiter_ip@ == Map::<Seq<char>, Bucket>::empty(),
        r.rate_limiter_tg@ == Map::<Seq<char>, Bucket>::empty(),
        r.rate_limiter_ip.limit() == cfg.auth_requests_per_hour,
        r.rate_limiter_tg.limit() == cfg.auth_requests_per_hour,
        r.rate_limiter_ip.window_secs() == RATE_WINDOW_SECS,
        r.rate_limiter_tg.window_secs() == RATE_WINDOW_SECS,
        r.agent_homes == agent_homes,
        r.metrics_bus == metrics_bus,
{
    let limit: u32 = cfg.auth_requests_per_hour;
    WebState {
        cfg,
        secret,
        tokens: TokenStore::new(),
        rate_limiter_ip: RateLimiter::new(limit, RATE_WINDOW_SECS),
        rate_limiter_tg: RateLimiter::new(limit, RATE_WINDOW_SECS),
        agent_homes,
        metrics_bus,
    }
}

/// Whether the result is the state at the start with the secret, or the reason why there
/// is no secret.
pub open spec fn starts_with_secret(
    secret: Result<LoadedSecret, SecretError>,
    cfg: WebConfig,
    bus_socket: String,
    agent_homes: Vec<(String, String)>,
    r: Result<(WebState, bool), SecretError>,
) -> bool {
    match secret {
        Ok(s) => r matches Ok((state, fresh)) && {
            &&& state.wf()
            &&& state.secret@ == s.bytes@
            &&& fresh == s.fresh
            &&& state.cfg == cfg
            &&& state.agent_homes == agent_homes
            &&& state.metrics_bus == Some(bus_socket)
            &&& state.tokens@ == Map::<Seq<char>, PendingToken>::empty()
            &&& state.rate_limiter_ip@ == Map::<Seq<char>, Bucket>::empty()
            &&& state.rate_limiter_tg@ == Map::<Seq<char>, Bucket>::empty()
            &&& state.rate_limiter_ip.window_secs() == RATE_WINDOW_SECS
            &&& state.rate_limiter_tg.window_secs() == RATE_WINDOW_SECS
            &&& state.rate_limiter_ip.limit() == cfg.auth_requests_per_hour
            &&& state.rate_limiter_tg.limit() == cfg.auth_requests_per_hour
        },
        Err(e) => r == Err::<(WebState, bool), SecretError>(e),
    }
}

/// The state with a secret that was loaded or created; the second result says whether it
/// is new. Metrics are asked for on the same bus.
pub fn state_with(
    secret: Result<LoadedSecret, SecretError>,
    cfg: WebConfig,
    bus_socket: String,
    agent_homes: Vec<(String, String)>,
) -> (r: Result<(WebState, bool), SecretError>)
    requires
        secret matches Ok(s) ==> s.bytes@.len() == SECRET_LEN,
    ensures
        starts_with_secret(secret, cfg, bus_socket, agent_homes, r),
{
    match secret {
        Ok(secret) => Ok(
            (
                build_state_with_dispatcher(cfg, secret.bytes, agent_homes, Some(bus_socket)),
                secret.fresh,
            ),
        ),
        Err(e) => Err(e),
    }
}

/// The state with the kept secret, or with a new one where none is kept, which is drawn
/// by chance; the second result says whether it is new. Metrics are asked for on the same
/// bus.
pub fn build_state(
    cfg: WebConfig,
    kept_secret: Option<Vec<u8>>,
    bus_socket: String,
    agent_homes: Vec<(String, String)>,
) -> (r: Result<(WebState, bool), SecretError>)
    ensures
        exists|secret: Result<LoadedSecret, SecretError>, drawn: Option<Seq<u8>>|
            #![trigger is_secret_of(kept_secret, drawn, secret)]
            is_secret_of(kept_secret, drawn, secret) && (drawn matches Some(b) ==> b.len()
                == SECRET_LEN) && starts_with_secret(secret, cfg, bus_socket, agent_homes, r),
{
    let secret = load_or_create(kept_secret);
    state_with(secret, cfg, bus_socket, agent_homes)
}

/// The adapter starts with nothing pending, and allows each address and each user as many
/// logins per hour as are configured.
pub proof fn law_adapter_starts_afresh(
    cfg: WebConfig,
    secret: Vec<u8>,
    homes: Vec<(String, String)>,
    bus: Option<String>,
    r: WebState,
    key: Seq<char>,
)
    requires
        secret@.len() == 32,
        call_ensures(build_state_with_dispatcher, (cfg, secret, homes, bus), r),
    ensures
        !r.tokens@.contains_key(key),
        !r.rate_limiter_ip@.contains_key(key),
        !r.rate_limiter_tg@.contains_key(key),
        r.rate_limiter_ip.limit() == cfg.auth_requests_per_hour,
        r.rate_limiter_tg.limit() == cfg.auth_requests_per_hour,
        r.rate_limiter_ip.window_secs() == 60 * 60,
        r.rate_limiter_tg.window_secs() == 60 * 60,
        r.secret@ == secret@,
{
}

} // verus!
