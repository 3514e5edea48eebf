//! What the routes of the web adapter answer.

use crate::crypto::INPUT_MAX;
use crate::text::byte_len;
use crate::text::opt_text;
use crate::web::detail::home_in;
use crate::web::detail::home_of;
use crate::web::session::SessionPayload;
use crate::web::session::verified_cookie;
use crate::web::session::verify;
use vstd::prelude::*;

verus! {

/// Where a visitor without a session is sent.
pub const LOGIN_PATH: &'static str = "/login";

pub const HTML_CONTENT_TYPE: &'static str = "text/html; charset=utf-8";

pub const JS_CONTENT_TYPE: &'static str = "application/javascript; charset=utf-8";

pub const JS_CACHE_CONTROL: &'static str = "public, max-age=3600";

/// The answer to a request for an agent's page.
#[derive(Debug, Clone)]
pub enum DetailAnswer {
    /// The visitor has no good session and is sent to the login page.
    Login,
    /// The page is shown to the user; `home` is the home directory of the agent, where
    /// there is an agent of that name.
    Show { telegram_id: i64, csrf: String, home: Option<String> },
}

/// Decides on a request for an agent's page by the session cookie.
pub fn agent_detail(
    cookie: Option<&str>,
    secret: &[u8],
    now_unix: i64,
    agent_homes: &Vec<(String, String)>,
    name: &str,
) -> (r: DetailAnswer)
    requires
        cookie matches Some(c) ==> byte_len(c@) <= INPUT_MAX,
        secret@.len() <= INPUT_MAX,
    ensures
        match r {
            DetailAnswer::Login => match cookie {
                Some(c) => verified_cookie(c@, secret@, now_unix) is None,
                None => true,
            },
            DetailAnswer::Show { telegram_id, csrf, home } => cookie matches Some(c)
                && verified_cookie(c@, secret@, now_unix) matches Some(p) && telegram_id
                == p.telegram_id && csrf@ == p.csrf && opt_text(home) == home_in(
                agent_homes@,
                name@,
            ),
        },
{
    let payload = match cookie {
        Some(c) => verify(c, secret, now_unix),
        None => None,
    };
    match payload {
        Some(p) => DetailAnswer::Show {
            telegram_id: p.telegram_id,
            csrf: p.csrf,
            home: home_of(agent_homes, name),
        },
        None => DetailAnswer::Login,
    }
}

/// A visitor without a cookie is sent to the login page. With a cookie that was signed for
/// a user, the page is shown to that user until the session expires, and not after.
pub proof fn law_page_is_for_users_with_a_session(
    payload: &SessionPayload,
    secret: &[u8],
    cookie: String,
    presented: &str,
    now: i64,
    homes: &Vec<(String, String)>,
    name: &str,
    with_cookie: DetailAnswer,
    without: DetailAnswer,
)
    requires
        call_ensures(crate::web::session::sign, (payload, secret), cookie),
        presented@ == cookie@,
        call_ensures(agent_detail, (Some(presented), secret, now, homes, name), with_cookie),
        call_ensures(agent_detail, (None, secret, now, homes, name), without),
    ensures
        without is Login,
        now > payload.exp ==> with_cookie is Login,
        now <= payload.exp ==> (with_cookie matches DetailAnswer::Show { telegram_id, csrf, home }
            && telegram_id == payload.telegram_id && csrf@ == payload.csrf@ && opt_text(home)
            == home_in(homes@, name@)),
{
    assert(verified_cookie(cookie@, secret@, now) == if now <= payload.exp {
        Some(payload@)
    } else {
        None
    });
}

} // verus!
