//! The web adapter: login by magic link, session cookies, rate limits, pages.

pub mod detail;
pub mod headers;
pub mod magic_link;
pub mod rate_limit;
pub mod routes;
pub mod secret;
pub mod session;
pub mod state;
pub mod templates;
