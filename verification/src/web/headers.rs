//! The security headers of every response.

use vstd::prelude::*;

verus! {

pub const HSTS_VALUE: &'static str = "max-age=31536000; includeSubDomains; preload";

pub const CSP_VALUE: &'static str = "default-src 'self'; script-src 'self'; style-src 'self'; img-src 'self' data:; connect-src 'self'; frame-ancestors 'none'";

/// The names and values of the headers, each name in lower case.
pub fn security_headers() -> (r: Vec<(&'static str, &'static str)>)
    ensures
        Seq::new(r@.len(), |i: int| (r@[i].0@, r@[i].1@)) == seq![
            ("strict-transport-security"@, HSTS_VALUE@),
            ("content-security-policy"@, CSP_VALUE@),
            ("x-content-type-options"@, "nosniff"@),
            ("referrer-policy"@, "no-referrer"@),
            ("x-frame-options"@, "DENY"@),
        ],
{
    let mut out: Vec<(&'static str, &'static str)> = Vec::new();
    out.push(("strict-transport-security", HSTS_VALUE));
    out.push(("content-security-policy", CSP_VALUE));
    out.push(("x-content-type-options", "nosniff"));
    out.push(("referrer-policy", "no-referrer"));
    out.push(("x-frame-options", "DENY"));
    assert(Seq::new(out@.len(), |i: int| (out@[i].0@, out@[i].1@)) =~= seq![
        ("strict-transport-security"@, HSTS_VALUE@),
        ("content-security-policy"@, CSP_VALUE@),
        ("x-content-type-options"@, "nosniff"@),
        ("referrer-policy"@, "no-referrer"@),
        ("x-frame-options"@, "DENY"@),
    ]);
    out
}

} // verus!
