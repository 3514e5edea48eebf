use base64::Engine;
use deskd::web::detail::{agent_disk_detail_html, home_of, BreakdownEntry, UpdatedAt, BREAKDOWN_LIMIT};
use deskd::web::headers::{security_headers, CSP_VALUE, HSTS_VALUE};
use deskd::web::rate_limit::RateLimiter;
use deskd::web::routes::{agent_detail, DetailAnswer};
use deskd::web::secret::{load_or_create, secret_of, LoadedSecret, SecretError, SECRET_LEN};
use deskd::web::session::{generate_csrf_token, sign, try_sign, verify, SessionPayload};
use deskd::web::state::{build_state, build_state_with_dispatcher, state_with, WebConfig};
use deskd::web::templates::{dashboard_page, html_escape, link_sent_page, login_page};

fn secret() -> [u8; 32] {
    let mut s = [0u8; 32];
    for (i, b) in s.iter_mut().enumerate() {
        *b = i as u8;
    }
    s
}

#[test]
fn round_trip_signs_and_verifies() {
    let p = SessionPayload::new(123, 1000, 3600, "csrf-abc".into());
    let cookie = sign(&p, &secret());
    let v = verify(&cookie, &secret(), 1500).unwrap();
    assert_eq!(v, p);
}

#[test]
fn rejects_expired_cookie() {
    let p = SessionPayload::new(7, 1000, 100, "x".into());
    let cookie = sign(&p, &secret());
    assert!(verify(&cookie, &secret(), 1101).is_none());
}

#[test]
fn accepts_at_exact_expiry_boundary() {
    let p = SessionPayload::new(7, 1000, 100, "x".into());
    let cookie = sign(&p, &secret());
    assert!(verify(&cookie, &secret(), 1100).is_some());
}

#[test]
fn rejects_tampered_payload() {
    let p = SessionPayload::new(123, 1000, 3600, "csrf-abc".into());
    let cookie = sign(&p, &secret());
    let first = cookie.chars().next().unwrap();
    let new_first = if first == 'A' { 'B' } else { 'A' };
    let bad = format!("{}{}", new_first, &cookie[1..]);
    assert!(verify(&bad, &secret(), 1500).is_none());
}

#[test]
fn rejects_tampered_signature() {
    let p = SessionPayload::new(1, 1000, 3600, "x".into());
    let cookie = sign(&p, &secret());
    let last = cookie.len() - 1;
    let new_last = if cookie.ends_with('A') { 'B' } else { 'A' };
    let bad = format!("{}{}", &cookie[..last], new_last);
    assert!(verify(&bad, &secret(), 1500).is_none());
}

#[test]
fn rejects_wrong_secret() {
    let p = SessionPayload::new(1, 1000, 3600, "x".into());
    let cookie = sign(&p, &secret());
    let mut other = secret();
    other[0] ^= 0xff;
    assert!(verify(&cookie, &other, 1500).is_none());
}

#[test]
fn rejects_malformed_cookie() {
    assert!(verify("garbage", &secret(), 0).is_none());
    assert!(verify("only.one.two", &secret(), 0).is_none());
}

#[test]
fn csrf_token_is_unique() {
    let a = generate_csrf_token().unwrap();
    let b = generate_csrf_token().unwrap();
    assert_ne!(a, b);
    assert!(a.len() >= 32);
}

#[test]
fn cookie_holds_the_payload_in_json() {
    let p = SessionPayload::new(-5, 10, 20, "c\"d".into());
    let cookie = try_sign(&p, &secret()).unwrap();
    let (payload, tag) = cookie.split_once('.').unwrap();
    let json = base64::engine::general_purpose::URL_SAFE_NO_PAD.decode(payload).unwrap();
    assert_eq!(
        String::from_utf8(json).unwrap(),
        r#"{"telegram_id":-5,"iat":10,"exp":30,"csrf":"c\"d"}"#
    );
    let key = ring::hmac::Key::new(ring::hmac::HMAC_SHA256, &secret());
    let expected = ring::hmac::sign(&key, payload.as_bytes());
    assert_eq!(tag, base64::engine::general_purpose::URL_SAFE_NO_PAD.encode(expected.as_ref()));
}

#[test]
fn allows_under_limit() {
    let mut rl = RateLimiter::new(3, 60);
    assert!(rl.check_and_record("ip", 0));
    assert!(rl.check_and_record("ip", 1));
    assert!(rl.check_and_record("ip", 2));
}

#[test]
fn rejects_over_limit() {
    let mut rl = RateLimiter::new(2, 60);
    assert!(rl.check_and_record("ip", 0));
    assert!(rl.check_and_record("ip", 1));
    assert!(!rl.check_and_record("ip", 2));
    assert!(!rl.check_and_record("ip", 30));
}

#[test]
fn resets_after_window() {
    let mut rl = RateLimiter::new(2, 60);
    assert!(rl.check_and_record("ip", 0));
    assert!(rl.check_and_record("ip", 1));
    assert!(!rl.check_and_record("ip", 2));
    assert!(rl.check_and_record("ip", 60));
    assert!(rl.check_and_record("ip", 90));
    assert!(!rl.check_and_record("ip", 100));
}

#[test]
fn keys_are_independent() {
    let mut rl = RateLimiter::new(1, 60);
    assert!(rl.check_and_record("ip-a", 0));
    assert!(!rl.check_and_record("ip-a", 0));
    assert!(rl.check_and_record("ip-b", 0));
}

#[test]
fn login_page_includes_csrf_token() {
    let html = login_page("token-xyz");
    assert!(html.contains(r#"value="token-xyz""#));
    assert!(html.contains(r#"action="/login/request""#));
}

#[test]
fn login_page_escapes_csrf_token() {
    let html = login_page("<script>alert(1)</script>");
    assert!(!html.contains("<script>alert(1)</script>"));
    assert!(html.contains("&lt;script&gt;"));
}

#[test]
fn dashboard_page_includes_logout_form() {
    let html = dashboard_page(42, "csrf-1");
    assert!(html.contains("Telegram user <strong>42</strong>"));
    assert!(html.contains(r#"action="/logout""#));
    assert!(html.contains(r#"value="csrf-1""#));
}

#[test]
fn escaping_and_static_page() {
    assert_eq!(html_escape("a&b<c>\"d'"), "a&amp;b&lt;c&gt;&quot;d&#39;");
    assert_eq!(html_escape("plain · text"), "plain · text");
    assert!(link_sent_page().contains("<h1>Login link sent</h1>"));
}

#[test]
fn renders_em_dash_when_no_data() {
    let html = agent_disk_detail_html(None, None, &None, &vec![]);
    assert!(html.contains("—"));
    assert!(html.contains("No subdirectory data available"));
    assert!(html.contains("<h3>top 1 subdirectories</h3>"));
}

#[test]
fn lists_breakdown_largest_first() {
    let breakdown = vec![
        BreakdownEntry { name: ".cargo".into(), size: "800.0 MiB".into() },
        BreakdownEntry { name: "projects".into(), size: "400.0 MiB".into() },
    ];
    let html = agent_disk_detail_html(Some("/home/kira"), Some("1.2 GiB"), &None, &breakdown);
    assert!(html.contains("<code>/home/kira</code>"));
    assert!(html.contains(".cargo"));
    assert!(html.contains("projects"));
    let i_cargo = html.find(".cargo").unwrap();
    let i_proj = html.find("projects").unwrap();
    assert!(i_cargo < i_proj);
    assert!(html.contains("<h3>top 2 subdirectories</h3>"));
}

#[test]
fn updated_tooltip_carries_rfc3339() {
    let when = chrono::DateTime::parse_from_rfc3339("2026-01-01T12:00:00Z")
        .unwrap()
        .with_timezone(&chrono::Utc);
    let updated = Some(UpdatedAt { full: when.to_rfc3339(), relative: "just now".into() });
    let html = agent_disk_detail_html(Some("/home/kira"), Some("0 B"), &updated, &vec![]);
    assert!(html.contains(r#"title="2026-01-01T12:00:00+00:00""#));
}

#[test]
fn escapes_subdir_names_for_xss_safety() {
    let breakdown = vec![BreakdownEntry { name: "<x>".into(), size: "1 B".into() }];
    let html = agent_disk_detail_html(None, None, &None, &breakdown);
    assert!(html.contains("&lt;x&gt;"));
    assert!(!html.contains("<x>"));
}

#[test]
fn homes_are_found_by_name() {
    let homes = vec![("a".to_string(), "/a".to_string()), ("b".into(), "/b".into()), ("a".into(), "/c".into())];
    assert_eq!(home_of(&homes, "a"), Some("/a".to_string()));
    assert_eq!(home_of(&homes, "b"), Some("/b".to_string()));
    assert_eq!(home_of(&homes, "c"), None);
    assert_eq!(BREAKDOWN_LIMIT, 5);
}

#[test]
fn generates_secret_when_missing() {
    let s = load_or_create(None).unwrap();
    assert_eq!(s.bytes.len(), SECRET_LEN);
    assert!(s.fresh);
}

#[test]
fn returns_existing_secret_on_second_call() {
    let s1 = load_or_create(None).unwrap();
    let s2 = load_or_create(Some(s1.bytes.clone())).unwrap();
    assert_eq!(s1.bytes, s2.bytes);
    assert!(!s2.fresh);
}

#[test]
fn generated_secret_is_non_zero() {
    let s = load_or_create(None).unwrap();
    assert!(s.bytes.iter().any(|&b| b != 0));
}

#[test]
fn rejects_wrong_length_secret() {
    let res = load_or_create(Some(b"too short".to_vec()));
    assert!(res.is_err());
    let e = res.unwrap_err();
    assert_eq!(e, SecretError::WrongLength(9));
    assert_eq!(e.message("/s"), "web-secret at /s has wrong length 9 (expected 32)");
    assert_eq!(SecretError::NoRandomness.message("/s"), "OS RNG failure generating web-secret");
}

#[test]
fn headers_of_a_response() {
    let h = security_headers();
    assert_eq!(h.len(), 5);
    assert_eq!(h[0], ("strict-transport-security", HSTS_VALUE));
    assert_eq!(h[1], ("content-security-policy", CSP_VALUE));
    assert_eq!(h[4], ("x-frame-options", "DENY"));
}

fn config() -> WebConfig {
    WebConfig { bind: "127.0.0.1:1".into(), audit_log: "/tmp/a".into(), auth_requests_per_hour: 2 }
}

#[test]
fn state_at_the_start() {
    let mut state = build_state_with_dispatcher(config(), secret().to_vec(), vec![], None);
    assert!(state.tokens.is_empty());
    assert!(state.rate_limiter_ip.check_and_record("ip", 0));
    assert!(state.rate_limiter_ip.check_and_record("ip", 3599));
    assert!(!state.rate_limiter_ip.check_and_record("ip", 3599));
    assert!(state.rate_limiter_ip.check_and_record("ip", 3600));
    let (state, fresh) = build_state(config(), None, "/bus".into(), vec![]).unwrap();
    assert!(fresh);
    assert_eq!(state.metrics_bus.as_deref(), Some("/bus"));
    assert!(build_state(config(), Some(vec![1]), "/bus".into(), vec![]).is_err());
}

#[test]
fn pages_need_a_session() {
    let homes = vec![("kira".to_string(), "/home/kira".to_string())];
    let p = SessionPayload::new(7, 1000, 60, "tok".into());
    let cookie = sign(&p, &secret());
    match agent_detail(Some(&cookie), &secret(), 1010, &homes, "kira") {
        DetailAnswer::Show { telegram_id, csrf, home } => {
            assert_eq!(telegram_id, 7);
            assert_eq!(csrf, "tok");
            assert_eq!(home.as_deref(), Some("/home/kira"));
        }
        DetailAnswer::Login => panic!("the session is good"),
    }
    assert!(matches!(
        agent_detail(Some(&cookie), &secret(), 1010, &homes, "nobody"),
        DetailAnswer::Show { home: None, .. }
    ));
    assert!(matches!(
        agent_detail(Some(&cookie), &secret(), 2000, &homes, "kira"),
        DetailAnswer::Login
    ));
    assert!(matches!(agent_detail(None, &secret(), 0, &homes, "kira"), DetailAnswer::Login));
}

#[test]
fn the_secret_is_kept_or_drawn() {
    let s = secret_of(Some(vec![1; 32]), None).unwrap();
    assert_eq!(s.bytes, vec![1; 32]);
    assert!(!s.fresh);
    let s = secret_of(Some(vec![1; 32]), Some(vec![2; 32])).unwrap();
    assert_eq!(s.bytes, vec![1; 32]);
    assert_eq!(secret_of(Some(vec![1; 31]), Some(vec![2; 32])).unwrap_err(), SecretError::WrongLength(31));
    let s = secret_of(None, Some(vec![2; 32])).unwrap();
    assert_eq!(s.bytes, vec![2; 32]);
    assert!(s.fresh);
    assert_eq!(secret_of(None, None).unwrap_err(), SecretError::NoRandomness);
}

#[test]
fn the_state_takes_the_secret() {
    let homes = vec![("a".to_string(), "/a".to_string())];
    let secret = LoadedSecret { bytes: vec![7; 32], fresh: true };
    let (state, fresh) = state_with(Ok(secret), config(), "/bus".into(), homes).unwrap();
    assert!(fresh);
    assert_eq!(state.secret, vec![7; 32]);
    assert_eq!(state.metrics_bus.as_deref(), Some("/bus"));
    assert_eq!(state.agent_homes.len(), 1);
    let r = state_with(Err(SecretError::NoRandomness), config(), "/bus".into(), vec![]);
    assert_eq!(r.err(), Some(SecretError::NoRandomness));
}

#[test]
fn other_keys_leave_a_window_alone() {
    let mut rl = RateLimiter::new(2, 60);
    assert!(rl.check_and_record("a", 0));
    assert!(rl.check_and_record("b", 1));
    assert!(rl.check_and_record("a", 2));
    assert!(rl.check_and_record("c", 70));
    assert!(!rl.check_and_record("a", 59));
    assert!(rl.check_and_record("b", 60));
    assert!(!rl.check_and_record("b", 60));
}
