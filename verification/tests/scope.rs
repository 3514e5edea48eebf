use deskd::app::scope::{ScopeBackend, ScopeHandle, UnixUserBackend};
use deskd::text_map::TextMap;

fn handle(work_dir: &str) -> ScopeHandle {
    ScopeHandle {
        scope_path: "/dev".into(),
        work_dir: work_dir.into(),
        user: None,
        env: TextMap::new(),
    }
}

#[test]
fn unix_user_can_access_within_scope() {
    let handle = handle("/tmp");
    let backend = UnixUserBackend;
    assert!(backend.can_access(&handle, "/tmp/child", None, None));
    assert!(backend.can_access(&handle, "/tmp", None, None));
}

#[test]
fn unix_user_denies_outside_scope() {
    let handle = handle("/tmp/sandbox");
    let backend = UnixUserBackend;
    assert!(!backend.can_access(&handle, "/etc/passwd", None, None));
}

#[test]
fn unix_user_describe() {
    let mut env = TextMap::new();
    env.insert("API_KEY".into(), "secret".to_string());
    let handle = ScopeHandle {
        scope_path: "/dev".into(),
        work_dir: "/home/dev".into(),
        user: Some("dev".into()),
        env,
    };
    let backend = UnixUserBackend;
    let info = backend.describe(&handle);
    assert_eq!(info.scope_type, "unix-user");
    assert_eq!(info.user, Some("dev".into()));
    assert!(info.env_keys.contains(&"API_KEY".to_string()));
    assert_eq!(info.env_keys.len(), 1);
}

#[test]
fn unix_user_provision_and_deprovision() {
    let backend = UnixUserBackend;
    let handle = backend.provision("/test", "/tmp", TextMap::new());
    assert_eq!(handle.scope_path, "/test");
    assert_eq!(backend.work_dir(&handle), "/tmp");
    assert!(backend.deprovision(&handle).is_ok());
}

#[test]
fn resolved_paths_count() {
    let backend = UnixUserBackend;
    let handle = handle("/link");
    assert!(backend.can_access(&handle, "/link/x", Some("/real/x"), Some("/real")));
    assert!(!backend.can_access(&handle, "/link/../etc", Some("/etc"), Some("/real")));
    assert!(!backend.can_access(&handle, "/linked", None, None));
}
