//! Agent scopes: what a scope may reach, and what is said of it.

use crate::infra::paths::is_within;
use crate::infra::paths::within;
use crate::text::opt_text;
use crate::text_map::TextMap;
use vstd::prelude::*;

verus! {

/// What is said of a scope.
#[derive(Debug, Clone)]
pub struct ScopeInfo {
    pub scope_type: String,
    pub work_dir: String,
    pub user: Option<String>,
    pub env_keys: Vec<String>,
}

/// A scope that was set up.
pub struct ScopeHandle {
    pub scope_path: String,
    pub work_dir: String,
    pub user: Option<String>,
    pub env: TextMap<String>,
}

/// What a path resolves to, or the path itself where that is unknown.
pub open spec fn resolved_or(resolved: Option<&str>, path: Seq<char>) -> Seq<char> {
    match resolved {
        Some(p) => p@,
        None => path,
    }
}

/// Maps scopes to isolation by the operating system. The caller resolves paths and
/// creates directories.
pub trait ScopeBackend {
    /// The scope at the path, which works in the directory.
    fn provision(&self, scope_path: &str, work_dir: &str, env: TextMap<String>) -> (r: ScopeHandle);

    /// Whether the path is within the scope. Where the path, or the directory of the
    /// scope, could be resolved, what it resolves to counts.
    fn can_access(
        &self,
        handle: &ScopeHandle,
        path: &str,
        resolved_path: Option<&str>,
        resolved_dir: Option<&str>,
    ) -> (r: bool);

    /// The directory in which the scope works.
    fn work_dir<'a>(&self, handle: &'a ScopeHandle) -> (r: &'a str);

    /// What there is to say of the scope.
    fn describe(&self, handle: &ScopeHandle) -> (r: ScopeInfo)
        requires
            handle.env.wf(),
    ;

    /// Tears the scope down.
    fn deprovision(&self, handle: &ScopeHandle) -> (r: Result<(), String>);
}

/// The default backend: a scope is a directory of a Unix user.
pub struct UnixUserBackend;

impl ScopeBackend for UnixUserBackend {
    fn provision(&self, scope_path: &str, work_dir: &str, env: TextMap<String>) -> (r: ScopeHandle)
        ensures
            r.scope_path@ == scope_path@,
            r.work_dir@ == work_dir@,
            r.user is None,
            r.env == env,
    {
        ScopeHandle {
            scope_path: scope_path.to_owned(),
            work_dir: work_dir.to_owned(),
            user: None,
            env,
        }
    }

    fn can_access(
        &self,
        handle: &ScopeHandle,
        path: &str,
        resolved_path: Option<&str>,
        resolved_dir: Option<&str>,
    ) -> (r: bool)
        ensures
            r == within(resolved_or(resolved_path, path@), resolved_or(
                resolved_dir,
                handle.work_dir@,
            )),
    {
        let target = match resolved_path {
            Some(p) => p,
            None => path,
        };
        let dir = match resolved_dir {
            Some(d) => d,
            None => handle.work_dir.as_str(),
        };
        is_within(target, dir)
    }

    fn work_dir<'a>(&self, handle: &'a ScopeHandle) -> (r: &'a str)
        ensures
            r@ == handle.work_dir@,
    {
        handle.work_dir.as_str()
    }

    fn describe(&self, handle: &ScopeHandle) -> (r: ScopeInfo)
        ensures
            r.scope_type@ == "unix-user"@,
            r.work_dir@ == handle.work_dir@,
            opt_text(r.user) == opt_text(handle.user),
            r.env_keys@.len() == handle.env@.len(),
            forall|i: int|
                0 <= i < r.env_keys@.len() ==> handle.env@.contains_key(
                    (#[trigger] r.env_keys@[i])@,
                ),
            forall|k: Seq<char>| #[trigger]
                handle.env@.contains_key(k) ==> exists|i: int|
                    0 <= i < r.env_keys@.len() && (#[trigger] r.env_keys@[i])@ == k,
    {
        let env_keys = handle.env.keys();
        let r = ScopeInfo {
            scope_type: "unix-user".to_owned(),
            work_dir: handle.work_dir.clone(),
            user: handle.user.clone(),
            env_keys,
        };
        assert forall|k: Seq<char>| #[trigger] handle.env@.contains_key(k) implies exists|i: int|
            0 <= i < r.env_keys@.len() && (#[trigger] r.env_keys@[i])@ == k by {
            let i = choose|i: int| 0 <= i < env_keys@.len() && (#[trigger] env_keys@[i])@ == k;
            assert(r.env_keys@[i]@ == k);
        }
        r
    }

    /// There is nothing to tear down: the directory stays.
    fn deprovision(&self, handle: &ScopeHandle) -> (r: Result<(), String>)
        ensures
            r is Ok,
    {
        Ok(())
    }
}

} // verus!
