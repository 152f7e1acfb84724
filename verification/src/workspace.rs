//! Where the workspace to index is: decisions taken from what the
//! environment and the file system say.
use vstd::prelude::*;

use crate::std_text::string_from_chars;
use crate::text::{chars_of, owned, push_str, trim_end_char, trim_end_char_seq};

verus! {

/// The roots of the checkouts that a Kubernetes pod may hold, in order of preference.
pub open spec fn k8s_roots() -> Seq<Seq<char>> {
    seq!["/code/deploy.git/submodules"@, "/code/submodules"@, "/code/deploy/submodules"@]
}

/// The roots of the checkouts that a Kubernetes pod may hold.
pub fn k8s_candidates() -> (r: Vec<&'static str>)
    ensures
        r@.map_values(|s: &str| s@) == k8s_roots(),
{
    let r: Vec<&'static str> = vec!["/code/deploy.git/submodules", "/code/submodules", "/code/deploy/submodules"];
    assert(r@.map_values(|s: &str| s@) =~= k8s_roots());
    r
}

/// The path of the `npm-packages` directory under `root`.
pub fn npm_packages_path(root: &str) -> (r: String)
    ensures
        r@ == root@ + "/npm-packages"@,
{
    let mut v = chars_of(root);
    push_str(&mut v, "/npm-packages");
    string_from_chars(&v)
}

/// `root` without trailing `/`.
pub fn trim_root(root: &str) -> (r: String)
    ensures
        r@ == trim_end_char(root@, '/'),
{
    let v = chars_of(root);
    let t = trim_end_char_seq(&v, '/');
    string_from_chars(&t)
}

/// What the environment says about the workspace at start-up.
pub struct StartupProbe {
    /// `CODE_ROOT`, when set.
    pub code_root: Option<String>,
    /// `WORKSPACE_ROOT`, when set.
    pub workspace_root: Option<String>,
    /// For each of `k8s_candidates()`, whether it holds `npm-packages`.
    pub k8s_has_npm: Vec<bool>,
    /// `/code` exists.
    pub code_exists: bool,
    /// `./npm-packages` exists.
    pub local_npm: bool,
    /// `../npm-packages` exists.
    pub parent_npm: bool,
}

/// The first Kubernetes root, from position `i` on, that holds `npm-packages`.
pub open spec fn first_k8s_root(has: Seq<bool>, i: int) -> Option<Seq<char>>
    decreases 3 - i,
{
    if i < 0 || i >= 3 || i >= has.len() {
        None
    } else if has[i] {
        Some(k8s_roots()[i])
    } else {
        first_k8s_root(has, i + 1)
    }
}

/// The workspace root chosen at start-up: `CODE_ROOT`, else
/// `WORKSPACE_ROOT`, else the first Kubernetes checkout that holds
/// `npm-packages`, else `/code` when it exists, else `.` or `..` when it
/// holds `npm-packages`, else `.`.
pub open spec fn startup_root(p: StartupProbe) -> Seq<char> {
    match p.code_root {
        Some(r) => r@,
        None => match p.workspace_root {
            Some(r) => r@,
            None => match first_k8s_root(p.k8s_has_npm@, 0) {
                Some(r) => r,
                None => if p.code_exists {
                    "/code"@
                } else if p.local_npm {
                    "."@
                } else if p.parent_npm {
                    ".."@
                } else {
                    "."@
                },
            },
        },
    }
}

/// The workspace root to index, from what the environment says (see `startup_root`).
pub fn detect_workspace_root(p: &StartupProbe) -> (r: String)
    ensures
        r@ == startup_root(*p),
{
    match &p.code_root {
        Some(r) => return r.clone(),
        None => {},
    }
    match &p.workspace_root {
        Some(r) => return r.clone(),
        None => {},
    }
    let roots = k8s_candidates();
    assert(roots@.len() == roots@.map_values(|s: &str| s@).len());
    let mut i: usize = 0;
    while i < 3 && i < p.k8s_has_npm.len()
        invariant
            roots@.map_values(|s: &str| s@) == k8s_roots(),
            roots@.len() == 3,
            p.code_root is None,
            p.workspace_root is None,
            0 <= i <= 3,
            first_k8s_root(p.k8s_has_npm@, i as int) == first_k8s_root(p.k8s_has_npm@, 0),
        decreases 3 - i,
    {
        if p.k8s_has_npm[i] {
            assert(roots@.map_values(|s: &str| s@)[i as int] == roots@[i as int]@);
            return owned(roots[i]);
        }
        i = i + 1;
    }
    if p.code_exists {
        owned("/code")
    } else if p.local_npm {
        owned(".")
    } else if p.parent_npm {
        owned("..")
    } else {
        owned(".")
    }
}

/// What the file system and the environment say for a root hint.
pub struct HintProbe {
    /// `<hint without trailing />/npm-packages` exists.
    pub hint_has_npm: bool,
    /// The hint itself exists.
    pub hint_exists: bool,
    /// `WORKSPACE_ROOT`, when set.
    pub env_root: Option<String>,
    /// `WORKSPACE_ROOT` without trailing `/` exists.
    pub env_root_exists: bool,
    /// `/code` exists.
    pub code_exists: bool,
    /// `../npm-packages` exists.
    pub parent_npm: bool,
    /// `npm-packages` exists.
    pub local_npm: bool,
}

/// The root chosen for a hint: the hint (without trailing `/`) when it or
/// its `npm-packages` exists, else `WORKSPACE_ROOT` (trimmed) when it
/// exists, else `/code`, `..` or `.` as they exist, else `.`.
pub open spec fn hinted_root(hint: Option<Seq<char>>, p: HintProbe) -> Seq<char> {
    match hint {
        Some(h) if p.hint_has_npm || p.hint_exists => trim_end_char(h, '/'),
        _ => match p.env_root {
            Some(e) if p.env_root_exists => trim_end_char(e@, '/'),
            _ => if p.code_exists {
                "/code"@
            } else if p.parent_npm {
                ".."@
            } else if p.local_npm {
                "."@
            } else {
                "."@
            },
        },
    }
}

/// The workspace root for a hint (see `hinted_root`).
pub fn resolve_workspace_root(hint: Option<&str>, p: &HintProbe) -> (r: String)
    ensures
        r@ == hinted_root(
            match hint {
                Some(h) => Some(h@),
                None => None,
            },
            *p,
        ),
{
    match hint {
        Some(h) => {
            if p.hint_has_npm || p.hint_exists {
                return trim_root(h);
            }
        },
        None => {},
    }
    match &p.env_root {
        Some(e) => {
            if p.env_root_exists {
                return trim_root(e.as_str());
            }
        },
        None => {},
    }
    if p.code_exists {
        owned("/code")
    } else if p.parent_npm {
        owned("..")
    } else if p.local_npm {
        owned(".")
    } else {
        owned(".")
    }
}

} // verus!
