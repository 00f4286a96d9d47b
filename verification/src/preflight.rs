//! Host readiness checks: which binaries and paths the daemon needs. The
//! library names the checks and judges the report; the daemon looks at the
//! host.

use crate::config::DaemonConfig;
use crate::text::{concat, string_from};
use vstd::prelude::*;

verus! {

/// The outcome of one check of the host.
#[derive(Clone, Debug, Eq, PartialEq)]
pub struct HostCheck {
    pub name: String,
    pub ok: bool,
    pub detail: String,
}

/// The outcomes of all checks.
#[derive(Clone, Debug, Eq, PartialEq)]
pub struct PreflightReport {
    pub checks: Vec<HostCheck>,
}

impl PreflightReport {
    /// Every check passed.
    pub open spec fn all_ok(&self) -> bool {
        forall|i: int| 0 <= i < self.checks@.len() ==> (#[trigger] self.checks@[i]).ok
    }

    /// Whether every check passed.
    pub fn ok(&self) -> (r: bool)
        ensures
            r == self.all_ok(),
    {
        let mut i: usize = 0;
        while i < self.checks.len()
            invariant
                i <= self.checks@.len(),
                forall|j: int| 0 <= j < i ==> (#[trigger] self.checks@[j]).ok,
            decreases self.checks.len() - i,
        {
            if !self.checks[i].ok {
                return false;
            }
            i += 1;
        }
        true
    }
}

/// The name of the check for binary `name`.
pub open spec fn binary_check_name(name: Seq<char>) -> Seq<char> {
    "binary:"@ + name
}

/// The name of the check for path `name`.
pub open spec fn path_check_name(name: Seq<char>) -> Seq<char> {
    "path:"@ + name
}

/// The check of binary `name`, given where a search of `PATH` found it.
pub fn binary_check(name: &str, found: Option<String>) -> (r: HostCheck)
    ensures
        r.name@ == binary_check_name(name@),
        r.ok == found is Some,
        r.detail@ == match found {
            Some(p) => p@,
            None => "not found in PATH"@,
        },
{
    let check_name = concat("binary:", name);
    match found {
        Some(p) => HostCheck { name: check_name, ok: true, detail: p },
        None => HostCheck { name: check_name, ok: false, detail: string_from("not found in PATH") },
    }
}

/// The check of path `path`, named `name`, given whether it exists.
pub fn path_check(name: &str, path: &str, exists: bool) -> (r: HostCheck)
    ensures
        r.name@ == path_check_name(name@),
        r.ok == exists,
        r.detail@ == path@,
{
    HostCheck { name: concat("path:", name), ok: exists, detail: string_from(path) }
}

/// The parent of a path, as `Path::parent` gives it: `None` for a root, a
/// prefix or the empty path.
pub uninterp spec fn path_parent(path: Seq<char>) -> Option<Seq<char>>;

/// `Path::parent` on `path`. Its result is named by `path_parent`; nothing
/// more of it is stated.
#[verifier::external_body]
fn parent_of(path: &str) -> (r: Option<String>)
    ensures
        match r {
            Some(p) => path_parent(path@) == Some(p@),
            None => path_parent(path@) == None::<Seq<char>>,
        },
{
    match std::path::Path::new(path).parent() {
        Some(p) => Some(p.to_string_lossy().into_owned()),
        None => None,
    }
}

/// The directory that must exist for a state root with parent `parent`:
/// the parent, or "/" when there is none.
pub fn parent_or_root(parent: Option<String>) -> (r: String)
    ensures
        r@ == match parent {
            Some(p) => p@,
            None => "/"@,
        },
{
    match parent {
        Some(p) => p,
        None => string_from("/"),
    }
}

/// The directory that must exist for state root `state_root`.
pub fn state_parent(state_root: &str) -> (r: String)
    ensures
        r@ == match path_parent(state_root@) {
            Some(p) => p,
            None => "/"@,
        },
{
    parent_or_root(parent_of(state_root))
}

/// The report for `config`, given what the host showed: where `btrfs` and
/// `systemd-nspawn` were found, and whether the state root's parent, the
/// Nix store and the Nix profile exist. The checks come in that order.
pub fn preflight_report(
    config: &DaemonConfig,
    btrfs: Option<String>,
    nspawn: Option<String>,
    state_parent_exists: bool,
    store_exists: bool,
    profile_exists: bool,
) -> (r: PreflightReport)
    ensures
        r.checks@.len() == 5,
        r.checks@[0].name@ == binary_check_name("btrfs"@),
        r.checks@[0].ok == btrfs is Some,
        r.checks@[1].name@ == binary_check_name("systemd-nspawn"@),
        r.checks@[1].ok == nspawn is Some,
        r.checks@[2].name@ == path_check_name("state parent"@),
        r.checks@[2].ok == state_parent_exists,
        r.checks@[2].detail@ == match path_parent(config.state_root@) {
            Some(p) => p,
            None => "/"@,
        },
        r.checks@[3].name@ == path_check_name("nix store"@),
        r.checks@[3].ok == store_exists,
        r.checks@[3].detail@ == config.nix_profile.store_path@,
        r.checks@[4].name@ == path_check_name("nix profile"@),
        r.checks@[4].ok == profile_exists,
        r.checks@[4].detail@ == config.nix_profile.profile_path@,
        r.all_ok() == (btrfs is Some && nspawn is Some && state_parent_exists && store_exists
            && profile_exists),
{
    let parent = state_parent(config.state_root.as_str());
    let mut checks: Vec<HostCheck> = Vec::new();
    checks.push(binary_check("btrfs", btrfs));
    checks.push(binary_check("systemd-nspawn", nspawn));
    checks.push(path_check("state parent", parent.as_str(), state_parent_exists));
    checks.push(path_check("nix store", config.nix_profile.store_path.as_str(), store_exists));
    checks.push(path_check("nix profile", config.nix_profile.profile_path.as_str(), profile_exists));
    let r = PreflightReport { checks };
    assert(r.all_ok() ==> r.checks@[0].ok && r.checks@[1].ok && r.checks@[2].ok && r.checks@[3].ok
        && r.checks@[4].ok);
    r
}

} // verus!
