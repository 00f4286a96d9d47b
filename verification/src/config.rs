//! The daemon's configuration: where state lives, the shared Nix profile,
//! the machine name prefix and the default network policy.

use crate::executor::NspawnExecutor;
use crate::control::ControlPlane;
use crate::error::{fails_invalid_input, Result};
use crate::ids::{id_valid, PolicyId};
use crate::network::{policy_id, NetworkPolicy};
use crate::nix_profile::{is_absolute, path_error_message, FixedNixProfile};
use crate::storage::BtrfsStorage;
use crate::text::string_from;
use vstd::prelude::*;

verus! {

/// The state root when none is configured.
pub const DEFAULT_STATE_ROOT: &'static str = "/var/lib/flarenv";

/// The Nix store when none is configured.
pub const DEFAULT_NIX_STORE: &'static str = "/nix/store";

/// The shared Nix profile when none is configured.
pub const DEFAULT_NIX_PROFILE: &'static str = "/nix/var/nix/profiles/flarenv/global";

/// The machine name prefix when none is configured.
pub const DEFAULT_MACHINE_PREFIX: &'static str = "flarenv";

/// The daemon's configuration.
#[derive(Clone, Debug)]
pub struct DaemonConfig {
    pub state_root: String,
    pub nix_profile: FixedNixProfile,
    pub machine_prefix: String,
    pub default_network_policy: NetworkPolicy,
}

/// A configured value, or the default.
pub open spec fn or_default(value: Option<Seq<char>>, default: Seq<char>) -> Seq<char> {
    match value {
        Some(v) => v,
        None => default,
    }
}

fn value_or(value: Option<String>, default: &str) -> (r: String)
    ensures
        r@ == or_default(opt_text(value), default@),
{
    match value {
        Some(v) => v,
        None => string_from(default),
    }
}

/// The text of an optional string.
pub open spec fn opt_text(value: Option<String>) -> Option<Seq<char>> {
    match value {
        Some(v) => Some(v@),
        None => None,
    }
}

impl DaemonConfig {
    /// The configuration from the values of `FLARENV_STATE_ROOT`,
    /// `FLARENV_NIX_STORE`, `FLARENV_NIX_PROFILE` and
    /// `FLARENV_MACHINE_PREFIX`, each falling back to its default; the
    /// default network policy denies everything and is named "deny".
    pub fn from_values(
        state_root: Option<String>,
        nix_store: Option<String>,
        nix_profile: Option<String>,
        machine_prefix: Option<String>,
    ) -> (r: Result<Self>)
        ensures
            r is Ok,
            r matches Ok(r) ==> r.state_root@ == or_default(opt_text(state_root), DEFAULT_STATE_ROOT@),
            r matches Ok(r) ==> r.nix_profile.store_path@ == or_default(opt_text(nix_store), DEFAULT_NIX_STORE@),
            r matches Ok(r) ==> r.nix_profile.profile_path@ == or_default(opt_text(nix_profile), DEFAULT_NIX_PROFILE@),
            r matches Ok(r) ==> r.machine_prefix@ == or_default(opt_text(machine_prefix), DEFAULT_MACHINE_PREFIX@),
            r matches Ok(r) ==> r.default_network_policy matches NetworkPolicy::DenyAll { id } && id@ == "deny"@,
    {
        let root = value_or(state_root, DEFAULT_STATE_ROOT);
        let store = value_or(nix_store, DEFAULT_NIX_STORE);
        let profile = value_or(nix_profile, DEFAULT_NIX_PROFILE);
        let prefix = value_or(machine_prefix, DEFAULT_MACHINE_PREFIX);
        proof {
            reveal_strlit("deny");
            assert(id_valid("deny"@));
        }
        let id = PolicyId::new("deny")?;
        Ok(DaemonConfig {
            state_root: root,
            nix_profile: FixedNixProfile::new(store.as_str(), profile.as_str()),
            machine_prefix: prefix,
            default_network_policy: NetworkPolicy::DenyAll { id },
        })
    }

    /// The control plane on the host: btrfs storage under the state root,
    /// `systemd-nspawn` sessions, the configured profile and default policy.
    /// It fails when a Nix path is not absolute.
    pub fn build_host_control_plane(&self) -> (r: Result<ControlPlane<BtrfsStorage, NspawnExecutor>>)
        ensures
            r is Ok <==> is_absolute(self.nix_profile.store_path@) && is_absolute(
                self.nix_profile.profile_path@,
            ),
            r is Err ==> fails_invalid_input(r, path_error_message(self.nix_profile)),
            r matches Ok(cp) ==> {
                &&& cp.storage().root() == self.state_root@
                &&& cp.executor().machine_prefix() == self.machine_prefix@
                &&& cp.nix_profile() == self.nix_profile
                &&& cp.default_policy() == policy_id(self.default_network_policy)
                &&& cp.meta().workspaces.len() == 0
                &&& cp.meta().snapshots.len() == 0
            },
    {
        let policy = self.default_network_policy.clone();
        proof {
            assert(policy_id(policy) == policy_id(self.default_network_policy));
        }
        ControlPlane::new(self.host_storage(), self.host_executor(), self.nix_profile.clone(), policy)
    }

    /// The btrfs storage under the state root.
    pub fn host_storage(&self) -> (r: BtrfsStorage)
        ensures
            r.root() == self.state_root@,
    {
        BtrfsStorage::new(self.state_root.as_str())
    }

    /// The `systemd-nspawn` executor with the machine prefix.
    pub fn host_executor(&self) -> (r: NspawnExecutor)
        ensures
            r.machine_prefix() == self.machine_prefix@,
    {
        NspawnExecutor::new(self.machine_prefix.as_str())
    }
}

} // verus!
