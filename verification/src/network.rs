//! Network policies of workspaces.

use crate::ids::PolicyId;
use crate::model::clone_strings;
use crate::table::Keyed;
use vstd::prelude::*;

verus! {

/// A network policy: no network at all, or egress to the given CIDRs.
#[derive(Debug, Eq, PartialEq)]
pub enum NetworkPolicy {
    DenyAll { id: PolicyId },
    AllowEgress { id: PolicyId, cidrs: Vec<String> },
}

/// The content of a policy.
pub enum NetworkPolicyView {
    DenyAll { id: PolicyId },
    AllowEgress { id: PolicyId, cidrs: Seq<String> },
}

impl View for NetworkPolicy {
    type V = NetworkPolicyView;

    open spec fn view(&self) -> NetworkPolicyView {
        match self {
            NetworkPolicy::DenyAll { id } => NetworkPolicyView::DenyAll { id: *id },
            NetworkPolicy::AllowEgress { id, cidrs } => NetworkPolicyView::AllowEgress {
                id: *id,
                cidrs: cidrs@,
            },
        }
    }
}

/// The identifier of a policy, whatever its kind.
pub open spec fn policy_id(p: NetworkPolicy) -> PolicyId {
    match p {
        NetworkPolicy::DenyAll { id } => id,
        NetworkPolicy::AllowEgress { id, .. } => id,
    }
}

impl NetworkPolicy {
    /// The policy's identifier.
    pub fn id(&self) -> (r: &PolicyId)
        ensures
            *r == policy_id(*self),
    {
        match self {
            NetworkPolicy::DenyAll { id } => id,
            NetworkPolicy::AllowEgress { id, .. } => id,
        }
    }
}

impl Clone for NetworkPolicy {
    fn clone(&self) -> (r: Self)
        ensures
            r@ == self@,
    {
        match self {
            NetworkPolicy::DenyAll { id } => NetworkPolicy::DenyAll { id: id.clone() },
            NetworkPolicy::AllowEgress { id, cidrs } => NetworkPolicy::AllowEgress {
                id: id.clone(),
                cidrs: clone_strings(cidrs),
            },
        }
    }
}

impl Keyed for NetworkPolicy {
    open spec fn key(&self) -> Seq<char> {
        policy_id(*self)@
    }

    fn key_str(&self) -> (r: &str) {
        self.id().as_str()
    }
}

} // verus!
