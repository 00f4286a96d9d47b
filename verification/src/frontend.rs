//! The session frontend: who may open sessions in which workspaces.

use crate::control::{session_outcome, ControlPlane};
use crate::error::{fails_precondition, FlarenvError, Result};
use crate::executor::{Executor, SessionExit};
use crate::ids::{SessionId, WorkspaceId};
use crate::model::SessionRequest;
use crate::storage::StorageBackend;
use crate::table::{Keyed, SortedTable};
use crate::text::{append_str, concat, string_from};
use vstd::prelude::*;

verus! {

/// A request to open a session on behalf of an SSH principal.
#[derive(Debug, Eq, PartialEq)]
pub struct SshSessionRequest {
    pub principal: String,
    pub workspace_id: WorkspaceId,
    pub session_id: SessionId,
    pub session: SessionRequest,
}

/// Decides whether a principal may open sessions in a workspace.
pub trait SessionAuthorizer {
    /// The authorizer may answer `r` when asked whether `principal` may
    /// open sessions in workspace `workspace_id`. An authorizer that
    /// defines no relation promises nothing of its answers.
    open spec fn answers(&self, principal: Seq<char>, workspace_id: Seq<char>, r: bool) -> bool {
        true
    }

    fn can_open(&self, principal: &str, workspace_id: &WorkspaceId) -> (r: bool)
        ensures
            self.answers(principal@, workspace_id@, r),
    ;
}

/// The workspaces granted to one principal.
#[derive(Debug, PartialEq, Eq)]
pub struct PrincipalGrants {
    pub principal: String,
    pub workspaces: SortedTable<WorkspaceId>,
}

impl Keyed for PrincipalGrants {
    open spec fn key(&self) -> Seq<char> {
        self.principal@
    }

    fn key_str(&self) -> (r: &str) {
        self.principal.as_str()
    }
}

/// Authorizes exactly the (principal, workspace) pairs granted to it.
#[derive(Debug, PartialEq, Eq)]
pub struct AllowListAuthorizer {
    grants: SortedTable<PrincipalGrants>,
}

impl AllowListAuthorizer {
    /// Workspace `workspace_id` was granted to `principal`.
    pub closed spec fn granted(&self, principal: Seq<char>, workspace_id: Seq<char>) -> bool {
        self.grants.map().contains_key(principal) && self.grants.map()[principal].workspaces.map().contains_key(
            workspace_id,
        )
    }

    /// Grants workspace `workspace_id` to `principal`; earlier grants stay.
    pub fn grant(&mut self, principal: &str, workspace_id: WorkspaceId)
        ensures
            forall|p: Seq<char>, w: Seq<char>|
                #[trigger] final(self).granted(p, w) == (old(self).granted(p, w) || (p == principal@
                    && w == workspace_id@)),
    {
        let ghost old_map = self.grants.map();
        let ghost old_seq = self.grants@;
        let ghost wid = workspace_id@;
        match self.grants.remove(principal) {
            Some(mut entry) => {
                proof {
                    crate::table::lemma_table_map_key(old_seq, principal@);
                }
                let ghost old_inner = entry.workspaces.map();
                assert(entry == old_map[principal@]);
                entry.workspaces.insert(workspace_id);
                let ghost new_entry = entry;
                self.grants.insert(entry);
                proof {
                    assert(self.grants.map() == old_map.remove(principal@).insert(principal@, new_entry));
                    assert(new_entry.workspaces.map() == old_inner.insert(wid, new_entry.workspaces.map()[wid]));
                }
            },
            None => {
                let mut workspaces: SortedTable<WorkspaceId> = SortedTable::new();
                workspaces.insert(workspace_id);
                let entry = PrincipalGrants { principal: string_from(principal), workspaces };
                let ghost new_entry = entry;
                self.grants.insert(entry);
                proof {
                    assert(self.grants.map() == old_map.remove(principal@).insert(principal@, new_entry));
                    assert(new_entry.workspaces.map().contains_key(wid));
                    assert(forall|w: Seq<char>| new_entry.workspaces.map().contains_key(w) ==> w == wid);
                }
            },
        }
    }
}

impl Default for AllowListAuthorizer {
    /// An authorizer that grants nothing.
    fn default() -> (r: Self)
        ensures
            forall|p: Seq<char>, w: Seq<char>| !#[trigger] r.granted(p, w),
    {
        AllowListAuthorizer { grants: SortedTable::new() }
    }
}

impl SessionAuthorizer for AllowListAuthorizer {
    /// Exactly the granted pairs are allowed.
    open spec fn answers(&self, principal: Seq<char>, workspace_id: Seq<char>, r: bool) -> bool {
        r == self.granted(principal, workspace_id)
    }

    fn can_open(&self, principal: &str, workspace_id: &WorkspaceId) -> (r: bool) {
        match self.grants.get(principal) {
            Some(entry) => entry.workspaces.contains(workspace_id.as_str()),
            None => false,
        }
    }
}

/// The message for a principal that may not open sessions in a workspace.
pub open spec fn unauthorized_message(principal: Seq<char>, workspace_id: Seq<char>) -> Seq<char> {
    "principal "@ + principal + " is not authorized for workspace "@ + workspace_id
}

/// Routes SSH session requests to the control plane after authorizing
/// them.
pub struct SshSessionRouter<A> {
    authorizer: A,
}

impl<A: SessionAuthorizer> SshSessionRouter<A> {
    /// The authorizer consulted.
    pub closed spec fn authorizer(&self) -> A {
        self.authorizer
    }

    /// A router consulting `authorizer`.
    pub fn new(authorizer: A) -> (r: Self)
        ensures
            r.authorizer() == authorizer,
    {
        SshSessionRouter { authorizer }
    }

    /// Opens the requested session when the authorizer allows the
    /// principal into the workspace; otherwise fails, leaving the control
    /// plane unchanged.
    pub fn open_session<S: StorageBackend, E: Executor>(
        &self,
        control_plane: &mut ControlPlane<S, E>,
        request: SshSessionRequest,
    ) -> (r: Result<SessionExit>)
        ensures
            exists|allowed: bool|
                {
                    &&& #[trigger] self.authorizer().answers(
                        request.principal@,
                        request.workspace_id@,
                        allowed,
                    )
                    &&& !allowed ==> fails_precondition(
                        r,
                        unauthorized_message(request.principal@, request.workspace_id@),
                    ) && *final(control_plane) == *old(control_plane)
                    &&& allowed ==> session_outcome(
                        *old(control_plane),
                        *final(control_plane),
                        request.workspace_id@,
                        request.session_id,
                        request.session,
                        r,
                    )
                },
    {
        let allowed = self.authorizer.can_open(request.principal.as_str(), &request.workspace_id);
        assert(self.authorizer().answers(request.principal@, request.workspace_id@, allowed));
        if !allowed {
            let mut message = concat("principal ", request.principal.as_str());
            append_str(&mut message, " is not authorized for workspace ");
            append_str(&mut message, request.workspace_id.as_str());
            return Err(FlarenvError::PreconditionFailed(message));
        }
        control_plane.open_session(&request.workspace_id, request.session_id, request.session)
    }
}

} // verus!
