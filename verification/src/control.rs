//! The control plane: workspace lifecycle over a storage backend and an
//! executor, with the metadata it keeps.

use crate::error::{
    fails_already_exists, fails_invalid_input, fails_not_found, fails_precondition, FlarenvError,
    Result,
};
use crate::executor::{ExecRequest, Executor, SessionExit};
use crate::gc::GcAction;
use crate::ids::{AgentId, PolicyId, SessionId, SnapshotId, WorkspaceId};
use crate::model::{
    default_limits, now_nanos, storable_time, ResourceLimits, SessionRequest, Workspace, WorkspaceSnapshot,
    WorkspaceState,
};
use crate::network::{policy_id, NetworkPolicy};
use crate::nix_profile::{path_error_message, FixedNixProfile};
use crate::storage::StorageBackend;
use crate::table::{keys_sorted, map_of_inserts, table_map, SortedTable};
use crate::text::{append_str, concat, str_eq};
use vstd::prelude::*;

verus! {

/// The content of the metadata: workspaces, snapshots and policies, each
/// in ascending order of identifier.
pub struct MetadataView {
    pub workspaces: Seq<Workspace>,
    pub snapshots: Seq<WorkspaceSnapshot>,
    pub policies: Seq<NetworkPolicy>,
}

impl MetadataView {
    /// Workspaces by identifier.
    pub open spec fn workspace_map(self) -> Map<Seq<char>, Workspace> {
        table_map(self.workspaces)
    }

    /// Snapshots by identifier.
    pub open spec fn snapshot_map(self) -> Map<Seq<char>, WorkspaceSnapshot> {
        table_map(self.snapshots)
    }

    /// Policies by identifier.
    pub open spec fn policy_map(self) -> Map<Seq<char>, NetworkPolicy> {
        table_map(self.policies)
    }

    /// Every branch's snapshot is recorded.
    pub open spec fn lineage_closed(self) -> bool {
        forall|k: Seq<char>|
            #[trigger] self.workspace_map().contains_key(k) ==> match self.workspace_map()[k].parent_snapshot {
                Some(p) => self.snapshot_map().contains_key(p@),
                None => true,
            }
    }

    /// The policy `default` and every workspace's policy are recorded.
    pub open spec fn policies_closed(self, default: Seq<char>) -> bool {
        &&& self.policy_map().contains_key(default)
        &&& forall|k: Seq<char>|
            #[trigger] self.workspace_map().contains_key(k) ==> self.policy_map().contains_key(
                self.workspace_map()[k].network_policy@,
            )
    }

    /// Each list is in strictly ascending order of identifier.
    pub open spec fn well_ordered(self) -> bool {
        &&& keys_sorted(self.workspaces)
        &&& keys_sorted(self.snapshots)
        &&& keys_sorted(self.policies)
    }
}

/// Metadata of workspaces, snapshots and network policies.
#[derive(Debug)]
pub struct InMemoryMetadata {
    workspaces: SortedTable<Workspace>,
    snapshots: SortedTable<WorkspaceSnapshot>,
    policies: SortedTable<NetworkPolicy>,
}

impl View for InMemoryMetadata {
    type V = MetadataView;

    closed spec fn view(&self) -> MetadataView {
        MetadataView {
            workspaces: self.workspaces@,
            snapshots: self.snapshots@,
            policies: self.policies@,
        }
    }
}

impl Default for InMemoryMetadata {
    fn default() -> (r: Self)
        ensures
            r@.workspaces == Seq::<Workspace>::empty(),
            r@.snapshots == Seq::<WorkspaceSnapshot>::empty(),
            r@.policies == Seq::<NetworkPolicy>::empty(),
    {
        InMemoryMetadata {
            workspaces: SortedTable::new(),
            snapshots: SortedTable::new(),
            policies: SortedTable::new(),
        }
    }
}

impl InMemoryMetadata {
    /// Metadata holding the given records. A record replaces an earlier one
    /// with the same identifier, as inserting them one by one into maps
    /// would.
    pub fn from_parts(
        workspaces: Vec<Workspace>,
        snapshots: Vec<WorkspaceSnapshot>,
        policies: Vec<NetworkPolicy>,
    ) -> (r: Self)
        ensures
            r@.workspace_map() == map_of_inserts(workspaces@),
            r@.snapshot_map() == map_of_inserts(snapshots@),
            r@.policy_map() == map_of_inserts(policies@),
    {
        let mut w: SortedTable<Workspace> = SortedTable::new();
        let ghost start_workspaces = workspaces@;
        for x in it: workspaces
            invariant
                it.seq() == start_workspaces,
                w.map() == map_of_inserts(it.seq().take(it.index() as int)),
        {
            let ghost before = it.seq().take(it.index() as int);
            w.insert(x);
            assert(it.seq().take(it.index() + 1).drop_last() =~= before);
        }
        assert(start_workspaces.take(start_workspaces.len() as int) =~= start_workspaces);
        let mut s: SortedTable<WorkspaceSnapshot> = SortedTable::new();
        let ghost start_snapshots = snapshots@;
        for x in it: snapshots
            invariant
                it.seq() == start_snapshots,
                s.map() == map_of_inserts(it.seq().take(it.index() as int)),
        {
            let ghost before = it.seq().take(it.index() as int);
            s.insert(x);
            assert(it.seq().take(it.index() + 1).drop_last() =~= before);
        }
        assert(start_snapshots.take(start_snapshots.len() as int) =~= start_snapshots);
        let mut p: SortedTable<NetworkPolicy> = SortedTable::new();
        let ghost start_policies = policies@;
        for x in it: policies
            invariant
                it.seq() == start_policies,
                p.map() == map_of_inserts(it.seq().take(it.index() as int)),
        {
            let ghost before = it.seq().take(it.index() as int);
            p.insert(x);
            assert(it.seq().take(it.index() + 1).drop_last() =~= before);
        }
        assert(start_policies.take(start_policies.len() as int) =~= start_policies);
        InMemoryMetadata { workspaces: w, snapshots: s, policies: p }
    }

    /// Adds `policy`, replacing the policy with the same identifier.
    pub fn insert_policy(&mut self, policy: NetworkPolicy)
        ensures
            final(self)@.policy_map() == old(self)@.policy_map().insert(policy_id(policy)@, policy),
            final(self)@.workspaces == old(self)@.workspaces,
            final(self)@.snapshots == old(self)@.snapshots,
    {
        self.policies.insert(policy);
    }

    /// The workspaces, in ascending order of identifier.
    pub fn workspaces(&self) -> (r: &[Workspace])
        ensures
            r@ == self@.workspaces,
            keys_sorted(r@),
    {
        self.workspaces.as_slice()
    }

    /// The snapshots, in ascending order of identifier.
    pub fn snapshots(&self) -> (r: &[WorkspaceSnapshot])
        ensures
            r@ == self@.snapshots,
            keys_sorted(r@),
    {
        self.snapshots.as_slice()
    }

    /// The policies, in ascending order of identifier.
    pub fn policies(&self) -> (r: &[NetworkPolicy])
        ensures
            r@ == self@.policies,
            keys_sorted(r@),
    {
        self.policies.as_slice()
    }

    /// Replaces the workspace with `w`'s identifier by `w`.
    fn update_workspace(&mut self, w: Workspace)
        requires
            old(self)@.workspace_map().contains_key(w.id@),
        ensures
            final(self)@.workspace_map() == old(self)@.workspace_map().insert(w.id@, w),
            final(self)@.snapshots == old(self)@.snapshots,
            final(self)@.policies == old(self)@.policies,
    {
        match self.workspaces.find(w.id.as_str()) {
            Some(i) => {
                self.workspaces.replace_at(i, w);
            },
            None => {},
        }
    }

    /// The workspace with identifier `id`, if there is one.
    pub fn workspace(&self, id: &WorkspaceId) -> (r: Option<&Workspace>)
        ensures
            r is Some <==> self@.workspace_map().contains_key(id@),
            r matches Some(w) ==> *w == self@.workspace_map()[id@],
    {
        self.workspaces.get(id.as_str())
    }

    /// The snapshot with identifier `id`, if there is one.
    pub fn snapshot(&self, id: &SnapshotId) -> (r: Option<&WorkspaceSnapshot>)
        ensures
            r is Some <==> self@.snapshot_map().contains_key(id@),
            r matches Some(s) ==> *s == self@.snapshot_map()[id@],
    {
        self.snapshots.get(id.as_str())
    }
}

/// `w` in state `state`.
pub open spec fn with_state(w: Workspace, state: WorkspaceState) -> Workspace {
    Workspace { state, ..w }
}

/// `w` with limits `limits`.
pub open spec fn with_limits(w: Workspace, limits: ResourceLimits) -> Workspace {
    Workspace { limits, ..w }
}

/// `w` under network policy `policy`.
pub open spec fn with_policy(w: Workspace, policy: PolicyId) -> Workspace {
    Workspace { network_policy: policy, ..w }
}

/// `w` last accessed at `t`.
pub open spec fn with_access(w: Workspace, t: i128) -> Workspace {
    Workspace { last_accessed_at: t, ..w }
}

/// `w` is a workspace just made for `agent` under `id`: ready, with the
/// default limits, under `policy`, branched from `parent`, and created when
/// it was last accessed, at a time the clock can read.
pub open spec fn is_fresh_workspace(
    w: Workspace,
    id: WorkspaceId,
    agent: AgentId,
    parent: Option<SnapshotId>,
    policy: PolicyId,
) -> bool {
    &&& w.id == id
    &&& w.agent_id == agent
    &&& w.parent_snapshot == parent
    &&& w.limits == default_limits()
    &&& w.network_policy == policy
    &&& w.state == WorkspaceState::Ready
    &&& w.created_at == w.last_accessed_at
    &&& storable_time(w.created_at)
}

/// How errors name a workspace.
pub open spec fn workspace_subject(id: Seq<char>) -> Seq<char> {
    "workspace "@ + id
}

/// How errors name a snapshot.
pub open spec fn snapshot_subject(id: Seq<char>) -> Seq<char> {
    "snapshot "@ + id
}

/// The message for a workspace that is not ready.
pub open spec fn not_ready_message(id: Seq<char>) -> Seq<char> {
    "workspace "@ + id + " is not ready"@
}

/// The message for purging a workspace that was not soft-deleted.
pub open spec fn not_soft_deleted_message(id: Seq<char>) -> Seq<char> {
    "workspace "@ + id + " must be soft-deleted before purge"@
}

/// The message for purging a snapshot that a branch still uses.
pub open spec fn snapshot_in_use_message(id: Seq<char>) -> Seq<char> {
    "snapshot "@ + id + " is still used by a branch"@
}

/// The message for a workspace whose network policy is missing.
pub open spec fn missing_policy_message(id: Seq<char>) -> Seq<char> {
    "network policy "@ + id + " is missing"@
}

/// The workspace `id` exists and is ready.
pub open spec fn is_ready(m: MetadataView, id: Seq<char>) -> bool {
    m.workspace_map().contains_key(id) && m.workspace_map()[id].state == WorkspaceState::Ready
}

/// `r` is the failure of checking that workspace `id` is ready: not found
/// when it does not exist, a failed precondition when it is deleted.
pub open spec fn fails_ready_check<T>(m: MetadataView, id: Seq<char>, r: Result<T>) -> bool {
    if !m.workspace_map().contains_key(id) {
        fails_not_found(r, workspace_subject(id))
    } else {
        fails_precondition(r, not_ready_message(id))
    }
}

/// Some workspace is a branch of snapshot `id`.
pub open spec fn snapshot_in_use(workspaces: Map<Seq<char>, Workspace>, id: Seq<char>) -> bool {
    exists|k: Seq<char>|
        #![trigger workspaces[k]]
        workspaces.contains_key(k) && (workspaces[k].parent_snapshot matches Some(p) && p@ == id)
}

/// The metadata effect of one garbage-collection action on the workspace and
/// snapshot maps, or `None` when the metadata refuses it.
pub open spec fn gc_step(
    maps: (Map<Seq<char>, Workspace>, Map<Seq<char>, WorkspaceSnapshot>),
    action: GcAction,
) -> Option<(Map<Seq<char>, Workspace>, Map<Seq<char>, WorkspaceSnapshot>)> {
    let (ws, snaps) = maps;
    match action {
        GcAction::DeleteWorkspace { workspace_id } => {
            let k = workspace_id@;
            if ws.contains_key(k) && ws[k].state == WorkspaceState::Deleted {
                Some((ws.remove(k), snaps))
            } else {
                None
            }
        },
        GcAction::DeleteSnapshot { snapshot_id } => {
            let k = snapshot_id@;
            if !snapshot_in_use(ws, k) && snaps.contains_key(k) {
                Some((ws, snaps.remove(k)))
            } else {
                None
            }
        },
    }
}

/// The metadata effect of a list of actions applied in order, or `None`
/// when the metadata refuses one of them.
pub open spec fn gc_run(
    maps: (Map<Seq<char>, Workspace>, Map<Seq<char>, WorkspaceSnapshot>),
    actions: Seq<GcAction>,
) -> Option<(Map<Seq<char>, Workspace>, Map<Seq<char>, WorkspaceSnapshot>)>
    decreases actions.len(),
{
    if actions.len() == 0 {
        Some(maps)
    } else {
        match gc_run(maps, actions.drop_last()) {
            Some(m) => gc_step(m, actions.last()),
            None => None,
        }
    }
}

/// The workspace and snapshot maps of the metadata.
pub open spec fn lifecycle_maps(m: MetadataView) -> (
    Map<Seq<char>, Workspace>,
    Map<Seq<char>, WorkspaceSnapshot>,
) {
    (m.workspace_map(), m.snapshot_map())
}

/// What opening session `session_id` running `session` in workspace `id`
/// does, from control plane `old` to `new` with result `r`: it fails,
/// changing nothing, when the workspace is missing or deleted or its policy
/// is not recorded; otherwise it marks the workspace as accessed and hands
/// the executor a request with the session, the accessed workspace, the
/// Nix profile and the workspace's policy, and the outcome is the
/// executor's. The storage, snapshots, policies, profile and default policy
/// never change.
pub open spec fn session_outcome<S, E: Executor>(
    old: ControlPlane<S, E>,
    new: ControlPlane<S, E>,
    id: Seq<char>,
    session_id: SessionId,
    session: SessionRequest,
    r: Result<SessionExit>,
) -> bool {
    let m = old.meta();
    &&& new.nix_profile() == old.nix_profile()
    &&& new.default_policy() == old.default_policy()
    &&& new.storage() == old.storage()
    &&& new.meta().snapshots == m.snapshots
    &&& new.meta().policies == m.policies
    &&& !is_ready(m, id) ==> fails_ready_check(m, id, r) && new.meta() == m && new.executor()
        == old.executor()
    &&& is_ready(m, id) && !m.policy_map().contains_key(m.workspace_map()[id].network_policy@)
        ==> fails_precondition(r, missing_policy_message(m.workspace_map()[id].network_policy@))
        && new.meta() == m && new.executor() == old.executor()
    &&& is_ready(m, id) && m.policy_map().contains_key(m.workspace_map()[id].network_policy@)
        ==> exists|req: ExecRequest|
        {
            let w = m.workspace_map()[id];
            &&& req.session_id == session_id
            &&& req.session == session
            &&& req.workspace == with_access(w, req.workspace.last_accessed_at)
            &&& storable_time(req.workspace.last_accessed_at)
            &&& req.nix_profile == old.nix_profile()
            &&& req.network_policy@ == m.policy_map()[w.network_policy@]@
            &&& new.meta().workspace_map() == m.workspace_map().insert(id, req.workspace)
            &&& #[trigger] new.executor().opened(old.executor(), req, r)
        }
}

/// After the storage made a new workspace root (outcome `made`, leaving
/// it as `mid`) and, when that succeeded, set the default quota (leaving it
/// as `after`), the result `r`: a storage failure is the result, and a new
/// workspace has the root the storage gave.
pub open spec fn root_then_quota<S: StorageBackend>(
    mid: S,
    after: S,
    id: Seq<char>,
    made: Result<String>,
    r: Result<Workspace>,
) -> bool {
    match made {
        Err(e) => r == Err::<Workspace, FlarenvError>(e) && after == mid,
        Ok(path) => exists|q: Result<()>|
            #[trigger] after.quota_set(mid, id, default_limits(), q) && match q {
                Err(e) => r == Err::<Workspace, FlarenvError>(e),
                Ok(_) => r is Ok && r->Ok_0.root_path == path,
            },
    }
}

/// The storage went from `before` to `after` removing what garbage-collection
/// action `action` names, with outcome `r`.
pub open spec fn storage_removed<S: StorageBackend>(
    before: S,
    action: GcAction,
    after: S,
    r: Result<()>,
) -> bool {
    match action {
        GcAction::DeleteWorkspace { workspace_id } => after.workspace_removed(before, workspace_id@, r),
        GcAction::DeleteSnapshot { snapshot_id } => after.snapshot_removed(before, snapshot_id@, r),
    }
}

/// Garbage-collection action `action` failed with `r`, the metadata `maps`
/// unchanged: as purging refuses it (a workspace missing or not
/// soft-deleted, a snapshot still used by a branch or missing), leaving the
/// storage alone, or else as the storage failed to remove it, going from
/// `storage` to `after_storage`.
pub open spec fn gc_action_failed<S: StorageBackend>(
    maps: (Map<Seq<char>, Workspace>, Map<Seq<char>, WorkspaceSnapshot>),
    storage: S,
    action: GcAction,
    after_storage: S,
    r: Result<()>,
) -> bool {
    let (ws, snaps) = maps;
    &&& r is Err
    &&& match action {
        GcAction::DeleteWorkspace { workspace_id } => {
            let k = workspace_id@;
            if !ws.contains_key(k) {
                fails_not_found(r, workspace_subject(k)) && after_storage == storage
            } else if ws[k].state != WorkspaceState::Deleted {
                fails_precondition(r, not_soft_deleted_message(k)) && after_storage == storage
            } else {
                storage_removed(storage, action, after_storage, r)
            }
        },
        GcAction::DeleteSnapshot { snapshot_id } => {
            let k = snapshot_id@;
            if snapshot_in_use(ws, k) {
                fails_precondition(r, snapshot_in_use_message(k)) && after_storage == storage
            } else if !snaps.contains_key(k) {
                fails_not_found(r, snapshot_subject(k)) && after_storage == storage
            } else {
                storage_removed(storage, action, after_storage, r)
            }
        },
    }
}

/// `trace` is the storage from `storage` on through `actions`, each
/// removal succeeding: `trace[i]` before action `i`, `trace[i + 1]` after it.
pub open spec fn gc_storage_trace<S: StorageBackend>(
    storage: S,
    actions: Seq<GcAction>,
    trace: Seq<S>,
) -> bool {
    &&& trace.len() == actions.len() + 1
    &&& trace[0] == storage
    &&& forall|i: int|
        0 <= i < actions.len() ==> storage_removed(trace[i], #[trigger] actions[i], trace[i + 1], Ok(()))
}

/// What purging workspace `id` does, from control plane `old` to `new` with
/// result `r`: a missing workspace is not found and a workspace that is not
/// soft-deleted fails its precondition, the storage untouched; otherwise the
/// storage removes the root, and on success the workspace leaves the
/// metadata. The metadata is unchanged on every failure; the snapshots,
/// policies, executor, profile and default policy never change.
pub open spec fn workspace_purged<S: StorageBackend, E>(
    old: ControlPlane<S, E>,
    new: ControlPlane<S, E>,
    id: Seq<char>,
    r: Result<()>,
) -> bool {
    let ws = old.meta().workspace_map();
    &&& ws.contains_key(id) && ws[id].state == WorkspaceState::Deleted ==> new.storage().workspace_removed(
        old.storage(),
        id,
        r,
    )
    &&& old.consistent() ==> new.consistent()
    &&& new.nix_profile() == old.nix_profile()
    &&& new.default_policy() == old.default_policy()
    &&& new.executor() == old.executor()
    &&& new.meta().snapshots == old.meta().snapshots
    &&& new.meta().policies == old.meta().policies
    &&& !ws.contains_key(id) ==> fails_not_found(r, workspace_subject(id)) && new.storage() == old.storage()
    &&& ws.contains_key(id) && ws[id].state != WorkspaceState::Deleted ==> fails_precondition(
        r,
        not_soft_deleted_message(id),
    ) && new.storage() == old.storage()
    &&& r is Err ==> new.meta() == old.meta()
    &&& r is Ok ==> {
        &&& ws.contains_key(id)
        &&& ws[id].state == WorkspaceState::Deleted
        &&& new.meta().workspace_map() == ws.remove(id)
    }
}

/// What purging snapshot `id` does, from control plane `old` to `new` with
/// result `r`: a snapshot some workspace is a branch of fails its
/// precondition and a missing one is not found, the storage untouched;
/// otherwise the storage removes it, and on success it leaves the metadata.
/// The metadata is unchanged on every failure; the workspaces, policies,
/// executor, profile and default policy never change.
pub open spec fn snapshot_purged<S: StorageBackend, E>(
    old: ControlPlane<S, E>,
    new: ControlPlane<S, E>,
    id: Seq<char>,
    r: Result<()>,
) -> bool {
    let ws = old.meta().workspace_map();
    let snaps = old.meta().snapshot_map();
    &&& !snapshot_in_use(ws, id) && snaps.contains_key(id) ==> new.storage().snapshot_removed(
        old.storage(),
        id,
        r,
    )
    &&& old.consistent() ==> new.consistent()
    &&& new.nix_profile() == old.nix_profile()
    &&& new.default_policy() == old.default_policy()
    &&& new.executor() == old.executor()
    &&& new.meta().workspaces == old.meta().workspaces
    &&& new.meta().policies == old.meta().policies
    &&& snapshot_in_use(ws, id) ==> fails_precondition(r, snapshot_in_use_message(id)) && new.storage()
        == old.storage()
    &&& !snapshot_in_use(ws, id) && !snaps.contains_key(id) ==> fails_not_found(r, snapshot_subject(id))
        && new.storage() == old.storage()
    &&& r is Err ==> new.meta() == old.meta()
    &&& r is Ok ==> {
        &&& !snapshot_in_use(ws, id)
        &&& snaps.contains_key(id)
        &&& new.meta().snapshot_map() == snaps.remove(id)
    }
}

/// What purging the target of garbage-collection action `action` does:
/// `purge_workspace` for a workspace, `purge_snapshot` for a snapshot.
pub open spec fn purged<S: StorageBackend, E>(
    old: ControlPlane<S, E>,
    new: ControlPlane<S, E>,
    action: GcAction,
    r: Result<()>,
) -> bool {
    match action {
        GcAction::DeleteWorkspace { workspace_id } => workspace_purged(old, new, workspace_id@, r),
        GcAction::DeleteSnapshot { snapshot_id } => snapshot_purged(old, new, snapshot_id@, r),
    }
}

/// `planes` are the control plane from `start` on through `actions`, each
/// purge succeeding: `planes[i]` before action `i`, `planes[i + 1]` after.
pub open spec fn purges_done<S: StorageBackend, E>(
    start: ControlPlane<S, E>,
    actions: Seq<GcAction>,
    planes: Seq<ControlPlane<S, E>>,
) -> bool {
    &&& planes.len() == actions.len() + 1
    &&& planes[0] == start
    &&& forall|i: int|
        0 <= i < actions.len() ==> purged(planes[i], planes[i + 1], #[trigger] actions[i], Ok(()))
}

/// A message made of three parts.
fn message3(a: &str, b: &str, c: &str) -> (r: String)
    ensures
        r@ == a@ + b@ + c@,
{
    let mut s = concat(a, b);
    append_str(&mut s, c);
    s
}

/// A new workspace record.
fn new_workspace_record(
    id: WorkspaceId,
    agent_id: AgentId,
    root_path: String,
    parent_snapshot: Option<SnapshotId>,
    network_policy: PolicyId,
    now: i128,
) -> (r: Workspace)
    requires
        storable_time(now),
    ensures
        is_fresh_workspace(r, id, agent_id, parent_snapshot, network_policy),
        r.root_path == root_path,
        r.created_at == now,
{
    Workspace {
        id,
        agent_id,
        root_path,
        parent_snapshot,
        limits: ResourceLimits::default(),
        network_policy,
        state: WorkspaceState::Ready,
        created_at: now,
        last_accessed_at: now,
    }
}

/// The control plane: keeps the metadata and drives storage and execution.
#[derive(Debug)]
pub struct ControlPlane<S, E> {
    metadata: InMemoryMetadata,
    storage: S,
    executor: E,
    nix_profile: FixedNixProfile,
    default_policy: PolicyId,
}

impl<S, E> ControlPlane<S, E> {
    /// The metadata held.
    pub closed spec fn meta(&self) -> MetadataView {
        self.metadata@
    }

    /// The storage backend.
    pub closed spec fn storage(&self) -> S {
        self.storage
    }

    /// The executor.
    pub closed spec fn executor(&self) -> E {
        self.executor
    }

    /// The Nix profile handed to every session.
    pub closed spec fn nix_profile(&self) -> FixedNixProfile {
        self.nix_profile
    }

    /// The policy new workspaces get.
    pub closed spec fn default_policy(&self) -> PolicyId {
        self.default_policy
    }

    /// Every branch's snapshot, every workspace's policy and the default
    /// policy are recorded.
    pub open spec fn consistent(&self) -> bool {
        self.meta().lineage_closed() && self.meta().policies_closed(self.default_policy()@)
    }

    /// A control plane with no workspaces whose only policy is
    /// `default_policy`; it fails when a Nix path is not absolute.
    pub fn new(
        storage: S,
        executor: E,
        nix_profile: FixedNixProfile,
        default_policy: NetworkPolicy,
    ) -> (r: Result<Self>)
        ensures
            r is Ok <==> crate::nix_profile::is_absolute(nix_profile.store_path@)
                && crate::nix_profile::is_absolute(nix_profile.profile_path@),
            r is Err ==> fails_invalid_input(r, path_error_message(nix_profile)),
            r matches Ok(cp) ==> cp.consistent(),
            r matches Ok(cp) ==> {
                &&& cp.meta().workspaces == Seq::<Workspace>::empty()
                &&& cp.meta().snapshots == Seq::<WorkspaceSnapshot>::empty()
                &&& cp.meta().policy_map() == Map::<Seq<char>, NetworkPolicy>::empty().insert(
                    policy_id(default_policy)@,
                    default_policy,
                )
                &&& cp.default_policy() == policy_id(default_policy)
                &&& cp.nix_profile() == nix_profile
                &&& cp.storage() == storage
                &&& cp.executor() == executor
            },
    {
        match nix_profile.validate_paths() {
            Ok(()) => {},
            Err(e) => {
                return Err(e);
            },
        }
        let default_policy_id = default_policy.id().clone();
        let mut metadata = InMemoryMetadata::default();
        proof {
            assert(table_map(metadata@.policies) =~= Map::<Seq<char>, NetworkPolicy>::empty());
        }
        metadata.insert_policy(default_policy);
        Ok(ControlPlane { metadata, storage, executor, nix_profile, default_policy: default_policy_id })
    }

    /// The metadata held.
    pub fn metadata(&self) -> (r: &InMemoryMetadata)
        ensures
            r@ == self.meta(),
    {
        &self.metadata
    }

    /// Replaces the metadata, for instance with metadata loaded from disk.
    pub fn replace_metadata(&mut self, metadata: InMemoryMetadata)
        ensures
            final(self).meta() == metadata@,
            final(self).storage() == old(self).storage(),
            final(self).executor() == old(self).executor(),
            final(self).nix_profile() == old(self).nix_profile(),
            final(self).default_policy() == old(self).default_policy(),
    {
        self.metadata = metadata;
    }
}

impl<S: StorageBackend, E: Executor> ControlPlane<S, E> {
    /// The workspace `workspace_id` if it exists and is ready.
    fn ready_workspace(&self, workspace_id: &WorkspaceId) -> (r: Result<&Workspace>)
        ensures
            is_ready(self.meta(), workspace_id@) ==> (r is Ok && *r->Ok_0 == self.meta().workspace_map()[workspace_id@]),
            !is_ready(self.meta(), workspace_id@) ==> fails_ready_check(self.meta(), workspace_id@, r),
    {
        let ws = match self.metadata.workspaces.get(workspace_id.as_str()) {
            Some(w) => w,
            None => {
                return Err(FlarenvError::NotFound(concat("workspace ", workspace_id.as_str())));
            },
        };
        match ws.state {
            WorkspaceState::Ready => Ok(ws),
            WorkspaceState::Deleted => Err(
                FlarenvError::PreconditionFailed(
                    message3("workspace ", workspace_id.as_str(), " is not ready"),
                ),
            ),
        }
    }

    /// Creates a ready workspace for `agent_id` with the default limits and
    /// policy. It fails when the identifier is taken, and when the storage
    /// backend fails to make the root or set its quota; nothing is recorded
    /// then.
    pub fn create_workspace(&mut self, workspace_id: WorkspaceId, agent_id: AgentId) -> (r: Result<
        Workspace,
    >)
        ensures
            !old(self).meta().workspace_map().contains_key(workspace_id@) ==> exists|
                mid: S,
                made: Result<String>,
            |
                #[trigger] mid.created(old(self).storage(), workspace_id@, made) && root_then_quota(
                    mid,
                    final(self).storage(),
                    workspace_id@,
                    made,
                    r,
                ),
            old(self).consistent() ==> final(self).consistent(),
            final(self).nix_profile() == old(self).nix_profile(),
            final(self).default_policy() == old(self).default_policy(),
            final(self).executor() == old(self).executor(),
            final(self).meta().snapshots == old(self).meta().snapshots,
            final(self).meta().policies == old(self).meta().policies,
            old(self).meta().workspace_map().contains_key(workspace_id@) ==> fails_already_exists(
                r,
                workspace_subject(workspace_id@),
            ) && final(self).storage() == old(self).storage(),
            r is Err ==> final(self).meta() == old(self).meta(),
            r is Ok ==> {
                &&& !old(self).meta().workspace_map().contains_key(workspace_id@)
                &&& is_fresh_workspace(r->Ok_0, workspace_id, agent_id, None, old(self).default_policy())
                &&& final(self).meta().workspace_map() == old(self).meta().workspace_map().insert(
                    workspace_id@,
                    r->Ok_0,
                )
            },
    {
        if self.metadata.workspaces.contains(workspace_id.as_str()) {
            return Err(FlarenvError::AlreadyExists(concat("workspace ", workspace_id.as_str())));
        }
        let made = self.storage.create_workspace(&workspace_id);
        let ghost mid = self.storage;
        let ghost made_view = made;
        assert(mid.created(old(self).storage(), workspace_id@, made_view));
        let root_path = match made {
            Ok(path) => path,
            Err(e) => {
                return Err(e);
            },
        };
        let now = now_nanos();
        let workspace = new_workspace_record(
            workspace_id.clone(),
            agent_id,
            root_path,
            None,
            self.default_policy.clone(),
            now,
        );
        let quota = self.storage.set_quota(&workspace_id, &workspace.limits);
        assert(self.storage.quota_set(mid, workspace_id@, default_limits(), quota));
        match quota {
            Ok(()) => {},
            Err(e) => {
                return Err(e);
            },
        }
        self.metadata.workspaces.insert(workspace.clone());
        Ok(workspace)
    }

    /// Takes a read-only snapshot of a ready workspace. It fails when the
    /// workspace is missing or deleted, when the snapshot identifier is
    /// taken, and when the storage backend fails; nothing is recorded then.
    pub fn snapshot_workspace(&mut self, workspace_id: &WorkspaceId, snapshot_id: SnapshotId) -> (r:
        Result<WorkspaceSnapshot>)
        ensures
            is_ready(old(self).meta(), workspace_id@) && !old(self).meta().snapshot_map().contains_key(
                snapshot_id@,
            ) ==> exists|made: Result<String>|
                #[trigger] final(self).storage().snapshotted(
                    old(self).storage(),
                    workspace_id@,
                    snapshot_id@,
                    made,
                ) && match made {
                    Err(e) => r == Err::<WorkspaceSnapshot, FlarenvError>(e),
                    Ok(path) => r is Ok && r->Ok_0.root_path == path,
                },
            old(self).consistent() ==> final(self).consistent(),
            final(self).nix_profile() == old(self).nix_profile(),
            final(self).default_policy() == old(self).default_policy(),
            final(self).executor() == old(self).executor(),
            final(self).meta().workspaces == old(self).meta().workspaces,
            final(self).meta().policies == old(self).meta().policies,
            !is_ready(old(self).meta(), workspace_id@) ==> fails_ready_check(
                old(self).meta(),
                workspace_id@,
                r,
            ) && final(self).storage() == old(self).storage(),
            is_ready(old(self).meta(), workspace_id@) && old(self).meta().snapshot_map().contains_key(
                snapshot_id@,
            ) ==> fails_already_exists(r, snapshot_subject(snapshot_id@)) && final(self).storage()
                == old(self).storage(),
            r is Err ==> final(self).meta() == old(self).meta(),
            r is Ok ==> {
                &&& is_ready(old(self).meta(), workspace_id@)
                &&& !old(self).meta().snapshot_map().contains_key(snapshot_id@)
                &&& r->Ok_0.id == snapshot_id
                &&& r->Ok_0.workspace_id@ == workspace_id@
                &&& storable_time(r->Ok_0.created_at)
                &&& final(self).meta().snapshot_map() == old(self).meta().snapshot_map().insert(
                    snapshot_id@,
                    r->Ok_0,
                )
            },
    {
        let source_workspace_id = self.ready_workspace(workspace_id)?.id.clone();
        if self.metadata.snapshots.contains(snapshot_id.as_str()) {
            return Err(FlarenvError::AlreadyExists(concat("snapshot ", snapshot_id.as_str())));
        }
        let made = self.storage.snapshot_workspace(workspace_id, &snapshot_id);
        let ghost made_view = made;
        let ghost sid = snapshot_id@;
        assert(self.storage().snapshotted(old(self).storage(), workspace_id@, sid, made_view));
        let root_path = match made {
            Ok(path) => path,
            Err(e) => {
                return Err(e);
            },
        };
        let snapshot = WorkspaceSnapshot {
            id: snapshot_id,
            workspace_id: source_workspace_id,
            root_path,
            created_at: now_nanos(),
        };
        self.metadata.snapshots.insert(snapshot.clone());
        assert(self.storage().snapshotted(old(self).storage(), workspace_id@, sid, made_view));
        Ok(snapshot)
    }

    /// Creates a ready workspace branched from an existing snapshot. It
    /// fails when the workspace identifier is taken, when the snapshot does
    /// not exist, and when the storage backend fails; nothing is recorded
    /// then.
    pub fn branch_workspace(
        &mut self,
        snapshot_id: &SnapshotId,
        workspace_id: WorkspaceId,
        agent_id: AgentId,
    ) -> (r: Result<Workspace>)
        ensures
            !old(self).meta().workspace_map().contains_key(workspace_id@)
                && old(self).meta().snapshot_map().contains_key(snapshot_id@) ==> exists|
                mid: S,
                made: Result<String>,
            |
                #[trigger] mid.cloned(old(self).storage(), snapshot_id@, workspace_id@, made)
                    && root_then_quota(mid, final(self).storage(), workspace_id@, made, r),
            old(self).consistent() ==> final(self).consistent(),
            final(self).nix_profile() == old(self).nix_profile(),
            final(self).default_policy() == old(self).default_policy(),
            final(self).executor() == old(self).executor(),
            final(self).meta().snapshots == old(self).meta().snapshots,
            final(self).meta().policies == old(self).meta().policies,
            old(self).meta().workspace_map().contains_key(workspace_id@) ==> fails_already_exists(
                r,
                workspace_subject(workspace_id@),
            ) && final(self).storage() == old(self).storage(),
            !old(self).meta().workspace_map().contains_key(workspace_id@) && !old(self).meta().snapshot_map().contains_key(snapshot_id@) ==> fails_not_found(
                r,
                snapshot_subject(snapshot_id@),
            ) && final(self).storage() == old(self).storage(),
            r is Err ==> final(self).meta() == old(self).meta(),
            r is Ok ==> {
                &&& !old(self).meta().workspace_map().contains_key(workspace_id@)
                &&& old(self).meta().snapshot_map().contains_key(snapshot_id@)
                &&& is_fresh_workspace(
                    r->Ok_0,
                    workspace_id,
                    agent_id,
                    Some(*snapshot_id),
                    old(self).default_policy(),
                )
                &&& final(self).meta().workspace_map() == old(self).meta().workspace_map().insert(
                    workspace_id@,
                    r->Ok_0,
                )
            },
    {
        if self.metadata.workspaces.contains(workspace_id.as_str()) {
            return Err(FlarenvError::AlreadyExists(concat("workspace ", workspace_id.as_str())));
        }
        if !self.metadata.snapshots.contains(snapshot_id.as_str()) {
            return Err(FlarenvError::NotFound(concat("snapshot ", snapshot_id.as_str())));
        }
        let made = self.storage.clone_workspace(snapshot_id, &workspace_id);
        let ghost mid = self.storage;
        let ghost made_view = made;
        assert(mid.cloned(old(self).storage(), snapshot_id@, workspace_id@, made_view));
        let root_path = match made {
            Ok(path) => path,
            Err(e) => {
                return Err(e);
            },
        };
        let now = now_nanos();
        let workspace = new_workspace_record(
            workspace_id.clone(),
            agent_id,
            root_path,
            Some(snapshot_id.clone()),
            self.default_policy.clone(),
            now,
        );
        let quota = self.storage.set_quota(&workspace_id, &workspace.limits);
        assert(self.storage.quota_set(mid, workspace_id@, default_limits(), quota));
        match quota {
            Ok(()) => {},
            Err(e) => {
                return Err(e);
            },
        }
        self.metadata.workspaces.insert(workspace.clone());
        Ok(workspace)
    }

    /// Soft-deletes a workspace: it stays recorded but can no longer be
    /// used. Deleting a deleted workspace succeeds and changes nothing.
    pub fn delete_workspace(&mut self, workspace_id: &WorkspaceId) -> (r: Result<()>)
        ensures
            old(self).consistent() ==> final(self).consistent(),
            final(self).nix_profile() == old(self).nix_profile(),
            final(self).default_policy() == old(self).default_policy(),
            final(self).executor() == old(self).executor(),
            final(self).storage() == old(self).storage(),
            final(self).meta().snapshots == old(self).meta().snapshots,
            final(self).meta().policies == old(self).meta().policies,
            !old(self).meta().workspace_map().contains_key(workspace_id@) ==> fails_not_found(
                r,
                workspace_subject(workspace_id@),
            ) && final(self).meta() == old(self).meta(),
            old(self).meta().workspace_map().contains_key(workspace_id@) ==> r is Ok && final(self).meta().workspace_map() == old(self).meta().workspace_map().insert(
                workspace_id@,
                with_state(old(self).meta().workspace_map()[workspace_id@], WorkspaceState::Deleted),
            ),
    {
        let ws = match self.metadata.workspaces.get(workspace_id.as_str()) {
            Some(w) => w,
            None => {
                return Err(FlarenvError::NotFound(concat("workspace ", workspace_id.as_str())));
            },
        };
        match ws.state {
            WorkspaceState::Deleted => {
                proof {
                    let m = self.meta().workspace_map();
                    assert(with_state(m[workspace_id@], WorkspaceState::Deleted) == m[workspace_id@]);
                    assert(m.insert(workspace_id@, m[workspace_id@]) =~= m);
                }
                Ok(())
            },
            WorkspaceState::Ready => {
                let mut updated = ws.clone();
                updated.state = WorkspaceState::Deleted;
                self.metadata.update_workspace(updated);
                Ok(())
            },
        }
    }

    /// Removes a soft-deleted workspace and its storage. It fails when the
    /// workspace is missing or not soft-deleted, and when the storage backend
    /// fails; nothing is removed from the metadata then.
    pub fn purge_workspace(&mut self, workspace_id: &WorkspaceId) -> (r: Result<()>)
        ensures
            workspace_purged(*old(self), *final(self), workspace_id@, r),
    {
        let ws = match self.metadata.workspaces.get(workspace_id.as_str()) {
            Some(w) => w,
            None => {
                return Err(FlarenvError::NotFound(concat("workspace ", workspace_id.as_str())));
            },
        };
        match ws.state {
            WorkspaceState::Ready => {
                return Err(
                    FlarenvError::PreconditionFailed(
                        message3(
                            "workspace ",
                            workspace_id.as_str(),
                            " must be soft-deleted before purge",
                        ),
                    ),
                );
            },
            WorkspaceState::Deleted => {},
        }
        self.storage.delete_workspace(workspace_id)?;
        self.metadata.workspaces.remove(workspace_id.as_str());
        Ok(())
    }

    /// Whether some workspace is a branch of snapshot `snapshot_id`.
    fn snapshot_has_branch(&self, snapshot_id: &SnapshotId) -> (r: bool)
        ensures
            r == snapshot_in_use(self.meta().workspace_map(), snapshot_id@),
    {
        let ws = self.metadata.workspaces();
        let mut i: usize = 0;
        while i < ws.len()
            invariant
                ws@ == self.meta().workspaces,
                keys_sorted(ws@),
                i <= ws.len(),
                forall|j: int|
                    0 <= j < i ==> !(#[trigger] ws@[j].parent_snapshot matches Some(p) && p@ == snapshot_id@),
            decreases ws.len() - i,
        {
            match &ws[i].parent_snapshot {
                Some(p) => {
                    if str_eq(p.as_str(), snapshot_id.as_str()) {
                        proof {
                            crate::table::lemma_table_map_at(ws@, i as int);
                            let m = self.meta().workspace_map();
                            let k = ws@[i as int].id@;
                            assert(m.contains_key(k) && (m[k].parent_snapshot matches Some(q) && q@ == snapshot_id@));
                        }
                        return true;
                    }
                },
                None => {},
            }
            i += 1;
        }
        proof {
            let m = self.meta().workspace_map();
            assert forall|k: Seq<char>| #[trigger] m[k] == m[k] && m.contains_key(k) implies !(m[k].parent_snapshot matches Some(p) && p@ == snapshot_id@) by {
                let j = crate::table::key_index(ws@, k);
                assert(ws@[j].parent_snapshot == m[k].parent_snapshot);
            }
        }
        false
    }

    /// Removes a snapshot and its storage. It fails when some workspace is
    /// still a branch of it, when it does not exist, and when the storage
    /// backend fails; nothing is removed from the metadata then.
    pub fn purge_snapshot(&mut self, snapshot_id: &SnapshotId) -> (r: Result<()>)
        ensures
            snapshot_purged(*old(self), *final(self), snapshot_id@, r),
    {
        if self.snapshot_has_branch(snapshot_id) {
            return Err(
                FlarenvError::PreconditionFailed(
                    message3("snapshot ", snapshot_id.as_str(), " is still used by a branch"),
                ),
            );
        }
        if !self.metadata.snapshots.contains(snapshot_id.as_str()) {
            return Err(FlarenvError::NotFound(concat("snapshot ", snapshot_id.as_str())));
        }
        self.storage.delete_snapshot(snapshot_id)?;
        self.metadata.snapshots.remove(snapshot_id.as_str());
        Ok(())
    }

    /// Applies garbage-collection actions in order, as `purge_workspace`
    /// and `purge_snapshot` would one after the other, stopping at the first
    /// that fails: one the metadata refuses (a workspace missing or not
    /// soft-deleted, a snapshot missing or still used by a branch) or one the
    /// storage fails to remove. The effects of the actions before it stay.
    pub fn execute_gc_actions(&mut self, actions: &[GcAction]) -> (r: Result<()>)
        ensures
            old(self).consistent() ==> final(self).consistent(),
            final(self).nix_profile() == old(self).nix_profile(),
            final(self).default_policy() == old(self).default_policy(),
            final(self).executor() == old(self).executor(),
            final(self).meta().policies == old(self).meta().policies,
            r is Ok ==> gc_run(lifecycle_maps(old(self).meta()), actions@) == Some(
                lifecycle_maps(final(self).meta()),
            ) && exists|trace: Seq<S>|
                #[trigger] gc_storage_trace(old(self).storage(), actions@, trace) && trace.last()
                    == final(self).storage(),
            r is Ok ==> exists|planes: Seq<ControlPlane<S, E>>|
                #[trigger] purges_done(*old(self), actions@, planes) && planes.last() == *final(self),
            r is Err ==> exists|k: int, planes: Seq<ControlPlane<S, E>>|
                0 <= k < actions@.len() && #[trigger] purges_done(*old(self), actions@.take(k), planes)
                    && purged(planes.last(), *final(self), actions@[k], r),
            r is Err ==> exists|k: int, trace: Seq<S>|
                0 <= k < actions@.len() && #[trigger] gc_storage_trace(
                    old(self).storage(),
                    actions@.take(k),
                    trace,
                ) && gc_run(lifecycle_maps(old(self).meta()), actions@.take(k)) == Some(
                    lifecycle_maps(final(self).meta()),
                ) && gc_action_failed(
                    lifecycle_maps(final(self).meta()),
                    trace.last(),
                    actions@[k],
                    final(self).storage(),
                    r,
                ),
    {
        let ghost start = lifecycle_maps(self.meta());
        let ghost start_storage = self.storage();
        let ghost mut trace: Seq<S> = seq![self.storage()];
        let ghost mut planes: Seq<ControlPlane<S, E>> = seq![*self];
        let mut i: usize = 0;
        assert(actions@.take(0) =~= Seq::<GcAction>::empty());
        while i < actions.len()
            invariant
                i <= actions@.len(),
                gc_run(start, actions@.take(i as int)) == Some(lifecycle_maps(self.meta())),
                gc_storage_trace(start_storage, actions@.take(i as int), trace),
                trace.last() == self.storage(),
                purges_done(*old(self), actions@.take(i as int), planes),
                planes.last() == *self,
                self.nix_profile() == old(self).nix_profile(),
                self.default_policy() == old(self).default_policy(),
                self.executor() == old(self).executor(),
                self.meta().policies == old(self).meta().policies,
                start == lifecycle_maps(old(self).meta()),
                start_storage == old(self).storage(),
                old(self).consistent() ==> self.consistent(),
            decreases actions.len() - i,
        {
            let ghost before = lifecycle_maps(self.meta());
            let ghost storage_before = self.storage();
            let ghost plane_before = *self;
            let res = match &actions[i] {
                GcAction::DeleteWorkspace { workspace_id } => self.purge_workspace(workspace_id),
                GcAction::DeleteSnapshot { snapshot_id } => self.purge_snapshot(snapshot_id),
            };
            let ghost outcome = res;
            match res {
                Ok(()) => {},
                Err(e) => {
                    assert(lifecycle_maps(self.meta()) == before);
                    assert(gc_action_failed(
                        before,
                        storage_before,
                        actions@[i as int],
                        self.storage(),
                        outcome,
                    ));
                    assert(gc_storage_trace(start_storage, actions@.take(i as int), trace));
                    assert(purged(plane_before, *self, actions@[i as int], outcome));
                    assert(purges_done(*old(self), actions@.take(i as int), planes));
                    return Err(e);
                },
            }
            proof {
                assert(outcome->Ok_0 == ());
                assert(storage_removed(storage_before, actions@[i as int], self.storage(), Ok(())));
                let old_trace = trace;
                let old_planes = planes;
                planes = planes.push(*self);
                assert(purged(plane_before, *self, actions@[i as int], Ok(())));
                let pre = actions@.take(i as int);
                let next = actions@.take(i + 1);
                trace = trace.push(self.storage());
                assert(next.drop_last() =~= pre);
                assert(next.last() == actions@[i as int]);
                assert(gc_step(before, actions@[i as int]) == Some(lifecycle_maps(self.meta())));
                assert forall|j: int| 0 <= j < next.len() implies storage_removed(
                    trace[j],
                    #[trigger] next[j],
                    trace[j + 1],
                    Ok(()),
                ) by {
                    if j < i {
                        assert(next[j] == pre[j]);
                        assert(trace[j] == old_trace[j]);
                        assert(trace[j + 1] == old_trace[j + 1]);
                    }
                }
                assert forall|j: int| 0 <= j < next.len() implies purged(
                    planes[j],
                    planes[j + 1],
                    #[trigger] next[j],
                    Ok(()),
                ) by {
                    if j < i {
                        assert(next[j] == pre[j]);
                        assert(planes[j] == old_planes[j]);
                        assert(planes[j + 1] == old_planes[j + 1]);
                    }
                }
            }
            i += 1;
        }
        assert(actions@.take(actions@.len() as int) =~= actions@);
        Ok(())
    }

    /// Sets the limits of a ready workspace, first applying the disk quota
    /// through the storage backend. Nothing changes in the metadata when the
    /// workspace is missing or deleted or the storage backend fails.
    pub fn set_limits(&mut self, workspace_id: &WorkspaceId, limits: ResourceLimits) -> (r: Result<
        (),
    >)
        ensures
            is_ready(old(self).meta(), workspace_id@) ==> final(self).storage().quota_set(
                old(self).storage(),
                workspace_id@,
                limits,
                r,
            ),
            old(self).consistent() ==> final(self).consistent(),
            final(self).nix_profile() == old(self).nix_profile(),
            final(self).default_policy() == old(self).default_policy(),
            final(self).executor() == old(self).executor(),
            final(self).meta().snapshots == old(self).meta().snapshots,
            final(self).meta().policies == old(self).meta().policies,
            !is_ready(old(self).meta(), workspace_id@) ==> fails_ready_check(
                old(self).meta(),
                workspace_id@,
                r,
            ) && final(self).storage() == old(self).storage(),
            r is Err ==> final(self).meta() == old(self).meta(),
            r is Ok ==> is_ready(old(self).meta(), workspace_id@) && final(self).meta().workspace_map()
                == old(self).meta().workspace_map().insert(
                workspace_id@,
                with_limits(old(self).meta().workspace_map()[workspace_id@], limits),
            ),
    {
        let mut workspace = self.ready_workspace(workspace_id)?.clone();
        proof {
            crate::table::lemma_table_map_key(self.meta().workspaces, workspace_id@);
        }
        self.storage.set_quota(workspace_id, &limits)?;
        workspace.limits = limits;
        self.metadata.update_workspace(workspace);
        Ok(())
    }

    /// Puts a ready workspace under `policy`, recording the policy
    /// (replacing one with the same identifier). Nothing changes when the
    /// workspace is missing or deleted.
    pub fn set_network_policy(&mut self, workspace_id: &WorkspaceId, policy: NetworkPolicy) -> (r:
        Result<()>)
        ensures
            old(self).consistent() ==> final(self).consistent(),
            final(self).nix_profile() == old(self).nix_profile(),
            final(self).default_policy() == old(self).default_policy(),
            final(self).executor() == old(self).executor(),
            final(self).storage() == old(self).storage(),
            final(self).meta().snapshots == old(self).meta().snapshots,
            !is_ready(old(self).meta(), workspace_id@) ==> fails_ready_check(
                old(self).meta(),
                workspace_id@,
                r,
            ) && final(self).meta() == old(self).meta(),
            is_ready(old(self).meta(), workspace_id@) ==> {
                &&& r is Ok
                &&& final(self).meta().policy_map() == old(self).meta().policy_map().insert(
                    policy_id(policy)@,
                    policy,
                )
                &&& final(self).meta().workspace_map() == old(self).meta().workspace_map().insert(
                    workspace_id@,
                    with_policy(old(self).meta().workspace_map()[workspace_id@], policy_id(policy)),
                )
            },
    {
        let mut workspace = self.ready_workspace(workspace_id)?.clone();
        proof {
            crate::table::lemma_table_map_key(self.meta().workspaces, workspace_id@);
        }
        let policy_id = policy.id().clone();
        self.metadata.insert_policy(policy);
        workspace.network_policy = policy_id;
        self.metadata.update_workspace(workspace);
        Ok(())
    }

    /// Prepares a session in a ready workspace: marks the workspace as
    /// accessed now and gathers what the executor needs. It fails, changing
    /// nothing, when the workspace is missing or deleted or its policy is
    /// not recorded.
    pub fn prepare_session(
        &mut self,
        workspace_id: &WorkspaceId,
        session_id: SessionId,
        session: SessionRequest,
    ) -> (r: Result<ExecRequest>)
        ensures
            old(self).consistent() ==> final(self).consistent(),
            final(self).nix_profile() == old(self).nix_profile(),
            final(self).default_policy() == old(self).default_policy(),
            final(self).executor() == old(self).executor(),
            final(self).storage() == old(self).storage(),
            final(self).meta().snapshots == old(self).meta().snapshots,
            final(self).meta().policies == old(self).meta().policies,
            !is_ready(old(self).meta(), workspace_id@) ==> fails_ready_check(
                old(self).meta(),
                workspace_id@,
                r,
            ),
            is_ready(old(self).meta(), workspace_id@) && !old(self).meta().policy_map().contains_key(
                old(self).meta().workspace_map()[workspace_id@].network_policy@,
            ) ==> fails_precondition(
                r,
                missing_policy_message(old(self).meta().workspace_map()[workspace_id@].network_policy@),
            ),
            r is Err ==> final(self).meta() == old(self).meta(),
            is_ready(old(self).meta(), workspace_id@) && old(self).meta().policy_map().contains_key(
                old(self).meta().workspace_map()[workspace_id@].network_policy@,
            ) ==> r is Ok,
            r is Ok ==> {
                let w = old(self).meta().workspace_map()[workspace_id@];
                let req = r->Ok_0;
                &&& is_ready(old(self).meta(), workspace_id@)
                &&& old(self).meta().policy_map().contains_key(w.network_policy@)
                &&& req.session_id == session_id
                &&& req.session == session
                &&& req.workspace == with_access(w, req.workspace.last_accessed_at)
                &&& storable_time(req.workspace.last_accessed_at)
                &&& req.nix_profile == old(self).nix_profile()
                &&& req.network_policy@ == old(self).meta().policy_map()[w.network_policy@]@
                &&& final(self).meta().workspace_map() == old(self).meta().workspace_map().insert(
                    workspace_id@,
                    req.workspace,
                )
            },
    {
        let mut workspace = self.ready_workspace(workspace_id)?.clone();
        proof {
            crate::table::lemma_table_map_key(self.meta().workspaces, workspace_id@);
        }
        let policy = match self.metadata.policies.get(workspace.network_policy.as_str()) {
            Some(p) => p.clone(),
            None => {
                return Err(
                    FlarenvError::PreconditionFailed(
                        message3("network policy ", workspace.network_policy.as_str(), " is missing"),
                    ),
                );
            },
        };
        workspace.last_accessed_at = now_nanos();
        self.metadata.update_workspace(workspace.clone());
        Ok(
            ExecRequest {
                session_id,
                workspace,
                session,
                nix_profile: self.nix_profile.clone(),
                network_policy: policy,
            },
        )
    }

    /// Opens a session in a ready workspace through the executor, after
    /// marking the workspace as accessed. It fails, changing nothing, when
    /// the workspace is missing or deleted or its policy is not recorded;
    /// otherwise the result is the executor's.
    pub fn open_session(
        &mut self,
        workspace_id: &WorkspaceId,
        session_id: SessionId,
        session: SessionRequest,
    ) -> (r: Result<SessionExit>)
        ensures
            old(self).consistent() ==> final(self).consistent(),
            session_outcome(*old(self), *final(self), workspace_id@, session_id, session, r),
    {
        let request = self.prepare_session(workspace_id, session_id, session)?;
        let ghost req = request;
        let r = self.executor.open_session(request);
        assert(self.executor().opened(old(self).executor(), req, r));
        r
    }
}


/// A soft-deleted workspace refuses sessions: opening one fails on the
/// workspace not being ready, and nothing changes.
pub proof fn lemma_deleted_workspace_refuses_sessions<S, E: Executor>(
    old: ControlPlane<S, E>,
    new: ControlPlane<S, E>,
    id: Seq<char>,
    session_id: SessionId,
    session: SessionRequest,
    r: Result<SessionExit>,
)
    requires
        old.meta().workspace_map().contains_key(id),
        old.meta().workspace_map()[id].state == WorkspaceState::Deleted,
        session_outcome(old, new, id, session_id, session, r),
    ensures
        fails_precondition(r, not_ready_message(id)),
        new.meta() == old.meta(),
        new.executor() == old.executor(),
{
}

/// Soft-deleting a workspace a second time changes nothing more.
pub proof fn lemma_delete_idempotent(ws: Map<Seq<char>, Workspace>, id: Seq<char>)
    requires
        ws.contains_key(id),
    ensures
        ({
            let once = ws.insert(id, with_state(ws[id], WorkspaceState::Deleted));
            once.insert(id, with_state(once[id], WorkspaceState::Deleted)) == once
        }),
{
    let once = ws.insert(id, with_state(ws[id], WorkspaceState::Deleted));
    assert(once.insert(id, with_state(once[id], WorkspaceState::Deleted)) =~= once);
}

/// A workspace just created or branched is ready, so sessions may open in
/// it and purging it is refused until it is soft-deleted.
pub proof fn lemma_fresh_workspace_ready(
    m: MetadataView,
    w: Workspace,
    id: WorkspaceId,
    agent: AgentId,
    parent: Option<SnapshotId>,
    policy: PolicyId,
)
    requires
        is_fresh_workspace(w, id, agent, parent, policy),
        m.workspace_map().contains_key(id@),
        m.workspace_map()[id@] == w,
    ensures
        is_ready(m, id@),
{
}


/// A session prepared after a workspace was put under a policy runs under
/// that policy.
pub proof fn lemma_policy_change_reaches_sessions(
    before: MetadataView,
    after: MetadataView,
    id: Seq<char>,
    policy: NetworkPolicy,
    req: ExecRequest,
)
    requires
        before.workspace_map().contains_key(id),
        after.policy_map() == before.policy_map().insert(policy_id(policy)@, policy),
        after.workspace_map() == before.workspace_map().insert(
            id,
            with_policy(before.workspace_map()[id], policy_id(policy)),
        ),
        req.network_policy@ == after.policy_map()[after.workspace_map()[id].network_policy@]@,
    ensures
        req.network_policy@ == policy@,
{
}

/// A session prepared after a workspace's limits were set runs with those
/// limits.
pub proof fn lemma_limits_reach_sessions(
    before: MetadataView,
    after: MetadataView,
    id: Seq<char>,
    limits: ResourceLimits,
    req: ExecRequest,
)
    requires
        before.workspace_map().contains_key(id),
        after.workspace_map() == before.workspace_map().insert(
            id,
            with_limits(before.workspace_map()[id], limits),
        ),
        req.workspace == with_access(after.workspace_map()[id], req.workspace.last_accessed_at),
    ensures
        req.workspace.limits == limits,
{
}

} // verus!
