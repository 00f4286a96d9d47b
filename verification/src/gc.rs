//! Garbage collection of soft-deleted workspaces and old snapshots.

use crate::control::{gc_run, gc_step, lifecycle_maps, snapshot_in_use, InMemoryMetadata, MetadataView};
use crate::ids::{SnapshotId, WorkspaceId};
use crate::model::{Workspace, WorkspaceSnapshot, WorkspaceState};
use crate::table::{has_key, key_index, keys_sorted, lemma_table_map_at, table_map, Keyed};
use crate::text::{
    chars_lt, compare_str, lemma_chars_lt_asymmetric, lemma_chars_lt_irreflexive,
    lemma_chars_lt_total, lemma_chars_lt_transitive, str_eq, KeyOrder,
};
use vstd::prelude::*;

verus! {

/// How long soft-deleted workspaces and old snapshots are kept.
#[derive(Debug, Eq, PartialEq)]
pub struct GcPolicy {
    /// How many of the newest snapshots of each workspace are kept.
    pub retain_snapshots_per_workspace: usize,
    /// Nanoseconds a soft-deleted workspace is kept after its last access.
    pub delete_deleted_workspaces_after: u128,
}

impl Default for GcPolicy {
    fn default() -> (r: Self)
        ensures
            r.retain_snapshots_per_workspace == 3,
            r.delete_deleted_workspaces_after == 7 * 24 * 60 * 60 * 1_000_000_000,
    {
        GcPolicy {
            retain_snapshots_per_workspace: 3,
            delete_deleted_workspaces_after: 604_800_000_000_000,
        }
    }
}

impl Clone for GcPolicy {
    fn clone(&self) -> (r: Self)
        ensures
            r == *self,
    {
        GcPolicy {
            retain_snapshots_per_workspace: self.retain_snapshots_per_workspace,
            delete_deleted_workspaces_after: self.delete_deleted_workspaces_after,
        }
    }
}

/// One thing garbage collection removes.
#[derive(Debug, Eq, PartialEq)]
pub enum GcAction {
    DeleteWorkspace { workspace_id: WorkspaceId },
    DeleteSnapshot { snapshot_id: SnapshotId },
}

impl Clone for GcAction {
    fn clone(&self) -> (r: Self)
        ensures
            r == *self,
    {
        match self {
            GcAction::DeleteWorkspace { workspace_id } => GcAction::DeleteWorkspace {
                workspace_id: workspace_id.clone(),
            },
            GcAction::DeleteSnapshot { snapshot_id } => GcAction::DeleteSnapshot {
                snapshot_id: snapshot_id.clone(),
            },
        }
    }
}

/// How long ago `then` was at `now`, or zero when `then` is later.
pub open spec fn age(now: i128, then: i128) -> int {
    if now >= then {
        now - then
    } else {
        0
    }
}

/// A soft-deleted workspace that has not been accessed for at least the
/// policy's retention time.
pub open spec fn workspace_expired(w: Workspace, now: i128, policy: GcPolicy) -> bool {
    w.state == WorkspaceState::Deleted && age(now, w.last_accessed_at)
        >= policy.delete_deleted_workspaces_after
}

/// The deletions of expired workspaces, in the order of `ws`.
pub open spec fn workspace_actions(ws: Seq<Workspace>, now: i128, policy: GcPolicy) -> Seq<GcAction>
    decreases ws.len(),
{
    if ws.len() == 0 {
        Seq::empty()
    } else {
        workspace_actions(ws.drop_last(), now, policy) + if workspace_expired(ws.last(), now, policy) {
            seq![GcAction::DeleteWorkspace { workspace_id: ws.last().id }]
        } else {
            Seq::empty()
        }
    }
}

/// Some workspace of `ws` is a branch of snapshot `id`.
pub open spec fn is_branch_parent(ws: Seq<Workspace>, id: Seq<char>) -> bool {
    exists|i: int| 0 <= i < ws.len() && (#[trigger] ws[i].parent_snapshot matches Some(p) && p@ == id)
}

/// Within a workspace, snapshot `a` ranks before `b`: it is newer, or as
/// old with a smaller identifier.
pub open spec fn ranks_before(a: WorkspaceSnapshot, b: WorkspaceSnapshot) -> bool {
    a.created_at > b.created_at || (a.created_at == b.created_at && chars_lt(a.id@, b.id@))
}

/// `t` belongs to the same workspace as `s` and ranks before it.
pub open spec fn outranks(t: WorkspaceSnapshot, s: WorkspaceSnapshot) -> bool {
    t.workspace_id@ == s.workspace_id@ && ranks_before(t, s)
}

/// How many snapshots of `snaps` outrank `s`: its rank in its workspace,
/// counting from zero.
pub open spec fn rank(snaps: Seq<WorkspaceSnapshot>, s: WorkspaceSnapshot) -> nat
    decreases snaps.len(),
{
    if snaps.len() == 0 {
        0
    } else {
        rank(snaps.drop_last(), s) + if outranks(snaps.last(), s) {
            1nat
        } else {
            0nat
        }
    }
}

/// A snapshot beyond the newest ones kept for its workspace, and not the
/// parent of any branch.
pub open spec fn snapshot_expired(
    snaps: Seq<WorkspaceSnapshot>,
    ws: Seq<Workspace>,
    policy: GcPolicy,
    s: WorkspaceSnapshot,
) -> bool {
    rank(snaps, s) >= policy.retain_snapshots_per_workspace && !is_branch_parent(ws, s.id@)
}

/// The order of snapshot deletions in a plan: by workspace identifier, and
/// within a workspace by rank.
pub open spec fn plan_order(a: WorkspaceSnapshot, b: WorkspaceSnapshot) -> bool {
    chars_lt(a.workspace_id@, b.workspace_id@) || (a.workspace_id@ == b.workspace_id@
        && ranks_before(a, b))
}

/// `sel` lists exactly the expired snapshots, each once, in plan order.
pub open spec fn is_snapshot_plan(
    sel: Seq<WorkspaceSnapshot>,
    snaps: Seq<WorkspaceSnapshot>,
    ws: Seq<Workspace>,
    policy: GcPolicy,
) -> bool {
    &&& forall|i: int, j: int| 0 <= i < j < sel.len() ==> plan_order(#[trigger] sel[i], #[trigger] sel[j])
    &&& forall|x: WorkspaceSnapshot|
        #[trigger] sel.contains(x) <==> snaps.contains(x) && snapshot_expired(snaps, ws, policy, x)
}

/// The deletions of the snapshots of `sel`, in order.
pub open spec fn snapshot_actions(sel: Seq<WorkspaceSnapshot>) -> Seq<GcAction> {
    sel.map_values(|s: WorkspaceSnapshot| GcAction::DeleteSnapshot { snapshot_id: s.id })
}

proof fn lemma_plan_order_irreflexive(a: WorkspaceSnapshot)
    ensures
        !plan_order(a, a),
{
    lemma_chars_lt_irreflexive(a.workspace_id@);
    lemma_chars_lt_irreflexive(a.id@);
}

proof fn lemma_plan_order_transitive(a: WorkspaceSnapshot, b: WorkspaceSnapshot, c: WorkspaceSnapshot)
    requires
        plan_order(a, b),
        plan_order(b, c),
    ensures
        plan_order(a, c),
{
    if chars_lt(a.workspace_id@, b.workspace_id@) && chars_lt(b.workspace_id@, c.workspace_id@) {
        lemma_chars_lt_transitive(a.workspace_id@, b.workspace_id@, c.workspace_id@);
    } else if a.workspace_id@ == b.workspace_id@ && b.workspace_id@ == c.workspace_id@ {
        if a.created_at == b.created_at && b.created_at == c.created_at {
            lemma_chars_lt_transitive(a.id@, b.id@, c.id@);
        }
    }
}

proof fn lemma_plan_order_total(a: WorkspaceSnapshot, b: WorkspaceSnapshot)
    requires
        a.id@ != b.id@,
    ensures
        plan_order(a, b) || plan_order(b, a),
{
    if a.workspace_id@ != b.workspace_id@ {
        lemma_chars_lt_total(a.workspace_id@, b.workspace_id@);
    } else if a.created_at == b.created_at {
        lemma_chars_lt_total(a.id@, b.id@);
    }
}

/// Whether `a` comes before `b` in plan order.
fn plan_before(a: &WorkspaceSnapshot, b: &WorkspaceSnapshot) -> (r: bool)
    ensures
        r == plan_order(*a, *b),
{
    match compare_str(a.workspace_id.as_str(), b.workspace_id.as_str()) {
        KeyOrder::Less => true,
        KeyOrder::Greater => {
            proof {
                lemma_chars_lt_asymmetric(b.workspace_id@, a.workspace_id@);
            }
            false
        },
        KeyOrder::Equal => {
            proof {
                lemma_chars_lt_irreflexive(a.workspace_id@);
            }
            if a.created_at > b.created_at {
                true
            } else if a.created_at < b.created_at {
                false
            } else {
                match compare_str(a.id.as_str(), b.id.as_str()) {
                    KeyOrder::Less => true,
                    _ => false,
                }
            }
        },
    }
}

/// Whether some workspace of `ws` is a branch of snapshot `id`.
fn has_branch(ws: &[Workspace], id: &SnapshotId) -> (r: bool)
    ensures
        r == is_branch_parent(ws@, id@),
{
    let mut i: usize = 0;
    while i < ws.len()
        invariant
            i <= ws.len(),
            forall|j: int| 0 <= j < i ==> !(#[trigger] ws@[j].parent_snapshot matches Some(p) && p@ == id@),
        decreases ws.len() - i,
    {
        match &ws[i].parent_snapshot {
            Some(p) => {
                if str_eq(p.as_str(), id.as_str()) {
                    return true;
                }
            },
            None => {},
        }
        i += 1;
    }
    false
}

/// The rank of `s` among `snaps`.
fn rank_of(snaps: &[WorkspaceSnapshot], s: &WorkspaceSnapshot) -> (r: usize)
    ensures
        r == rank(snaps@, *s),
{
    let mut count: usize = 0;
    let mut j: usize = 0;
    assert(snaps@.take(0) =~= Seq::<WorkspaceSnapshot>::empty());
    while j < snaps.len()
        invariant
            j <= snaps.len(),
            count == rank(snaps@.take(j as int), *s),
            count <= j,
        decreases snaps.len() - j,
    {
        let t = &snaps[j];
        let same = str_eq(t.workspace_id.as_str(), s.workspace_id.as_str());
        let newer = t.created_at > s.created_at || (t.created_at == s.created_at && match compare_str(
            t.id.as_str(),
            s.id.as_str(),
        ) {
            KeyOrder::Less => true,
            _ => false,
        });
        assert(snaps@.take(j + 1).drop_last() =~= snaps@.take(j as int));
        if same && newer {
            count += 1;
        }
        j += 1;
    }
    assert(snaps@.take(snaps.len() as int) =~= snaps@);
    count
}

/// How long ago `then` was at `now`, or zero when `then` is later.
fn elapsed(now: i128, then: i128) -> (r: u128)
    ensures
        r == age(now, then),
{
    if now < then {
        0
    } else if then >= 0 || now < 0 {
        (now - then) as u128
    } else {
        let after: u128 = now as u128;
        let before: u128 = (-(then + 1)) as u128;
        after + before + 1
    }
}

/// Plans garbage collection at time `now`: first the deletion of each
/// expired soft-deleted workspace, in identifier order; then the deletion
/// of each snapshot beyond the newest ones kept for its workspace that no
/// branch depends on, by workspace and newest first.
pub fn plan_gc(metadata: &InMemoryMetadata, now: i128, policy: &GcPolicy) -> (r: Vec<GcAction>)
    ensures
        exists|sel: Seq<WorkspaceSnapshot>|
            is_snapshot_plan(sel, metadata@.snapshots, metadata@.workspaces, *policy) && r@
                == workspace_actions(metadata@.workspaces, now, *policy) + snapshot_actions(sel),
{
    let ws = metadata.workspaces();
    let snaps = metadata.snapshots();
    let mut actions: Vec<GcAction> = Vec::new();
    let mut i: usize = 0;
    assert(ws@.take(0) =~= Seq::<Workspace>::empty());
    while i < ws.len()
        invariant
            i <= ws.len(),
            actions@ == workspace_actions(ws@.take(i as int), now, *policy),
        decreases ws.len() - i,
    {
        let w = &ws[i];
        assert(ws@.take(i + 1).drop_last() =~= ws@.take(i as int));
        let expired = match w.state {
            WorkspaceState::Deleted => {
                elapsed(now, w.last_accessed_at) >= policy.delete_deleted_workspaces_after
            },
            WorkspaceState::Ready => false,
        };
        if expired {
            actions.push(GcAction::DeleteWorkspace { workspace_id: w.id.clone() });
        }
        proof {
            let prev = workspace_actions(ws@.take(i as int), now, *policy);
            if expired {
                assert(actions@ =~= prev + seq![GcAction::DeleteWorkspace { workspace_id: w.id }]);
            } else {
                assert(actions@ =~= prev + Seq::<GcAction>::empty());
            }
        }
        i += 1;
    }
    assert(ws@.take(ws.len() as int) =~= ws@);
    let ghost ws_part = actions@;

    // The positions of the expired snapshots, in ascending order.
    let mut chosen: Vec<usize> = Vec::new();
    let mut k: usize = 0;
    while k < snaps.len()
        invariant
            k <= snaps.len(),
            forall|a: int, b: int| 0 <= a < b < chosen@.len() ==> chosen@[a] < chosen@[b],
            forall|a: int| 0 <= a < chosen@.len() ==> chosen@[a] < k,
            forall|a: int|
                0 <= a < chosen@.len() ==> snapshot_expired(
                    snaps@,
                    ws@,
                    *policy,
                    #[trigger] snaps@[chosen@[a] as int],
                ),
            forall|q: int|
                0 <= q < k && snapshot_expired(snaps@, ws@, *policy, #[trigger] snaps@[q])
                    ==> chosen@.contains(q as usize),
        decreases snaps.len() - k,
    {
        let s = &snaps[k];
        let r = rank_of(snaps, s);
        let keep = r < policy.retain_snapshots_per_workspace || has_branch(ws, &s.id);
        let ghost prev = chosen@;
        if !keep {
            chosen.push(k);
        }
        proof {
            assert forall|q: int|
                0 <= q < k + 1 && snapshot_expired(snaps@, ws@, *policy, #[trigger] snaps@[q])
                    implies chosen@.contains(q as usize) by {
                if q < k {
                    assert(prev.contains(q as usize));
                    let a = choose|a: int| 0 <= a < prev.len() && prev[a] == q as usize;
                    assert(chosen@[a] == q as usize);
                } else {
                    assert(chosen@[chosen@.len() - 1] == k);
                }
            }
        }
        k += 1;
    }

    // Sort the chosen positions into plan order.
    let mut sorted: Vec<usize> = Vec::new();
    let mut c: usize = 0;
    while c < chosen.len()
        invariant
            c <= chosen.len(),
            keys_sorted(snaps@),
            forall|a: int, b: int| 0 <= a < b < chosen@.len() ==> chosen@[a] < chosen@[b],
            forall|a: int| 0 <= a < chosen@.len() ==> chosen@[a] < snaps@.len(),
            forall|a: int| 0 <= a < sorted@.len() ==> sorted@[a] < snaps@.len(),
            forall|a: int, b: int|
                0 <= a < b < sorted@.len() ==> plan_order(
                    #[trigger] snaps@[sorted@[a] as int],
                    #[trigger] snaps@[sorted@[b] as int],
                ),
            forall|v: usize| #[trigger] sorted@.contains(v) <==> chosen@.take(c as int).contains(v),
        decreases chosen.len() - c,
    {
        let e = chosen[c];
        let mut p: usize = 0;
        while p < sorted.len() && plan_before(&snaps[sorted[p]], &snaps[e])
            invariant
                p <= sorted@.len(),
                e < snaps@.len(),
                forall|a: int| 0 <= a < sorted@.len() ==> sorted@[a] < snaps@.len(),
                forall|q: int|
                    0 <= q < p ==> plan_order(#[trigger] snaps@[sorted@[q] as int], snaps@[e as int]),
            decreases sorted.len() - p,
        {
            p += 1;
        }
        let ghost old_sorted = sorted@;
        proof {
            // `e` is new: the chosen positions strictly increase.
            assert(!old_sorted.contains(e)) by {
                if old_sorted.contains(e) {
                    assert(chosen@.take(c as int).contains(e));
                    let t = chosen@.take(c as int);
                    let a = choose|a: int| 0 <= a < t.len() && #[trigger] t[a] == e;
                    assert(chosen@[a] < chosen@[c as int]);
                }
            }
            let se = snaps@[e as int];
            assert forall|q: int| 0 <= q < old_sorted.len() implies #[trigger] snaps@[old_sorted[q] as int].id@ != se.id@ by {
                let i1 = old_sorted[q] as int;
                let i2 = e as int;
                assert(i1 != i2) by {
                    assert(old_sorted.contains(old_sorted[q]));
                }
                if i1 < i2 {
                    assert(chars_lt(snaps@[i1].key(), snaps@[i2].key()));
                } else {
                    assert(chars_lt(snaps@[i2].key(), snaps@[i1].key()));
                }
                lemma_chars_lt_irreflexive(se.id@);
            }
            if p < old_sorted.len() {
                lemma_plan_order_total(snaps@[old_sorted[p as int] as int], se);
                assert forall|q: int| p <= q < old_sorted.len() implies plan_order(se, #[trigger] snaps@[old_sorted[q] as int]) by {
                    if q > p {
                        assert(plan_order(snaps@[old_sorted[p as int] as int], snaps@[old_sorted[q] as int]));
                        lemma_plan_order_transitive(se, snaps@[old_sorted[p as int] as int], snaps@[old_sorted[q] as int]);
                    }
                }
            }
        }
        sorted.insert(p, e);
        proof {
            let ns = sorted@;
            assert(ns == old_sorted.insert(p as int, e));
            assert forall|a: int, b: int|
                0 <= a < b < ns.len() implies plan_order(
                #[trigger] snaps@[ns[a] as int],
                #[trigger] snaps@[ns[b] as int],
            ) by {
                if b < p {
                    assert(plan_order(snaps@[old_sorted[a] as int], snaps@[old_sorted[b] as int]));
                } else if b == p {
                    assert(ns[a] == old_sorted[a]);
                } else if a < p {
                    assert(ns[b] == old_sorted[b - 1]);
                    assert(plan_order(snaps@[old_sorted[a] as int], snaps@[e as int]));
                    lemma_plan_order_transitive(
                        snaps@[old_sorted[a] as int],
                        snaps@[e as int],
                        snaps@[old_sorted[b - 1] as int],
                    );
                } else if a == p {
                    assert(ns[b] == old_sorted[b - 1]);
                } else {
                    assert(plan_order(snaps@[old_sorted[a - 1] as int], snaps@[old_sorted[b - 1] as int]));
                }
            }
            assert(chosen@.take(c + 1) =~= chosen@.take(c as int).push(e));
            assert forall|v: usize| #[trigger] ns.contains(v) <==> chosen@.take(c + 1).contains(v) by {
                if ns.contains(v) {
                    let a = choose|a: int| 0 <= a < ns.len() && ns[a] == v;
                    if a < p {
                        assert(old_sorted[a] == v);
                        assert(old_sorted.contains(v));
                    } else if a > p {
                        assert(old_sorted[a - 1] == v);
                        assert(old_sorted.contains(v));
                    }
                    assert(chosen@.take(c + 1)[c as int] == e);
                }
                if chosen@.take(c + 1).contains(v) {
                    let t = chosen@.take(c + 1);
                    let a = choose|a: int| 0 <= a < t.len() && #[trigger] t[a] == v;
                    if a < c {
                        assert(chosen@.take(c as int)[a] == v);
                        assert(chosen@.take(c as int).contains(v));
                        assert(old_sorted.contains(v));
                        let b = choose|b: int| 0 <= b < old_sorted.len() && old_sorted[b] == v;
                        if b < p {
                            assert(ns[b] == v);
                        } else {
                            assert(ns[b + 1] == v);
                        }
                    } else {
                        assert(ns[p as int] == v);
                    }
                }
            }
        }
        c += 1;
    }
    assert(chosen@.take(chosen@.len() as int) =~= chosen@);

    // The deletions, in plan order.
    let ghost sel = Seq::new(sorted@.len(), |a: int| snaps@[sorted@[a] as int]);
    let mut j: usize = 0;
    while j < sorted.len()
        invariant
            j <= sorted@.len(),
            sel == Seq::new(sorted@.len(), |a: int| snaps@[sorted@[a] as int]),
            forall|a: int| 0 <= a < sorted@.len() ==> sorted@[a] < snaps@.len(),
            actions@ == ws_part + snapshot_actions(sel.take(j as int)),
        decreases sorted.len() - j,
    {
        let id = snaps[sorted[j]].id.clone();
        actions.push(GcAction::DeleteSnapshot { snapshot_id: id });
        proof {
            assert(sel.take(j + 1) =~= sel.take(j as int).push(sel[j as int]));
            assert(snapshot_actions(sel.take(j + 1)) =~= snapshot_actions(sel.take(j as int)).push(
                GcAction::DeleteSnapshot { snapshot_id: sel[j as int].id },
            ));
        }
        j += 1;
    }
    proof {
        assert(sel.take(sel.len() as int) =~= sel);
        assert forall|a: int, b: int| 0 <= a < b < sel.len() implies plan_order(#[trigger] sel[a], #[trigger] sel[b]) by {
            assert(plan_order(snaps@[sorted@[a] as int], snaps@[sorted@[b] as int]));
        }
        assert forall|x: WorkspaceSnapshot|
            #[trigger] sel.contains(x) <==> snaps@.contains(x) && snapshot_expired(snaps@, ws@, *policy, x) by {
            if sel.contains(x) {
                let a = choose|a: int| 0 <= a < sel.len() && sel[a] == x;
                let v = sorted@[a];
                assert(sorted@.contains(v));
                assert(chosen@.contains(v));
                let b = choose|b: int| 0 <= b < chosen@.len() && chosen@[b] == v;
                assert(snapshot_expired(snaps@, ws@, *policy, snaps@[chosen@[b] as int]));
                assert(snaps@[v as int] == x);
            }
            if snaps@.contains(x) && snapshot_expired(snaps@, ws@, *policy, x) {
                let q = choose|q: int| 0 <= q < snaps@.len() && snaps@[q] == x;
                assert(chosen@.contains(q as usize));
                assert(sorted@.contains(q as usize));
                let a = choose|a: int| 0 <= a < sorted@.len() && sorted@[a] == q as usize;
                assert(sel[a] == x);
            }
        }
        assert(is_snapshot_plan(sel, metadata@.snapshots, metadata@.workspaces, *policy));
    }
    actions
}


// ---------------------------------------------------------------------------
// A plan runs
// ---------------------------------------------------------------------------

/// The identifiers of the expired workspaces of `ws`.
pub open spec fn expired_workspace_ids(ws: Seq<Workspace>, now: i128, policy: GcPolicy) -> Set<
    Seq<char>,
> {
    Set::new(
        |k: Seq<char>|
            exists|i: int|
                0 <= i < ws.len() && #[trigger] ws[i].id@ == k && workspace_expired(ws[i], now, policy),
    )
}

/// The identifiers of the snapshots of `sel`.
pub open spec fn snapshot_ids(sel: Seq<WorkspaceSnapshot>) -> Set<Seq<char>> {
    Set::new(|k: Seq<char>| exists|i: int| 0 <= i < sel.len() && #[trigger] sel[i].id@ == k)
}

/// Running actions one list after another.
proof fn lemma_gc_run_append(
    maps: (Map<Seq<char>, Workspace>, Map<Seq<char>, WorkspaceSnapshot>),
    a: Seq<GcAction>,
    b: Seq<GcAction>,
)
    ensures
        gc_run(maps, a + b) == match gc_run(maps, a) {
            Some(m2) => gc_run(m2, b),
            None => None,
        },
    decreases b.len(),
{
    if b.len() == 0 {
        assert(a + b =~= a);
    } else {
        lemma_gc_run_append(maps, a, b.drop_last());
        assert((a + b).drop_last() =~= a + b.drop_last());
        assert((a + b).last() == b.last());
    }
}

/// In a sorted sequence, different positions hold different keys.
proof fn lemma_sorted_keys_differ<T: Keyed>(s: Seq<T>, i: int, j: int)
    requires
        keys_sorted(s),
        0 <= i < s.len(),
        0 <= j < s.len(),
        i != j,
    ensures
        s[i].key() != s[j].key(),
{
    if i < j {
        assert(chars_lt(s[i].key(), s[j].key()));
        if s[i].key() == s[j].key() {
            lemma_chars_lt_irreflexive(s[i].key());
        }
    } else {
        assert(chars_lt(s[j].key(), s[i].key()));
        if s[i].key() == s[j].key() {
            lemma_chars_lt_irreflexive(s[i].key());
        }
    }
}

/// Deleting the expired workspaces of a prefix of a sorted list removes
/// their identifiers from the map.
proof fn lemma_workspace_actions_run(
    ws: Seq<Workspace>,
    snaps: Map<Seq<char>, WorkspaceSnapshot>,
    now: i128,
    policy: GcPolicy,
    k: int,
)
    requires
        keys_sorted(ws),
        0 <= k <= ws.len(),
    ensures
        gc_run((table_map(ws), snaps), workspace_actions(ws.take(k), now, policy)) == Some(
            (table_map(ws).remove_keys(expired_workspace_ids(ws.take(k), now, policy)), snaps),
        ),
    decreases k,
{
    let start = (table_map(ws), snaps);
    if k == 0 {
        assert(ws.take(0) =~= Seq::<Workspace>::empty());
        assert(workspace_actions(ws.take(0), now, policy) =~= Seq::<GcAction>::empty());
        assert(gc_run(start, Seq::<GcAction>::empty()) == Some(start));
        assert(table_map(ws).remove_keys(expired_workspace_ids(ws.take(0), now, policy)) =~= table_map(
            ws,
        ));
    } else {
        lemma_workspace_actions_run(ws, snaps, now, policy, k - 1);
        let pre = ws.take(k - 1);
        let cur = ws.take(k);
        let w = ws[k - 1];
        assert(cur.drop_last() =~= pre);
        assert(cur.last() == w);
        let before = table_map(ws).remove_keys(expired_workspace_ids(pre, now, policy));
        let after = table_map(ws).remove_keys(expired_workspace_ids(cur, now, policy));
        if workspace_expired(w, now, policy) {
            let act = GcAction::DeleteWorkspace { workspace_id: w.id };
            assert(workspace_actions(cur, now, policy) =~= workspace_actions(pre, now, policy).push(act));
            lemma_gc_run_append(start, workspace_actions(pre, now, policy), seq![act]);
            assert(workspace_actions(pre, now, policy).push(act) =~= workspace_actions(pre, now, policy)
                + seq![act]);
            assert(seq![act].drop_last() =~= Seq::<GcAction>::empty());
            lemma_table_map_at(ws, k - 1);
            assert(!expired_workspace_ids(pre, now, policy).contains(w.id@)) by {
                if expired_workspace_ids(pre, now, policy).contains(w.id@) {
                    let i = choose|i: int|
                        0 <= i < pre.len() && #[trigger] pre[i].id@ == w.id@ && workspace_expired(
                            pre[i],
                            now,
                            policy,
                        );
                    assert(pre[i] == ws[i]);
                    lemma_sorted_keys_differ(ws, i, k - 1);
                }
            }
            assert(before.contains_key(w.id@));
            assert(before[w.id@] == w);
            assert(gc_step((before, snaps), act) == Some((before.remove(w.id@), snaps)));
            assert(gc_run((before, snaps), Seq::<GcAction>::empty()) == Some((before, snaps)));
            assert(gc_run((before, snaps), seq![act]) == gc_step((before, snaps), act));
            assert forall|key: Seq<char>| #[trigger] expired_workspace_ids(cur, now, policy).contains(key)
                <==> expired_workspace_ids(pre, now, policy).contains(key) || key == w.id@ by {
                if expired_workspace_ids(cur, now, policy).contains(key) {
                    let i = choose|i: int|
                        0 <= i < cur.len() && #[trigger] cur[i].id@ == key && workspace_expired(
                            cur[i],
                            now,
                            policy,
                        );
                    if i < k - 1 {
                        assert(pre[i] == cur[i]);
                    }
                }
                if expired_workspace_ids(pre, now, policy).contains(key) {
                    let i = choose|i: int|
                        0 <= i < pre.len() && #[trigger] pre[i].id@ == key && workspace_expired(
                            pre[i],
                            now,
                            policy,
                        );
                    assert(cur[i] == pre[i]);
                }
                if key == w.id@ {
                    assert(cur[k - 1] == w);
                }
            }
            assert(after =~= before.remove(w.id@));
        } else {
            assert(workspace_actions(cur, now, policy) =~= workspace_actions(pre, now, policy));
            assert forall|key: Seq<char>| #[trigger] expired_workspace_ids(cur, now, policy).contains(key)
                <==> expired_workspace_ids(pre, now, policy).contains(key) by {
                if expired_workspace_ids(cur, now, policy).contains(key) {
                    let i = choose|i: int|
                        0 <= i < cur.len() && #[trigger] cur[i].id@ == key && workspace_expired(
                            cur[i],
                            now,
                            policy,
                        );
                    if i < k - 1 {
                        assert(pre[i] == cur[i]);
                    }
                }
                if expired_workspace_ids(pre, now, policy).contains(key) {
                    let i = choose|i: int|
                        0 <= i < pre.len() && #[trigger] pre[i].id@ == key && workspace_expired(
                            pre[i],
                            now,
                            policy,
                        );
                    assert(cur[i] == pre[i]);
                }
            }
            assert(after =~= before);
        }
    }
}

/// Deleting the snapshots of a prefix of a plan removes their identifiers
/// from the map, whatever workspaces of the list remain.
proof fn lemma_snapshot_actions_run(
    ws: Seq<Workspace>,
    wmap: Map<Seq<char>, Workspace>,
    snaps: Seq<WorkspaceSnapshot>,
    sel: Seq<WorkspaceSnapshot>,
    policy: GcPolicy,
    k: int,
)
    requires
        keys_sorted(snaps),
        is_snapshot_plan(sel, snaps, ws, policy),
        forall|key: Seq<char>|
            #[trigger] wmap.contains_key(key) ==> exists|i: int|
                0 <= i < ws.len() && #[trigger] ws[i] == wmap[key],
        0 <= k <= sel.len(),
    ensures
        gc_run((wmap, table_map(snaps)), snapshot_actions(sel.take(k))) == Some(
            (wmap, table_map(snaps).remove_keys(snapshot_ids(sel.take(k)))),
        ),
    decreases k,
{
    let start = (wmap, table_map(snaps));
    if k == 0 {
        assert(sel.take(0) =~= Seq::<WorkspaceSnapshot>::empty());
        assert(snapshot_actions(sel.take(0)) =~= Seq::<GcAction>::empty());
        assert(gc_run(start, Seq::<GcAction>::empty()) == Some(start));
        assert(table_map(snaps).remove_keys(snapshot_ids(sel.take(0))) =~= table_map(snaps));
    } else {
        lemma_snapshot_actions_run(ws, wmap, snaps, sel, policy, k - 1);
        let pre = sel.take(k - 1);
        let cur = sel.take(k);
        let x = sel[k - 1];
        assert(cur.drop_last() =~= pre);
        assert(cur.last() == x);
        let act = GcAction::DeleteSnapshot { snapshot_id: x.id };
        assert(snapshot_actions(cur) =~= snapshot_actions(pre).push(act));
        let before = table_map(snaps).remove_keys(snapshot_ids(pre));
        let after = table_map(snaps).remove_keys(snapshot_ids(cur));
        // x is one of the snapshots, expired, and no branch uses it.
        assert(sel.contains(x));
        assert(snaps.contains(x) && snapshot_expired(snaps, ws, policy, x));
        let j = choose|j: int| 0 <= j < snaps.len() && snaps[j] == x;
        lemma_table_map_at(snaps, j);
        assert(!snapshot_in_use(wmap, x.id@)) by {
            if snapshot_in_use(wmap, x.id@) {
                let key = choose|key: Seq<char>|
                    #![trigger wmap[key]]
                    wmap.contains_key(key) && (wmap[key].parent_snapshot matches Some(p) && p@
                        == x.id@);
                let i = choose|i: int| 0 <= i < ws.len() && #[trigger] ws[i] == wmap[key];
                assert(ws[i].parent_snapshot matches Some(p) && p@ == x.id@);
                assert(is_branch_parent(ws, x.id@));
            }
        }
        assert(!snapshot_ids(pre).contains(x.id@)) by {
            if snapshot_ids(pre).contains(x.id@) {
                let i = choose|i: int| 0 <= i < pre.len() && #[trigger] pre[i].id@ == x.id@;
                assert(pre[i] == sel[i]);
                assert(plan_order(sel[i], sel[k - 1]));
                assert(sel.contains(sel[i]));
                let jj = choose|jj: int| 0 <= jj < snaps.len() && snaps[jj] == sel[i];
                if jj != j {
                    lemma_sorted_keys_differ(snaps, jj, j);
                }
                lemma_plan_order_irreflexive(x);
            }
        }
        assert(before.contains_key(x.id@));
        assert(gc_step((wmap, before), act) == Some((wmap, before.remove(x.id@))));
        assert(gc_run((wmap, before), Seq::<GcAction>::empty()) == Some((wmap, before)));
        assert(seq![act].drop_last() =~= Seq::<GcAction>::empty());
        assert(seq![act].last() == act);
        assert(gc_run((wmap, before), seq![act]) == gc_step((wmap, before), act));
        assert(seq![act].drop_last() =~= Seq::<GcAction>::empty());
        lemma_gc_run_append(start, snapshot_actions(pre), seq![act]);
        assert(snapshot_actions(pre).push(act) =~= snapshot_actions(pre) + seq![act]);
        assert forall|key: Seq<char>| #[trigger] snapshot_ids(cur).contains(key) <==> snapshot_ids(
            pre,
        ).contains(key) || key == x.id@ by {
            if snapshot_ids(cur).contains(key) {
                let i = choose|i: int| 0 <= i < cur.len() && #[trigger] cur[i].id@ == key;
                if i < k - 1 {
                    assert(pre[i] == cur[i]);
                }
            }
            if snapshot_ids(pre).contains(key) {
                let i = choose|i: int| 0 <= i < pre.len() && #[trigger] pre[i].id@ == key;
                assert(cur[i] == pre[i]);
            }
            if key == x.id@ {
                assert(cur[k - 1] == x);
            }
        }
        assert(after =~= before.remove(x.id@));
    }
}

/// A garbage-collection plan is never refused by the metadata it was made
/// from: running its actions in order removes exactly the expired
/// soft-deleted workspaces and the planned snapshots.
pub proof fn lemma_gc_plan_runs(
    m: MetadataView,
    now: i128,
    policy: GcPolicy,
    sel: Seq<WorkspaceSnapshot>,
)
    requires
        m.well_ordered(),
        is_snapshot_plan(sel, m.snapshots, m.workspaces, policy),
    ensures
        gc_run(
            lifecycle_maps(m),
            workspace_actions(m.workspaces, now, policy) + snapshot_actions(sel),
        ) == Some(
            (
                m.workspace_map().remove_keys(expired_workspace_ids(m.workspaces, now, policy)),
                m.snapshot_map().remove_keys(snapshot_ids(sel)),
            ),
        ),
{
    let ws = m.workspaces;
    lemma_workspace_actions_run(ws, m.snapshot_map(), now, policy, ws.len() as int);
    assert(ws.take(ws.len() as int) =~= ws);
    let wmap = table_map(ws).remove_keys(expired_workspace_ids(ws, now, policy));
    assert forall|key: Seq<char>| #[trigger] wmap.contains_key(key) implies exists|i: int|
        0 <= i < ws.len() && #[trigger] ws[i] == wmap[key] by {
        assert(has_key(ws, key));
        let i = key_index(ws, key);
        assert(ws[i] == wmap[key]);
    }
    lemma_snapshot_actions_run(ws, wmap, m.snapshots, sel, policy, sel.len() as int);
    assert(sel.take(sel.len() as int) =~= sel);
    lemma_gc_run_append(lifecycle_maps(m), workspace_actions(ws, now, policy), snapshot_actions(sel));
}


// ---------------------------------------------------------------------------
// What a plan holds and in what order
// ---------------------------------------------------------------------------

/// The workspace deletions of a plan: at most one per workspace, each of an
/// expired workspace, every expired workspace among them, in strictly
/// ascending identifier order.
proof fn lemma_workspace_actions_shape(ws: Seq<Workspace>, now: i128, policy: GcPolicy)
    requires
        keys_sorted(ws),
    ensures
        workspace_actions(ws, now, policy).len() <= ws.len(),
        forall|k: int|
            0 <= k < workspace_actions(ws, now, policy).len() ==> (#[trigger] workspace_actions(
                ws,
                now,
                policy,
            )[k] is DeleteWorkspace) && exists|i: int|
                0 <= i < ws.len() && ws[i].id == workspace_actions(ws, now, policy)[k]->workspace_id
                    && workspace_expired(ws[i], now, policy),
        forall|i: int|
            0 <= i < ws.len() && workspace_expired(#[trigger] ws[i], now, policy)
                ==> workspace_actions(ws, now, policy).contains(
                GcAction::DeleteWorkspace { workspace_id: ws[i].id },
            ),
        forall|k1: int, k2: int|
            0 <= k1 < k2 < workspace_actions(ws, now, policy).len() ==> chars_lt(
                (#[trigger] workspace_actions(ws, now, policy)[k1])->workspace_id@,
                (#[trigger] workspace_actions(ws, now, policy)[k2])->workspace_id@,
            ),
    decreases ws.len(),
{
    let wa = workspace_actions(ws, now, policy);
    if ws.len() > 0 {
        let pre = ws.drop_last();
        let last = ws.last();
        assert(keys_sorted(pre)) by {
            assert forall|i: int, j: int| 0 <= i < j < pre.len() implies chars_lt(
                #[trigger] pre[i].key(),
                #[trigger] pre[j].key(),
            ) by {
                assert(pre[i] == ws[i] && pre[j] == ws[j]);
            }
        }
        lemma_workspace_actions_shape(pre, now, policy);
        let pa = workspace_actions(pre, now, policy);
        let tail = if workspace_expired(last, now, policy) {
            seq![GcAction::DeleteWorkspace { workspace_id: last.id }]
        } else {
            Seq::empty()
        };
        assert(wa == pa + tail);
        assert forall|k: int| 0 <= k < wa.len() implies (#[trigger] wa[k] is DeleteWorkspace) && exists|i: int|
            0 <= i < ws.len() && ws[i].id == wa[k]->workspace_id && workspace_expired(ws[i], now, policy) by {
            if k < pa.len() {
                assert(wa[k] == pa[k]);
                let i = choose|i: int|
                    0 <= i < pre.len() && pre[i].id == pa[k]->workspace_id && workspace_expired(
                        pre[i],
                        now,
                        policy,
                    );
                assert(ws[i] == pre[i]);
            } else {
                assert(ws[ws.len() - 1] == last);
            }
        }
        assert forall|i: int|
            0 <= i < ws.len() && workspace_expired(#[trigger] ws[i], now, policy) implies wa.contains(
            GcAction::DeleteWorkspace { workspace_id: ws[i].id },
        ) by {
            if i < pre.len() {
                assert(pre[i] == ws[i]);
                assert(workspace_expired(pre[i], now, policy));
                let k = choose|k: int| 0 <= k < pa.len() && pa[k] == GcAction::DeleteWorkspace { workspace_id: pre[i].id };
                assert(wa[k] == pa[k]);
            } else {
                assert(wa[pa.len() as int] == GcAction::DeleteWorkspace { workspace_id: ws[i].id });
            }
        }
        assert forall|k1: int, k2: int| 0 <= k1 < k2 < wa.len() implies chars_lt(
            (#[trigger] wa[k1])->workspace_id@,
            (#[trigger] wa[k2])->workspace_id@,
        ) by {
            assert(wa[k1] == pa[k1]);
            if k2 < pa.len() {
                assert(wa[k2] == pa[k2]);
            } else {
                let i = choose|i: int|
                    0 <= i < pre.len() && pre[i].id == pa[k1]->workspace_id && workspace_expired(
                        pre[i],
                        now,
                        policy,
                    );
                assert(ws[i] == pre[i]);
                assert(chars_lt(ws[i].key(), ws[ws.len() - 1].key()));
            }
        }
    }
}

/// What a garbage-collection plan holds and in what order, for metadata
/// `m` at time `now` under `policy`, the snapshot part being `sel`:
/// - a workspace is deleted exactly when it is recorded, soft-deleted and
///   unused for at least the retention time (ready ones never are);
/// - a snapshot is deleted exactly when it is recorded, no workspace
///   (ready or deleted) is a branch of it, and at least the retained number
///   of snapshots of its workspace rank before it (newer, or as old with a
///   smaller identifier);
/// - every workspace deletion comes before every snapshot deletion, the
///   workspace deletions in ascending identifier order, the snapshot
///   deletions by workspace identifier and then newest first;
/// - no action occurs twice, and there are at most as many actions as
///   workspaces and snapshots together.
pub proof fn lemma_gc_plan_shape(
    m: MetadataView,
    now: i128,
    policy: GcPolicy,
    sel: Seq<WorkspaceSnapshot>,
)
    requires
        m.well_ordered(),
        is_snapshot_plan(sel, m.snapshots, m.workspaces, policy),
    ensures
        ({
            let plan = workspace_actions(m.workspaces, now, policy) + snapshot_actions(sel);
            &&& forall|id: WorkspaceId|
                #[trigger] plan.contains(GcAction::DeleteWorkspace { workspace_id: id }) <==> exists|i: int|
                    0 <= i < m.workspaces.len() && m.workspaces[i].id == id && workspace_expired(
                        m.workspaces[i],
                        now,
                        policy,
                    )
            &&& forall|id: SnapshotId|
                #[trigger] plan.contains(GcAction::DeleteSnapshot { snapshot_id: id }) <==> exists|i: int|
                    0 <= i < m.snapshots.len() && m.snapshots[i].id == id && snapshot_expired(
                        m.snapshots,
                        m.workspaces,
                        policy,
                        m.snapshots[i],
                    )
            &&& forall|k1: int, k2: int|
                0 <= k1 < k2 < plan.len() && (#[trigger] plan[k1] is DeleteSnapshot) ==> (
                #[trigger] plan[k2] is DeleteSnapshot)
            &&& forall|k1: int, k2: int|
                0 <= k1 < k2 < plan.len() && (#[trigger] plan[k1] is DeleteWorkspace) && (
                #[trigger] plan[k2] is DeleteWorkspace) ==> chars_lt(
                    plan[k1]->workspace_id@,
                    plan[k2]->workspace_id@,
                )
            &&& forall|k1: int, k2: int|
                0 <= k1 < k2 < sel.len() ==> plan_order(#[trigger] sel[k1], #[trigger] sel[k2])
            &&& plan.no_duplicates()
            &&& plan.len() <= m.workspaces.len() + m.snapshots.len()
        }),
{
    let ws = m.workspaces;
    let snaps = m.snapshots;
    let wa = workspace_actions(ws, now, policy);
    let sa = snapshot_actions(sel);
    let plan = wa + sa;
    lemma_workspace_actions_shape(ws, now, policy);
    // Workspace deletions.
    assert forall|id: WorkspaceId|
        #[trigger] plan.contains(GcAction::DeleteWorkspace { workspace_id: id }) <==> exists|i: int|
            0 <= i < ws.len() && ws[i].id == id && workspace_expired(ws[i], now, policy) by {
        let act = GcAction::DeleteWorkspace { workspace_id: id };
        if plan.contains(act) {
            let k = choose|k: int| 0 <= k < plan.len() && plan[k] == act;
            if k >= wa.len() {
                assert(plan[k] == sa[k - wa.len()]);
            } else {
                assert(wa[k] == act);
            }
        }
        if exists|i: int| 0 <= i < ws.len() && ws[i].id == id && workspace_expired(ws[i], now, policy) {
            let i = choose|i: int| 0 <= i < ws.len() && ws[i].id == id && workspace_expired(ws[i], now, policy);
            assert(workspace_expired(ws[i], now, policy));
            assert(wa.contains(act));
            let k = choose|k: int| 0 <= k < wa.len() && wa[k] == act;
            assert(plan[k] == act);
        }
    }
    // Snapshot deletions.
    assert forall|id: SnapshotId|
        #[trigger] plan.contains(GcAction::DeleteSnapshot { snapshot_id: id }) <==> exists|i: int|
            0 <= i < snaps.len() && snaps[i].id == id && snapshot_expired(snaps, ws, policy, snaps[i]) by {
        let act = GcAction::DeleteSnapshot { snapshot_id: id };
        if plan.contains(act) {
            let k = choose|k: int| 0 <= k < plan.len() && plan[k] == act;
            if k < wa.len() {
                assert(wa[k] is DeleteWorkspace);
            } else {
                let x = sel[k - wa.len()];
                assert(plan[k] == sa[k - wa.len()]);
                assert(sel.contains(x));
                let i = choose|i: int| 0 <= i < snaps.len() && snaps[i] == x;
                assert(snaps[i].id == id);
            }
        }
        if exists|i: int| 0 <= i < snaps.len() && snaps[i].id == id && snapshot_expired(snaps, ws, policy, snaps[i]) {
            let i = choose|i: int|
                0 <= i < snaps.len() && snaps[i].id == id && snapshot_expired(snaps, ws, policy, snaps[i]);
            let x = snaps[i];
            assert(snaps.contains(x));
            assert(sel.contains(x));
            let a = choose|a: int| 0 <= a < sel.len() && sel[a] == x;
            assert(plan[wa.len() + a] == sa[a]);
        }
    }
    // Order.
    assert forall|k1: int, k2: int|
        0 <= k1 < k2 < plan.len() && (#[trigger] plan[k1] is DeleteSnapshot) implies (
        #[trigger] plan[k2] is DeleteSnapshot) by {
        if k1 < wa.len() {
            assert(wa[k1] is DeleteWorkspace);
        }
        assert(plan[k2] == sa[k2 - wa.len()]);
    }
    assert forall|k1: int, k2: int|
        0 <= k1 < k2 < plan.len() && (#[trigger] plan[k1] is DeleteWorkspace) && (
        #[trigger] plan[k2] is DeleteWorkspace) implies chars_lt(
        plan[k1]->workspace_id@,
        plan[k2]->workspace_id@,
    ) by {
        if k2 >= wa.len() {
            assert(plan[k2] == sa[k2 - wa.len()]);
        } else {
            assert(plan[k1] == wa[k1] && plan[k2] == wa[k2]);
        }
    }
    // No action twice.
    assert forall|k1: int, k2: int| 0 <= k1 < plan.len() && 0 <= k2 < plan.len() && k1 != k2 implies plan[k1]
        != plan[k2] by {
        let (a, b) = if k1 < k2 { (k1, k2) } else { (k2, k1) };
        if b < wa.len() {
            assert(chars_lt(wa[a]->workspace_id@, wa[b]->workspace_id@));
            lemma_chars_lt_irreflexive(wa[a]->workspace_id@);
        } else if a >= wa.len() {
            let x = sel[a - wa.len()];
            let y = sel[b - wa.len()];
            assert(plan[a] == sa[a - wa.len()]);
            assert(plan[b] == sa[b - wa.len()]);
            assert(plan_order(x, y));
            if x.id == y.id {
                assert(sel.contains(x) && sel.contains(y));
                let i = choose|i: int| 0 <= i < snaps.len() && snaps[i] == x;
                let j = choose|j: int| 0 <= j < snaps.len() && snaps[j] == y;
                if i < j {
                    assert(chars_lt(snaps[i].key(), snaps[j].key()));
                    lemma_chars_lt_irreflexive(x.id@);
                } else if j < i {
                    assert(chars_lt(snaps[j].key(), snaps[i].key()));
                    lemma_chars_lt_irreflexive(x.id@);
                } else {
                    lemma_plan_order_irreflexive(x);
                }
            }
        } else {
            assert(wa[a] is DeleteWorkspace);
            assert(plan[b] == sa[b - wa.len()]);
        }
    }
    // Length.
    assert(sel.no_duplicates()) by {
        assert forall|a: int, b: int| 0 <= a < sel.len() && 0 <= b < sel.len() && a != b implies sel[a] != sel[b] by {
            if a < b {
                assert(plan_order(sel[a], sel[b]));
            } else {
                assert(plan_order(sel[b], sel[a]));
            }
            lemma_plan_order_irreflexive(sel[a]);
        }
    }
    sel.unique_seq_to_set();
    assert(sel.to_set().subset_of(snaps.to_set())) by {
        assert forall|x: WorkspaceSnapshot| sel.to_set().contains(x) implies snaps.to_set().contains(x) by {
            assert(sel.contains(x));
        }
    }
    snaps.lemma_cardinality_of_set();
    vstd::set_lib::lemma_len_subset(sel.to_set(), snaps.to_set());
}


// ---------------------------------------------------------------------------
// Retention is per workspace
// ---------------------------------------------------------------------------

/// How many snapshots of `snaps` belong to workspace `w`.
pub open spec fn snapshots_of(snaps: Seq<WorkspaceSnapshot>, w: Seq<char>) -> nat
    decreases snaps.len(),
{
    if snaps.len() == 0 {
        0
    } else {
        snapshots_of(snaps.drop_last(), w) + if snaps.last().workspace_id@ == w {
            1nat
        } else {
            0nat
        }
    }
}

/// A snapshot of another workspace changes nothing about whether a snapshot
/// is kept: adding one leaves its rank, and so whether it expires, as it
/// was.
pub proof fn lemma_other_workspace_snapshot_irrelevant(
    snaps: Seq<WorkspaceSnapshot>,
    ws: Seq<Workspace>,
    policy: GcPolicy,
    s: WorkspaceSnapshot,
    t: WorkspaceSnapshot,
)
    requires
        t.workspace_id@ != s.workspace_id@,
    ensures
        rank(snaps.push(t), s) == rank(snaps, s),
        snapshot_expired(snaps.push(t), ws, policy, s) == snapshot_expired(snaps, ws, policy, s),
{
    assert(snaps.push(t).drop_last() =~= snaps);
}

/// Within a workspace newer snapshots are kept first: adding a snapshot of
/// the same workspace that is newer than `s` (or as old with a smaller
/// identifier) raises its rank by one, and adding an older one leaves its
/// rank as it was.
pub proof fn lemma_newer_snapshot_outranks(
    snaps: Seq<WorkspaceSnapshot>,
    s: WorkspaceSnapshot,
    t: WorkspaceSnapshot,
)
    requires
        t.workspace_id@ == s.workspace_id@,
    ensures
        t.created_at > s.created_at ==> rank(snaps.push(t), s) == rank(snaps, s) + 1,
        t.created_at == s.created_at && chars_lt(t.id@, s.id@) ==> rank(snaps.push(t), s) == rank(snaps, s) + 1,
        t.created_at < s.created_at ==> rank(snaps.push(t), s) == rank(snaps, s),
{
    assert(snaps.push(t).drop_last() =~= snaps);
}

/// A snapshot is outranked only by other snapshots of its own workspace:
/// its rank, plus one when it is itself among `snaps`, is at most the
/// number of snapshots of its workspace.
pub proof fn lemma_rank_within_workspace(snaps: Seq<WorkspaceSnapshot>, s: WorkspaceSnapshot)
    ensures
        rank(snaps, s) + (if snaps.contains(s) {
            1nat
        } else {
            0nat
        }) <= snapshots_of(snaps, s.workspace_id@),
    decreases snaps.len(),
{
    if snaps.len() > 0 {
        let pre = snaps.drop_last();
        let t = snaps.last();
        lemma_rank_within_workspace(pre, s);
        if t == s {
            lemma_chars_lt_irreflexive(s.id@);
            assert(!outranks(t, s));
        }
        if snaps.contains(s) && t != s {
            let i = choose|i: int| 0 <= i < snaps.len() && snaps[i] == s;
            assert(i < pre.len());
            assert(pre[i] == s);
        }
        if pre.contains(s) {
            let i = choose|i: int| 0 <= i < pre.len() && pre[i] == s;
            assert(snaps[i] == s);
        }
        if t == s {
            assert(snaps[snaps.len() - 1] == s);
        }
    }
}

/// A workspace with at most the retained number of snapshots keeps all of
/// them.
pub proof fn lemma_small_workspace_keeps_snapshots(
    snaps: Seq<WorkspaceSnapshot>,
    ws: Seq<Workspace>,
    policy: GcPolicy,
    s: WorkspaceSnapshot,
)
    requires
        snaps.contains(s),
        snapshots_of(snaps, s.workspace_id@) <= policy.retain_snapshots_per_workspace,
    ensures
        !snapshot_expired(snaps, ws, policy, s),
{
    lemma_rank_within_workspace(snaps, s);
}

} // verus!
