//! Storage backends: where workspace roots and snapshots live.

use crate::command::{push_owned, push_word, words, HostCommand};
use crate::error::{fails_already_exists, fails_not_found, FlarenvError, Result};
use crate::ids::{SnapshotId, WorkspaceId};
use crate::model::ResourceLimits;
use crate::table::{Keyed, SortedTable};
use crate::text::{concat, decimal, format_decimal, join_path, path_join, string_from};
use vstd::prelude::*;

verus! {

/// Operations that a storage backend provides to the control plane. The
/// paths returned are the roots of the new workspaces and snapshots. Each
/// operation is described by a relation between the backend before and
/// after it, its arguments and its outcome, which a backend may define; a
/// backend that defines none promises nothing of its operations.
pub trait StorageBackend: Sized {
    /// Making the root of workspace `workspace_id` took the backend from
    /// `before` to `self`, with outcome `r`.
    open spec fn created(&self, before: Self, workspace_id: Seq<char>, r: Result<String>) -> bool {
        true
    }

    /// Making the root of workspace `workspace_id` from snapshot
    /// `snapshot_id` took the backend from `before` to `self`.
    open spec fn cloned(
        &self,
        before: Self,
        snapshot_id: Seq<char>,
        workspace_id: Seq<char>,
        r: Result<String>,
    ) -> bool {
        true
    }

    /// Taking snapshot `snapshot_id` of workspace `workspace_id` took the
    /// backend from `before` to `self`.
    open spec fn snapshotted(
        &self,
        before: Self,
        workspace_id: Seq<char>,
        snapshot_id: Seq<char>,
        r: Result<String>,
    ) -> bool {
        true
    }

    /// Removing the root of workspace `workspace_id` took the backend from
    /// `before` to `self`.
    open spec fn workspace_removed(&self, before: Self, workspace_id: Seq<char>, r: Result<()>) -> bool {
        true
    }

    /// Removing snapshot `snapshot_id` took the backend from `before` to
    /// `self`.
    open spec fn snapshot_removed(&self, before: Self, snapshot_id: Seq<char>, r: Result<()>) -> bool {
        true
    }

    /// Setting the quota of workspace `workspace_id` to `limits` took the
    /// backend from `before` to `self`.
    open spec fn quota_set(
        &self,
        before: Self,
        workspace_id: Seq<char>,
        limits: ResourceLimits,
        r: Result<()>,
    ) -> bool {
        true
    }

    fn create_workspace(&mut self, workspace_id: &WorkspaceId) -> (r: Result<String>)
        ensures
            final(self).created(*old(self), workspace_id@, r),
    ;

    fn clone_workspace(&mut self, snapshot_id: &SnapshotId, workspace_id: &WorkspaceId) -> (r:
        Result<String>)
        ensures
            final(self).cloned(*old(self), snapshot_id@, workspace_id@, r),
    ;

    fn snapshot_workspace(&mut self, workspace_id: &WorkspaceId, snapshot_id: &SnapshotId) -> (r:
        Result<String>)
        ensures
            final(self).snapshotted(*old(self), workspace_id@, snapshot_id@, r),
    ;

    fn delete_workspace(&mut self, workspace_id: &WorkspaceId) -> (r: Result<()>)
        ensures
            final(self).workspace_removed(*old(self), workspace_id@, r),
    ;

    fn delete_snapshot(&mut self, snapshot_id: &SnapshotId) -> (r: Result<()>)
        ensures
            final(self).snapshot_removed(*old(self), snapshot_id@, r),
    ;

    fn set_quota(&mut self, workspace_id: &WorkspaceId, limits: &ResourceLimits) -> (r: Result<()>)
        ensures
            final(self).quota_set(*old(self), workspace_id@, *limits, r),
    ;
}

/// The root of workspace `id` under storage root `root`.
pub open spec fn workspace_root(root: Seq<char>, id: Seq<char>) -> Seq<char> {
    path_join(path_join(root, "workspaces"@), id)
}

/// The root of snapshot `id` under storage root `root`.
pub open spec fn snapshot_root(root: Seq<char>, id: Seq<char>) -> Seq<char> {
    path_join(path_join(root, "snapshots"@), id)
}

/// A path that the in-memory storage remembers under a key.
#[derive(Debug)]
pub struct StoredPath {
    pub key: String,
    pub path: String,
}

impl Keyed for StoredPath {
    open spec fn key(&self) -> Seq<char> {
        self.key@
    }

    fn key_str(&self) -> (r: &str) {
        self.key.as_str()
    }
}

/// The paths a table of stored paths maps each key to.
pub open spec fn stored_paths(m: Map<Seq<char>, StoredPath>) -> Map<Seq<char>, Seq<char>> {
    m.map_values(|p: StoredPath| p.path@)
}

/// Storage that only keeps track of paths, for tests and dry runs.
#[derive(Debug)]
pub struct InMemoryStorage {
    root: String,
    workspaces: SortedTable<StoredPath>,
    snapshots: SortedTable<StoredPath>,
}

impl InMemoryStorage {
    /// The storage root.
    pub closed spec fn root(&self) -> Seq<char> {
        self.root@
    }

    /// The workspace roots held, by workspace identifier.
    pub closed spec fn workspace_paths(&self) -> Map<Seq<char>, Seq<char>> {
        stored_paths(self.workspaces.map())
    }

    /// The snapshot roots held, by snapshot identifier.
    pub closed spec fn snapshot_paths(&self) -> Map<Seq<char>, Seq<char>> {
        stored_paths(self.snapshots.map())
    }

    /// Empty storage under `root`.
    pub fn new(root: &str) -> (r: Self)
        ensures
            r.root() == root@,
            r.workspace_paths() == Map::<Seq<char>, Seq<char>>::empty(),
            r.snapshot_paths() == Map::<Seq<char>, Seq<char>>::empty(),
    {
        let r = InMemoryStorage {
            root: string_from(root),
            workspaces: SortedTable::new(),
            snapshots: SortedTable::new(),
        };
        assert(r.workspace_paths() =~= Map::<Seq<char>, Seq<char>>::empty());
        assert(r.snapshot_paths() =~= Map::<Seq<char>, Seq<char>>::empty());
        r
    }

    /// Records a new workspace root for `workspace_id`.
    fn add_workspace(&mut self, workspace_id: &WorkspaceId) -> (r: Result<String>)
        ensures
            final(self).root() == old(self).root(),
            final(self).snapshot_paths() == old(self).snapshot_paths(),
            old(self).workspace_paths().contains_key(workspace_id@) ==> fails_already_exists(r, "workspace "@ + workspace_id@) && final(self).workspace_paths() == old(self).workspace_paths(),
            !old(self).workspace_paths().contains_key(workspace_id@) ==> r is Ok && r->Ok_0@ == workspace_root(old(self).root(), workspace_id@) && final(self).workspace_paths()
                == old(self).workspace_paths().insert(workspace_id@, r->Ok_0@),
    {
        if self.workspaces.contains(workspace_id.as_str()) {
            return Err(FlarenvError::AlreadyExists(concat("workspace ", workspace_id.as_str())));
        }
        let base = join_path(self.root.as_str(), "workspaces");
        let path = join_path(base.as_str(), workspace_id.as_str());
        let entry = StoredPath { key: string_from(workspace_id.as_str()), path: path.clone() };
        let ghost old_map = self.workspaces.map();
        self.workspaces.insert(entry);
        assert(stored_paths(self.workspaces.map()) =~= stored_paths(old_map).insert(
            workspace_id@,
            path@,
        ));
        Ok(path)
    }
}

impl StorageBackend for InMemoryStorage {
    /// A new root under `<root>/workspaces`, refused for a taken identifier.
    open spec fn created(&self, before: Self, workspace_id: Seq<char>, r: Result<String>) -> bool {
        &&& self.root() == before.root()
        &&& self.snapshot_paths() == before.snapshot_paths()
        &&& before.workspace_paths().contains_key(workspace_id) ==> fails_already_exists(
            r,
            "workspace "@ + workspace_id,
        ) && self.workspace_paths() == before.workspace_paths()
        &&& !before.workspace_paths().contains_key(workspace_id) ==> r is Ok && r->Ok_0@
            == workspace_root(before.root(), workspace_id) && self.workspace_paths()
            == before.workspace_paths().insert(workspace_id, r->Ok_0@)
    }

    /// As `created`, refused first when the snapshot is missing.
    open spec fn cloned(
        &self,
        before: Self,
        snapshot_id: Seq<char>,
        workspace_id: Seq<char>,
        r: Result<String>,
    ) -> bool {
        &&& self.root() == before.root()
        &&& self.snapshot_paths() == before.snapshot_paths()
        &&& !before.snapshot_paths().contains_key(snapshot_id) ==> fails_not_found(
            r,
            "snapshot "@ + snapshot_id,
        ) && self.workspace_paths() == before.workspace_paths()
        &&& before.snapshot_paths().contains_key(snapshot_id) ==> self.created(before, workspace_id, r)
    }

    /// A new root under `<root>/snapshots`, refused for a missing workspace
    /// or a taken snapshot identifier.
    open spec fn snapshotted(
        &self,
        before: Self,
        workspace_id: Seq<char>,
        snapshot_id: Seq<char>,
        r: Result<String>,
    ) -> bool {
        &&& self.root() == before.root()
        &&& self.workspace_paths() == before.workspace_paths()
        &&& !before.workspace_paths().contains_key(workspace_id) ==> fails_not_found(
            r,
            "workspace "@ + workspace_id,
        ) && self.snapshot_paths() == before.snapshot_paths()
        &&& before.workspace_paths().contains_key(workspace_id) && before.snapshot_paths().contains_key(
            snapshot_id,
        ) ==> fails_already_exists(r, "snapshot "@ + snapshot_id) && self.snapshot_paths()
            == before.snapshot_paths()
        &&& before.workspace_paths().contains_key(workspace_id) && !before.snapshot_paths().contains_key(
            snapshot_id,
        ) ==> r is Ok && r->Ok_0@ == snapshot_root(before.root(), snapshot_id) && self.snapshot_paths()
            == before.snapshot_paths().insert(snapshot_id, r->Ok_0@)
    }

    /// The root is forgotten; missing ones are not found.
    open spec fn workspace_removed(&self, before: Self, workspace_id: Seq<char>, r: Result<()>) -> bool {
        &&& self.root() == before.root()
        &&& self.snapshot_paths() == before.snapshot_paths()
        &&& self.workspace_paths() == before.workspace_paths().remove(workspace_id)
        &&& (r is Ok <==> before.workspace_paths().contains_key(workspace_id))
        &&& r is Err ==> fails_not_found(r, "workspace "@ + workspace_id)
    }

    /// The snapshot is forgotten; missing ones are not found.
    open spec fn snapshot_removed(&self, before: Self, snapshot_id: Seq<char>, r: Result<()>) -> bool {
        &&& self.root() == before.root()
        &&& self.workspace_paths() == before.workspace_paths()
        &&& self.snapshot_paths() == before.snapshot_paths().remove(snapshot_id)
        &&& (r is Ok <==> before.snapshot_paths().contains_key(snapshot_id))
        &&& r is Err ==> fails_not_found(r, "snapshot "@ + snapshot_id)
    }

    /// Nothing changes; the workspace must be known.
    open spec fn quota_set(
        &self,
        before: Self,
        workspace_id: Seq<char>,
        limits: ResourceLimits,
        r: Result<()>,
    ) -> bool {
        &&& self.root() == before.root()
        &&& self.workspace_paths() == before.workspace_paths()
        &&& self.snapshot_paths() == before.snapshot_paths()
        &&& (r is Ok <==> before.workspace_paths().contains_key(workspace_id))
        &&& r is Err ==> fails_not_found(r, "workspace "@ + workspace_id)
    }

    fn create_workspace(&mut self, workspace_id: &WorkspaceId) -> (r: Result<String>)
    {
        self.add_workspace(workspace_id)
    }

    fn clone_workspace(&mut self, snapshot_id: &SnapshotId, workspace_id: &WorkspaceId) -> (r:
        Result<String>)
    {
        if !self.snapshots.contains(snapshot_id.as_str()) {
            return Err(FlarenvError::NotFound(concat("snapshot ", snapshot_id.as_str())));
        }
        self.add_workspace(workspace_id)
    }

    fn snapshot_workspace(&mut self, workspace_id: &WorkspaceId, snapshot_id: &SnapshotId) -> (r:
        Result<String>)
    {
        if !self.workspaces.contains(workspace_id.as_str()) {
            return Err(FlarenvError::NotFound(concat("workspace ", workspace_id.as_str())));
        }
        if self.snapshots.contains(snapshot_id.as_str()) {
            return Err(FlarenvError::AlreadyExists(concat("snapshot ", snapshot_id.as_str())));
        }
        let base = join_path(self.root.as_str(), "snapshots");
        let path = join_path(base.as_str(), snapshot_id.as_str());
        let entry = StoredPath { key: string_from(snapshot_id.as_str()), path: path.clone() };
        let ghost old_map = self.snapshots.map();
        self.snapshots.insert(entry);
        assert(stored_paths(self.snapshots.map()) =~= stored_paths(old_map).insert(
            snapshot_id@,
            path@,
        ));
        Ok(path)
    }

    fn delete_workspace(&mut self, workspace_id: &WorkspaceId) -> (r: Result<()>)
    {
        let ghost old_map = self.workspaces.map();
        let removed = self.workspaces.remove(workspace_id.as_str());
        assert(stored_paths(self.workspaces.map()) =~= stored_paths(old_map).remove(
            workspace_id@,
        ));
        if removed.is_none() {
            return Err(FlarenvError::NotFound(concat("workspace ", workspace_id.as_str())));
        }
        Ok(())
    }

    fn delete_snapshot(&mut self, snapshot_id: &SnapshotId) -> (r: Result<()>)
    {
        let ghost old_map = self.snapshots.map();
        let removed = self.snapshots.remove(snapshot_id.as_str());
        assert(stored_paths(self.snapshots.map()) =~= stored_paths(old_map).remove(snapshot_id@));
        if removed.is_none() {
            return Err(FlarenvError::NotFound(concat("snapshot ", snapshot_id.as_str())));
        }
        Ok(())
    }

    fn set_quota(&mut self, workspace_id: &WorkspaceId, _limits: &ResourceLimits) -> (r: Result<
        (),
    >)
    {
        if !self.workspaces.contains(workspace_id.as_str()) {
            return Err(FlarenvError::NotFound(concat("workspace ", workspace_id.as_str())));
        }
        Ok(())
    }
}

/// Storage on btrfs subvolumes under a state root. The library decides the
/// paths and the `btrfs` invocations; the daemon runs them.
#[derive(Clone, Debug)]
pub struct BtrfsStorage {
    root: String,
}

impl BtrfsStorage {
    /// The state root.
    pub closed spec fn root(&self) -> Seq<char> {
        self.root@
    }

    /// Storage under `root`.
    pub fn new(root: &str) -> (r: Self)
        ensures
            r.root() == root@,
    {
        BtrfsStorage { root: string_from(root) }
    }

    /// The root of workspace `workspace_id`: `<root>/workspaces/<id>`.
    pub fn workspace_path(&self, workspace_id: &WorkspaceId) -> (r: String)
        ensures
            r@ == workspace_root(self.root(), workspace_id@),
    {
        let base = join_path(self.root.as_str(), "workspaces");
        join_path(base.as_str(), workspace_id.as_str())
    }

    /// The root of snapshot `snapshot_id`: `<root>/snapshots/<id>`.
    pub fn snapshot_path(&self, snapshot_id: &SnapshotId) -> (r: String)
        ensures
            r@ == snapshot_root(self.root(), snapshot_id@),
    {
        let base = join_path(self.root.as_str(), "snapshots");
        join_path(base.as_str(), snapshot_id.as_str())
    }

    /// The directories that must exist before subvolumes are made:
    /// `<root>/workspaces` and `<root>/snapshots`.
    pub fn layout_dirs(&self) -> (r: Vec<String>)
        ensures
            words(r@) == seq![path_join(self.root(), "workspaces"@), path_join(self.root(), "snapshots"@)],
    {
        let mut v: Vec<String> = Vec::new();
        push_owned(&mut v, join_path(self.root.as_str(), "workspaces"));
        push_owned(&mut v, join_path(self.root.as_str(), "snapshots"));
        v
    }

    /// `btrfs subvolume create <workspace root>`.
    pub fn create_workspace_command(&self, workspace_id: &WorkspaceId) -> (r: HostCommand)
        ensures
            r@.program == "btrfs"@,
            r@.args == seq!["subvolume"@, "create"@, workspace_root(self.root(), workspace_id@)],
    {
        let mut args: Vec<String> = Vec::new();
        push_word(&mut args, "subvolume");
        push_word(&mut args, "create");
        push_owned(&mut args, self.workspace_path(workspace_id));
        HostCommand { program: string_from("btrfs"), args }
    }

    /// `btrfs subvolume snapshot -r <workspace root> <snapshot root>`.
    pub fn snapshot_command(&self, workspace_id: &WorkspaceId, snapshot_id: &SnapshotId) -> (r:
        HostCommand)
        ensures
            r@.program == "btrfs"@,
            r@.args == seq![
                "subvolume"@,
                "snapshot"@,
                "-r"@,
                workspace_root(self.root(), workspace_id@),
                snapshot_root(self.root(), snapshot_id@),
            ],
    {
        let mut args: Vec<String> = Vec::new();
        push_word(&mut args, "subvolume");
        push_word(&mut args, "snapshot");
        push_word(&mut args, "-r");
        push_owned(&mut args, self.workspace_path(workspace_id));
        push_owned(&mut args, self.snapshot_path(snapshot_id));
        HostCommand { program: string_from("btrfs"), args }
    }

    /// `btrfs subvolume snapshot <snapshot root> <workspace root>`: a
    /// writable branch of a snapshot.
    pub fn clone_command(&self, snapshot_id: &SnapshotId, workspace_id: &WorkspaceId) -> (r:
        HostCommand)
        ensures
            r@.program == "btrfs"@,
            r@.args == seq![
                "subvolume"@,
                "snapshot"@,
                snapshot_root(self.root(), snapshot_id@),
                workspace_root(self.root(), workspace_id@),
            ],
    {
        let mut args: Vec<String> = Vec::new();
        push_word(&mut args, "subvolume");
        push_word(&mut args, "snapshot");
        push_owned(&mut args, self.snapshot_path(snapshot_id));
        push_owned(&mut args, self.workspace_path(workspace_id));
        HostCommand { program: string_from("btrfs"), args }
    }

    /// `btrfs subvolume delete <path>`.
    pub fn delete_command(path: &str) -> (r: HostCommand)
        ensures
            r@.program == "btrfs"@,
            r@.args == seq!["subvolume"@, "delete"@, path@],
    {
        let mut args: Vec<String> = Vec::new();
        push_word(&mut args, "subvolume");
        push_word(&mut args, "delete");
        push_word(&mut args, path);
        HostCommand { program: string_from("btrfs"), args }
    }

    /// `btrfs qgroup limit <bytes> <workspace root>`.
    pub fn quota_command(&self, workspace_id: &WorkspaceId, bytes: u64) -> (r: HostCommand)
        ensures
            r@.program == "btrfs"@,
            r@.args == seq![
                "qgroup"@,
                "limit"@,
                decimal(bytes as nat),
                workspace_root(self.root(), workspace_id@),
            ],
    {
        let mut args: Vec<String> = Vec::new();
        push_word(&mut args, "qgroup");
        push_word(&mut args, "limit");
        push_owned(&mut args, format_decimal(bytes as u128));
        push_owned(&mut args, self.workspace_path(workspace_id));
        HostCommand { program: string_from("btrfs"), args }
    }
}

} // verus!
