//! Workspace records and their parts.

use crate::ids::{AgentId, PolicyId, SnapshotId, WorkspaceId};
use crate::table::Keyed;
use vstd::prelude::*;

verus! {

/// Nanoseconds in one second. Instants are signed nanoseconds from the Unix
/// epoch, negative before it; durations are nanoseconds.
pub const NANOS_PER_SECOND: i128 = 1_000_000_000;

/// The std clock's instant type, carried opaquely.
#[verifier::external_type_specification]
#[verifier::external_body]
pub struct ExSystemTime(std::time::SystemTime);

/// The current time of the host clock (std `SystemTime::now`). Nothing is
/// stated of it: it depends on when it is called.
#[verifier::external_body]
fn system_now() -> std::time::SystemTime {
    std::time::SystemTime::now()
}

/// The std error for an instant before the reference instant, carried
/// opaquely.
#[verifier::external_type_specification]
#[verifier::external_body]
pub struct ExSystemTimeError(std::time::SystemTimeError);

/// How far `t` lies after the Unix epoch (std `SystemTime::duration_since`
/// with `UNIX_EPOCH`), or the error for an instant before it. Nothing is
/// stated of which comes back: the instant is opaque here.
#[verifier::external_body]
fn since_epoch(t: &std::time::SystemTime) -> Result<std::time::Duration, std::time::SystemTimeError> {
    t.duration_since(std::time::UNIX_EPOCH)
}

/// How far the instant of `e` lies before the epoch (std
/// `SystemTimeError::duration`). Nothing is stated of the value.
#[verifier::external_body]
fn before_epoch(e: &std::time::SystemTimeError) -> std::time::Duration {
    e.duration()
}

/// The nanoseconds of `d` (std `Duration::as_nanos`). What is stated holds
/// of every `Duration`: its whole seconds are a `u64`, so the nanoseconds
/// divided by 10^9 are at most `u64::MAX`. The value itself is not stated:
/// the duration is opaque here.
#[verifier::external_body]
fn duration_nanos(d: &std::time::Duration) -> (n: u128)
    ensures
        n / 1_000_000_000 <= u64::MAX,
{
    d.as_nanos()
}

/// The whole seconds from the epoch to instant `t`, zero for an instant
/// before the epoch.
pub open spec fn epoch_seconds(t: i128) -> nat {
    if t < 0 {
        0
    } else {
        (t / NANOS_PER_SECOND) as nat
    }
}

/// An instant whose whole seconds since the epoch fit in 64 bits, as every
/// reading of the clock does.
pub open spec fn storable_time(t: i128) -> bool {
    epoch_seconds(t) <= u64::MAX
}

/// A duration whose whole seconds fit in 64 bits is under 2^64 seconds.
proof fn lemma_duration_bound(n: u128)
    requires
        n / 1_000_000_000 <= u64::MAX,
    ensures
        n < 18446744073709551616 * 1_000_000_000,
{
    assert(n < (n / 1_000_000_000 + 1) * 1_000_000_000) by (nonlinear_arith);
    assert((n / 1_000_000_000 + 1) * 1_000_000_000 <= 18446744073709551616 * 1_000_000_000)
        by (nonlinear_arith)
        requires
            n / 1_000_000_000 <= u64::MAX,
    ;
}

/// The current time, in signed nanoseconds from the Unix epoch: negative
/// when the clock is set before the epoch.
pub fn now_nanos() -> (r: i128)
    ensures
        storable_time(r),
{
    let t = system_now();
    match since_epoch(&t) {
        Ok(d) => {
            let n = duration_nanos(&d);
            proof {
                lemma_duration_bound(n);
            }
            n as i128
        },
        Err(e) => {
            let n = duration_nanos(&before_epoch(&e));
            proof {
                lemma_duration_bound(n);
            }
            -(n as i128)
        },
    }
}

/// Whether a workspace is usable or soft-deleted.
#[derive(Clone, Copy, Debug, Eq, PartialEq, Structural)]
pub enum WorkspaceState {
    Ready,
    Deleted,
}

/// Resource limits of a workspace.
#[derive(Debug, Eq, PartialEq)]
pub struct ResourceLimits {
    pub cpu_weight: u16,
    pub memory_max_bytes: u64,
    pub pids_max: u32,
    pub disk_max_bytes: u64,
}

/// The limits a new workspace gets: CPU weight 100, 2 GiB of memory, 256
/// tasks and 10 GiB of disk.
pub open spec fn default_limits() -> ResourceLimits {
    ResourceLimits {
        cpu_weight: 100,
        memory_max_bytes: 2147483648,
        pids_max: 256,
        disk_max_bytes: 10737418240,
    }
}

/// A new workspace gets a CPU weight of 100, 2 GiB (2^31 bytes) of memory,
/// 256 tasks and 10 GiB (10 * 2^30 bytes) of disk.
pub proof fn lemma_default_limits_values()
    ensures
        default_limits().cpu_weight == 100,
        default_limits().memory_max_bytes == 0x8000_0000,
        default_limits().pids_max == 0x100,
        default_limits().disk_max_bytes == 10 * 0x4000_0000,
{
}

impl Default for ResourceLimits {
    fn default() -> (r: Self)
        ensures
            r == default_limits(),
    {
        ResourceLimits {
            cpu_weight: 100,
            memory_max_bytes: 2 * 1024 * 1024 * 1024,
            pids_max: 256,
            disk_max_bytes: 10 * 1024 * 1024 * 1024,
        }
    }
}

impl Clone for ResourceLimits {
    fn clone(&self) -> (r: Self)
        ensures
            r == *self,
    {
        ResourceLimits {
            cpu_weight: self.cpu_weight,
            memory_max_bytes: self.memory_max_bytes,
            pids_max: self.pids_max,
            disk_max_bytes: self.disk_max_bytes,
        }
    }
}

/// A workspace: a writable root that an agent works in.
#[derive(Debug, Eq, PartialEq)]
pub struct Workspace {
    pub id: WorkspaceId,
    pub agent_id: AgentId,
    pub root_path: String,
    pub parent_snapshot: Option<SnapshotId>,
    pub limits: ResourceLimits,
    pub network_policy: PolicyId,
    pub state: WorkspaceState,
    /// Nanoseconds from the Unix epoch.
    pub created_at: i128,
    /// Nanoseconds from the Unix epoch.
    pub last_accessed_at: i128,
}

/// A copy of an optional snapshot identifier.
pub fn clone_snapshot_ref(s: &Option<SnapshotId>) -> (r: Option<SnapshotId>)
    ensures
        r == *s,
{
    match s {
        Some(id) => Some(id.clone()),
        None => None,
    }
}

impl Clone for Workspace {
    fn clone(&self) -> (r: Self)
        ensures
            r == *self,
    {
        Workspace {
            id: self.id.clone(),
            agent_id: self.agent_id.clone(),
            root_path: self.root_path.clone(),
            parent_snapshot: clone_snapshot_ref(&self.parent_snapshot),
            limits: self.limits.clone(),
            network_policy: self.network_policy.clone(),
            state: self.state,
            created_at: self.created_at,
            last_accessed_at: self.last_accessed_at,
        }
    }
}

impl Keyed for Workspace {
    open spec fn key(&self) -> Seq<char> {
        self.id@
    }

    fn key_str(&self) -> (r: &str) {
        self.id.as_str()
    }
}

/// A read-only snapshot of a workspace.
#[derive(Debug, Eq, PartialEq)]
pub struct WorkspaceSnapshot {
    pub id: SnapshotId,
    pub workspace_id: WorkspaceId,
    pub root_path: String,
    /// Nanoseconds from the Unix epoch.
    pub created_at: i128,
}

impl Clone for WorkspaceSnapshot {
    fn clone(&self) -> (r: Self)
        ensures
            r == *self,
    {
        WorkspaceSnapshot {
            id: self.id.clone(),
            workspace_id: self.workspace_id.clone(),
            root_path: self.root_path.clone(),
            created_at: self.created_at,
        }
    }
}

impl Keyed for WorkspaceSnapshot {
    open spec fn key(&self) -> Seq<char> {
        self.id@
    }

    fn key_str(&self) -> (r: &str) {
        self.id.as_str()
    }
}

/// What a session should run: a command, or a shell when there is none.
#[derive(Debug, Eq, PartialEq)]
pub struct SessionRequest {
    pub command: Option<Vec<String>>,
    pub tty: bool,
}

/// A copy of a list of strings.
pub fn clone_strings(v: &Vec<String>) -> (r: Vec<String>)
    ensures
        r@ == v@,
{
    let mut out: Vec<String> = Vec::new();
    let mut i: usize = 0;
    while i < v.len()
        invariant
            i <= v.len(),
            out@ == v@.take(i as int),
        decreases v.len() - i,
    {
        out.push(v[i].clone());
        assert(v@.take(i + 1) =~= v@.take(i as int).push(v@[i as int]));
        i += 1;
    }
    assert(v@.take(v.len() as int) =~= v@);
    out
}

/// The content of a session request: the command's words, if any, and
/// whether a terminal is wanted.
pub struct SessionRequestView {
    pub command: Option<Seq<String>>,
    pub tty: bool,
}

impl View for SessionRequest {
    type V = SessionRequestView;

    open spec fn view(&self) -> SessionRequestView {
        SessionRequestView {
            command: match self.command {
                Some(argv) => Some(argv@),
                None => None,
            },
            tty: self.tty,
        }
    }
}

impl Clone for SessionRequest {
    fn clone(&self) -> (r: Self)
        ensures
            r@ == self@,
    {
        let command = match &self.command {
            Some(argv) => Some(clone_strings(argv)),
            None => None,
        };
        SessionRequest { command, tty: self.tty }
    }
}

impl Default for SessionRequest {
    fn default() -> (r: Self)
        ensures
            r.command is None,
            r.tty,
    {
        SessionRequest { command: None, tty: true }
    }
}

} // verus!
