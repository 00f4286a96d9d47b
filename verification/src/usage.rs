//! Capacity accounting: what each workspace uses and may use.

use crate::command::{push_word, HostCommand};
use crate::control::InMemoryMetadata;
use crate::error::{fails_storage, FlarenvError, Result};
use crate::ids::WorkspaceId;
use crate::model::{Workspace, WorkspaceState};
use crate::parse::{
    int_failure_message, int_failure_text, parse_uint, parse_unsigned, split_lines, split_words,
    text_lines, text_words,
};
use crate::text::{append_str, chars_of, string_from};
use vstd::prelude::*;

verus! {

/// What one workspace uses and may use.
#[derive(Debug, Eq, PartialEq)]
pub struct WorkspaceUsage {
    pub workspace_id: WorkspaceId,
    pub state: WorkspaceState,
    pub logical_bytes: u64,
    pub retained_bytes: Option<u64>,
    pub disk_quota_bytes: u64,
    pub memory_limit_bytes: u64,
    pub pids_limit: u32,
}

/// Usage of every workspace, with totals.
#[derive(Debug, Eq, PartialEq)]
pub struct CapacityReport {
    pub workspaces: Vec<WorkspaceUsage>,
    pub ready_workspaces: usize,
    pub deleted_workspaces: usize,
    pub logical_bytes: u64,
    pub retained_bytes: Option<u64>,
    pub quota_bytes: u64,
    pub memory_limit_bytes: u64,
    pub pids_limit: u64,
}

/// Measures what a workspace root takes on disk.
pub trait UsageProbe {
    /// Measuring the files under `path` may give `r`. A probe that defines
    /// no relation promises nothing of its measurements.
    open spec fn measures(&self, path: Seq<char>, r: Result<u64>) -> bool {
        true
    }

    /// The bytes the files under `path` take.
    fn logical_bytes(&self, path: &str) -> (r: Result<u64>)
        ensures
            self.measures(path@, r),
    ;

    /// The bytes only this root keeps alive, when the probe can tell; a
    /// probe that cannot tell answers `None`.
    fn retained_bytes(&self, path: &str) -> (r: Result<Option<u64>>)
        default_ensures
            r == Ok::<Option<u64>, FlarenvError>(None),
    {
        Ok(None)
    }
}

/// How many usages are in state `state`.
pub open spec fn count_state(us: Seq<WorkspaceUsage>, state: WorkspaceState) -> nat
    decreases us.len(),
{
    if us.len() == 0 {
        0
    } else {
        count_state(us.drop_last(), state) + if us.last().state == state {
            1nat
        } else {
            0nat
        }
    }
}

/// The sum of the logical bytes.
pub open spec fn total_logical(us: Seq<WorkspaceUsage>) -> nat
    decreases us.len(),
{
    if us.len() == 0 {
        0
    } else {
        total_logical(us.drop_last()) + us.last().logical_bytes as nat
    }
}

/// The sum of the disk quotas.
pub open spec fn total_quota(us: Seq<WorkspaceUsage>) -> nat
    decreases us.len(),
{
    if us.len() == 0 {
        0
    } else {
        total_quota(us.drop_last()) + us.last().disk_quota_bytes as nat
    }
}

/// The sum of the memory limits.
pub open spec fn total_memory(us: Seq<WorkspaceUsage>) -> nat
    decreases us.len(),
{
    if us.len() == 0 {
        0
    } else {
        total_memory(us.drop_last()) + us.last().memory_limit_bytes as nat
    }
}

/// The sum of the task limits.
pub open spec fn total_pids(us: Seq<WorkspaceUsage>) -> nat
    decreases us.len(),
{
    if us.len() == 0 {
        0
    } else {
        total_pids(us.drop_last()) + us.last().pids_limit as nat
    }
}

/// The sum of the retained bytes that are known, or `None` when none is.
pub open spec fn total_retained(us: Seq<WorkspaceUsage>) -> Option<nat>
    decreases us.len(),
{
    if us.len() == 0 {
        None
    } else {
        match (total_retained(us.drop_last()), us.last().retained_bytes) {
            (None, None) => None,
            (Some(t), None) => Some(t),
            (None, Some(b)) => Some(b as nat),
            (Some(t), Some(b)) => Some(t + b as nat),
        }
    }
}

/// The known retained bytes add up: one more usage with known retained
/// bytes `b` adds `b` to the total (which becomes `b` when nothing was
/// known), one with unknown retained bytes leaves the total alone, and the
/// total of two lists of usages joined is the sum of their totals.
pub proof fn lemma_retained_adds_up(
    us: Seq<WorkspaceUsage>,
    vs: Seq<WorkspaceUsage>,
    u: WorkspaceUsage,
)
    ensures
        u.retained_bytes matches Some(b) ==> total_retained(us.push(u)) == Some(
            match total_retained(us) {
                Some(known) => known + (b as nat),
                None => b as nat,
            },
        ),
        u.retained_bytes is None ==> total_retained(us.push(u)) == total_retained(us),
        total_retained(us + vs) == match (total_retained(us), total_retained(vs)) {
            (Some(x), Some(y)) => Some(x + y),
            (Some(x), None) => Some(x),
            (None, Some(y)) => Some(y),
            (None, None) => None::<nat>,
        },
    decreases vs.len(),
{
    assert(us.push(u).drop_last() =~= us);
    if vs.len() == 0 {
        assert(us + vs =~= us);
    } else {
        let pre = vs.drop_last();
        lemma_retained_adds_up(us, pre, u);
        assert((us + vs).drop_last() =~= us + pre);
        assert((us + vs).last() == vs.last());
    }
}

/// Every total fits in 64 bits.
pub open spec fn totals_fit(us: Seq<WorkspaceUsage>) -> bool {
    &&& total_logical(us) <= u64::MAX
    &&& total_quota(us) <= u64::MAX
    &&& total_memory(us) <= u64::MAX
    &&& total_pids(us) <= u64::MAX
    &&& total_retained(us) matches Some(t) ==> t <= u64::MAX
}

/// `rep` holds the usages `us` and their totals.
pub open spec fn report_of(rep: CapacityReport, us: Seq<WorkspaceUsage>) -> bool {
    &&& rep.workspaces@ == us
    &&& rep.ready_workspaces == count_state(us, WorkspaceState::Ready)
    &&& rep.deleted_workspaces == count_state(us, WorkspaceState::Deleted)
    &&& rep.logical_bytes == total_logical(us)
    &&& rep.quota_bytes == total_quota(us)
    &&& rep.memory_limit_bytes == total_memory(us)
    &&& rep.pids_limit == total_pids(us)
    &&& match total_retained(us) {
        Some(t) => rep.retained_bytes == Some(t as u64),
        None => rep.retained_bytes is None,
    }
}

/// `u` describes workspace `w`: its identifier, state and limits.
pub open spec fn usage_describes(u: WorkspaceUsage, w: Workspace) -> bool {
    &&& u.workspace_id == w.id
    &&& u.state == w.state
    &&& u.disk_quota_bytes == w.limits.disk_max_bytes
    &&& u.memory_limit_bytes == w.limits.memory_max_bytes
    &&& u.pids_limit == w.limits.pids_max
}

/// Adds up the usages into a report, or gives `None` when a total does not
/// fit in 64 bits.
pub fn summarize_usage(usages: Vec<WorkspaceUsage>) -> (r: Option<CapacityReport>)
    ensures
        r is Some <==> totals_fit(usages@),
        r matches Some(rep) ==> report_of(rep, usages@),
{
    let mut ready: usize = 0;
    let mut deleted: usize = 0;
    let mut logical: u64 = 0;
    let mut quota: u64 = 0;
    let mut memory: u64 = 0;
    let mut pids: u64 = 0;
    let mut retained: Option<u64> = None;
    let mut i: usize = 0;
    assert(usages@.take(0) =~= Seq::<WorkspaceUsage>::empty());
    while i < usages.len()
        invariant
            i <= usages@.len(),
            ready == count_state(usages@.take(i as int), WorkspaceState::Ready),
            deleted == count_state(usages@.take(i as int), WorkspaceState::Deleted),
            ready <= i,
            deleted <= i,
            logical == total_logical(usages@.take(i as int)),
            quota == total_quota(usages@.take(i as int)),
            memory == total_memory(usages@.take(i as int)),
            pids == total_pids(usages@.take(i as int)),
            match total_retained(usages@.take(i as int)) {
                Some(t) => retained == Some(t as u64) && t <= u64::MAX,
                None => retained is None,
            },
        decreases usages.len() - i,
    {
        let u = &usages[i];
        let ghost pre = usages@.take(i as int);
        let ghost post = usages@.take(i + 1);
        assert(post.drop_last() =~= pre);
        assert(post.last() == *u);
        proof {
            lemma_totals_prefix(usages@, i as int);
        }
        match u.state {
            WorkspaceState::Ready => {
                ready = ready + 1;
            },
            WorkspaceState::Deleted => {
                deleted = deleted + 1;
            },
        }
        if u.logical_bytes > u64::MAX - logical {
            return None;
        }
        logical = logical + u.logical_bytes;
        if u.disk_quota_bytes > u64::MAX - quota {
            return None;
        }
        quota = quota + u.disk_quota_bytes;
        if u.memory_limit_bytes > u64::MAX - memory {
            return None;
        }
        memory = memory + u.memory_limit_bytes;
        if u.pids_limit as u64 > u64::MAX - pids {
            return None;
        }
        pids = pids + u.pids_limit as u64;
        match u.retained_bytes {
            Some(b) => {
                match retained {
                    Some(t) => {
                        if b > u64::MAX - t {
                            return None;
                        }
                        retained = Some(t + b);
                    },
                    None => {
                        retained = Some(b);
                    },
                }
            },
            None => {},
        }
        i += 1;
    }
    assert(usages@.take(usages@.len() as int) =~= usages@);
    Some(
        CapacityReport {
            workspaces: usages,
            ready_workspaces: ready,
            deleted_workspaces: deleted,
            logical_bytes: logical,
            retained_bytes: retained,
            quota_bytes: quota,
            memory_limit_bytes: memory,
            pids_limit: pids,
        },
    )
}

/// The totals only grow along the list, so a total too large for a prefix
/// is too large for the whole list.
proof fn lemma_totals_prefix(us: Seq<WorkspaceUsage>, i: int)
    requires
        0 <= i < us.len(),
    ensures
        total_logical(us.take(i)) + us[i].logical_bytes <= total_logical(us),
        total_quota(us.take(i)) + us[i].disk_quota_bytes <= total_quota(us),
        total_memory(us.take(i)) + us[i].memory_limit_bytes <= total_memory(us),
        total_pids(us.take(i)) + us[i].pids_limit <= total_pids(us),
        total_retained(us.take(i + 1)) matches Some(t) ==> total_retained(us) matches Some(u) && t <= u,
    decreases us.len(),
{
    if i == us.len() - 1 {
        assert(us.drop_last() =~= us.take(i));
        assert(us.take(i + 1) =~= us);
    } else {
        lemma_totals_prefix(us.drop_last(), i);
        assert(us.drop_last().take(i) =~= us.take(i));
        assert(us.drop_last().take(i + 1) =~= us.take(i + 1));
    }
}

/// A measurement where a missing root counts as using nothing.
pub open spec fn empty_if_missing(measured: Result<u64>) -> Result<u64> {
    match measured {
        Ok(b) => Ok(b),
        Err(FlarenvError::Io(f)) => if f.not_found {
            Ok(0)
        } else {
            Err(FlarenvError::Io(f))
        },
        Err(e) => Err(e),
    }
}

/// `probe` may measure `path` so that, a missing root counting as empty,
/// it takes `bytes`.
pub open spec fn measured_as<P: UsageProbe>(probe: P, path: Seq<char>, bytes: u64) -> bool {
    exists|m: Result<u64>|
        #[trigger] probe.measures(path, m) && empty_if_missing(m) == Ok::<u64, FlarenvError>(bytes)
}

/// The bytes a probe measured, where a root that does not exist counts as
/// using nothing: a failure to find the path becomes 0, any other failure
/// stays.
pub fn missing_as_empty(measured: Result<u64>) -> (r: Result<u64>)
    ensures
        r == empty_if_missing(measured),
{
    match measured {
        Ok(bytes) => Ok(bytes),
        Err(FlarenvError::Io(failure)) => {
            if failure.not_found {
                Ok(0)
            } else {
                Err(FlarenvError::Io(failure))
            }
        },
        Err(e) => Err(e),
    }
}

/// `probe` may answer `r` when asked what the root at `path` retains.
pub open spec fn retained_as<P: UsageProbe>(probe: &P, path: Seq<char>, r: Result<Option<u64>>) -> bool {
    exists|s: &str| s@ == path && call_ensures(P::retained_bytes, (probe, s), r)
}

/// `us` describes, in order, the first workspaces of `ws` as `probe` may
/// have measured them.
pub open spec fn measured_prefix<P: UsageProbe>(
    probe: &P,
    ws: Seq<Workspace>,
    us: Seq<WorkspaceUsage>,
) -> bool {
    &&& us.len() <= ws.len()
    &&& forall|j: int|
        0 <= j < us.len() ==> {
            &&& usage_describes(#[trigger] us[j], ws[j])
            &&& measured_as(*probe, ws[j].root_path@, us[j].logical_bytes)
            &&& retained_as(probe, ws[j].root_path@, Ok(us[j].retained_bytes))
        }
}

/// After the workspaces described by `us` were measured, measuring stopped
/// with failure `e`: the next root could not be measured (and was not just
/// missing), or its retained bytes could not be read, or, all being
/// measured, a total does not fit in 64 bits.
pub open spec fn measure_failure<P: UsageProbe>(
    probe: &P,
    ws: Seq<Workspace>,
    us: Seq<WorkspaceUsage>,
    e: FlarenvError,
) -> bool {
    let k = us.len() as int;
    if k < ws.len() {
        ||| exists|m: Result<u64>|
            #[trigger] probe.measures(ws[k].root_path@, m) && empty_if_missing(m) == Err::<
                u64,
                FlarenvError,
            >(e)
        ||| (exists|b: u64| #[trigger] measured_as(*probe, ws[k].root_path@, b)) && retained_as(
            probe,
            ws[k].root_path@,
            Err(e),
        )
    } else {
        &&& !totals_fit(us)
        &&& e matches FlarenvError::Storage(m) && m@ == "capacity totals do not fit in 64 bits"@
    }
}

/// Measures every workspace of `metadata` with `probe`, in identifier
/// order, and adds up the report. A root the probe cannot find counts as
/// using nothing; any other probe failure is the result. It also fails
/// when a total does not fit in 64 bits.
pub fn measure_usage<P: UsageProbe>(metadata: &InMemoryMetadata, probe: &P) -> (r: Result<
    CapacityReport,
>)
    ensures
        r matches Ok(rep) ==> {
            &&& rep.workspaces@.len() == metadata@.workspaces.len()
            &&& measured_prefix(probe, metadata@.workspaces, rep.workspaces@)
            &&& report_of(rep, rep.workspaces@)
        },
        r matches Err(e) ==> exists|us: Seq<WorkspaceUsage>|
            #[trigger] measured_prefix(probe, metadata@.workspaces, us) && measure_failure(
                probe,
                metadata@.workspaces,
                us,
                e,
            ),
{
    let ws = metadata.workspaces();
    let mut usages: Vec<WorkspaceUsage> = Vec::new();
    let mut i: usize = 0;
    while i < ws.len()
        invariant
            i <= ws@.len(),
            ws@ == metadata@.workspaces,
            usages@.len() == i,
            measured_prefix(probe, ws@, usages@),
        decreases ws.len() - i,
    {
        let w = &ws[i];
        let measured = probe.logical_bytes(w.root_path.as_str());
        let ghost measured_view = measured;
        assert(probe.measures(ws@[i as int].root_path@, measured_view));
        let logical_bytes = match missing_as_empty(measured) {
            Ok(b) => b,
            Err(e) => {
                assert(measure_failure(probe, ws@, usages@, e));
                return Err(e);
            },
        };
        assert(measured_as(*probe, ws@[i as int].root_path@, logical_bytes));
        let retained = probe.retained_bytes(w.root_path.as_str());
        assert(retained_as(probe, ws@[i as int].root_path@, retained));
        let retained_bytes = match retained {
            Ok(x) => x,
            Err(e) => {
                assert(measure_failure(probe, ws@, usages@, e));
                return Err(e);
            },
        };
        let ghost before = usages@;
        usages.push(
            WorkspaceUsage {
                workspace_id: w.id.clone(),
                state: w.state,
                logical_bytes,
                retained_bytes,
                disk_quota_bytes: w.limits.disk_max_bytes,
                memory_limit_bytes: w.limits.memory_max_bytes,
                pids_limit: w.limits.pids_max,
            },
        );
        proof {
            assert forall|j: int| 0 <= j < usages@.len() implies {
                &&& usage_describes(#[trigger] usages@[j], ws@[j])
                &&& measured_as(*probe, ws@[j].root_path@, usages@[j].logical_bytes)
                &&& retained_as(probe, ws@[j].root_path@, Ok(usages@[j].retained_bytes))
            } by {
                if j < i {
                    assert(usages@[j] == before[j]);
                }
            }
        }
        i += 1;
    }
    let ghost all = usages@;
    match summarize_usage(usages) {
        Some(report) => {
            assert(report.workspaces@ == all);
            Ok(report)
        },
        None => {
            let e = FlarenvError::Storage(string_from("capacity totals do not fit in 64 bits"));
            assert(measure_failure(probe, ws@, all, e));
            Err(e)
        },
    }
}

/// The qgroup usage of one subvolume.
#[derive(Clone, Debug, Eq, PartialEq)]
pub struct BtrfsQgroupUsage {
    pub referenced_bytes: u64,
    pub exclusive_bytes: u64,
}

/// The words of a line describe a qgroup: at least three words, the first
/// holding a '/' and not starting with '-'.
pub open spec fn is_usage_row(fields: Seq<Seq<char>>) -> bool {
    fields.len() >= 3 && fields[0].contains('/') && !(fields[0].len() > 0 && fields[0][0] == '-')
}

/// The words of the first line of `lines` that describes a qgroup.
pub open spec fn first_usage_row(lines: Seq<Seq<char>>) -> Option<Seq<Seq<char>>>
    decreases lines.len(),
{
    if lines.len() == 0 {
        None
    } else if is_usage_row(text_words(lines[0])) {
        Some(text_words(lines[0]))
    } else {
        first_usage_row(lines.drop_first())
    }
}

/// What reading the output of `btrfs qgroup show --raw` gives: the
/// referenced and exclusive bytes of the first qgroup row.
pub open spec fn qgroup_result(output: Seq<char>, r: Result<BtrfsQgroupUsage>) -> bool {
    match first_usage_row(text_lines(output)) {
        None => fails_storage(r, "btrfs qgroup output did not contain a usage row"@),
        Some(f) => match (parse_uint(f[1], u64::MAX as nat), parse_uint(f[2], u64::MAX as nat)) {
            (Ok(a), Ok(b)) => r == Ok::<BtrfsQgroupUsage, FlarenvError>(
                BtrfsQgroupUsage { referenced_bytes: a as u64, exclusive_bytes: b as u64 },
            ),
            (Err(e), _) => fails_storage(
                r,
                "invalid "@ + "referenced bytes"@ + ": "@ + int_failure_text(e),
            ),
            (Ok(_), Err(e)) => fails_storage(
                r,
                "invalid "@ + "exclusive bytes"@ + ": "@ + int_failure_text(e),
            ),
        },
    }
}

/// Reads a byte count; the error names `name`.
fn parse_bytes(value: &[char], name: &str) -> (r: Result<u64>)
    ensures
        match parse_uint(value@, u64::MAX as nat) {
            Ok(n) => r == Ok::<u64, FlarenvError>(n as u64),
            Err(e) => fails_storage(r, "invalid "@ + name@ + ": "@ + int_failure_text(e)),
        },
{
    match parse_unsigned(value, u64::MAX) {
        Ok(n) => Ok(n),
        Err(e) => {
            let mut m = string_from("invalid ");
            append_str(&mut m, name);
            append_str(&mut m, ": ");
            append_str(&mut m, int_failure_message(e));
            Err(FlarenvError::Storage(m))
        },
    }
}

/// Whether `s` holds `c`.
fn holds_char(s: &[char], c: char) -> (r: bool)
    ensures
        r == s@.contains(c),
{
    let mut i: usize = 0;
    while i < s.len()
        invariant
            i <= s.len(),
            forall|j: int| 0 <= j < i ==> s@[j] != c,
        decreases s.len() - i,
    {
        if s[i] == c {
            assert(s@[i as int] == c);
            return true;
        }
        i += 1;
    }
    false
}

/// Reads the referenced and exclusive bytes from the output of
/// `btrfs qgroup show --raw --referenced --exclusive`.
pub fn parse_btrfs_qgroup_show(output: &str) -> (r: Result<BtrfsQgroupUsage>)
    ensures
        qgroup_result(output@, r),
{
    let chars = chars_of(output);
    let lines = split_lines(chars.as_slice());
    let ghost all = lines@.map_values(|l: Vec<char>| l@);
    let mut i: usize = 0;
    assert(all.skip(0) =~= all);
    while i < lines.len()
        invariant
            i <= lines@.len(),
            all == lines@.map_values(|l: Vec<char>| l@),
            all == text_lines(output@),
            first_usage_row(all) == first_usage_row(all.skip(i as int)),
        decreases lines.len() - i,
    {
        let fields = split_words(lines[i].as_slice());
        let ghost fv = fields@.map_values(|l: Vec<char>| l@);
        assert(all.skip(i as int)[0] == lines@[i as int]@);
        assert(all.skip(i as int).drop_first() =~= all.skip(i + 1));
        if fields.len() >= 3 {
            assert(fv[0] == fields@[0]@);
            let first = fields[0].as_slice();
            let is_row = holds_char(first, '/') && !(first.len() > 0 && first[0] == '-');
            if is_row {
                assert(is_usage_row(fv));
                assert(fv[1] == fields@[1]@ && fv[2] == fields@[2]@);
                let referenced = parse_bytes(fields[1].as_slice(), "referenced bytes");
                let referenced_bytes = match referenced {
                    Ok(n) => n,
                    Err(e) => {
                        return Err(e);
                    },
                };
                let exclusive_bytes = parse_bytes(fields[2].as_slice(), "exclusive bytes")?;
                return Ok(BtrfsQgroupUsage { referenced_bytes, exclusive_bytes });
            }
        }
        i += 1;
    }
    Err(FlarenvError::Storage(string_from("btrfs qgroup output did not contain a usage row")))
}

/// `btrfs qgroup show --raw --referenced --exclusive <path>`.
pub fn qgroup_show_command(path: &str) -> (r: HostCommand)
    ensures
        r@.program == "btrfs"@,
        r@.args == seq!["qgroup"@, "show"@, "--raw"@, "--referenced"@, "--exclusive"@, path@],
{
    let mut args: Vec<String> = Vec::new();
    push_word(&mut args, "qgroup");
    push_word(&mut args, "show");
    push_word(&mut args, "--raw");
    push_word(&mut args, "--referenced");
    push_word(&mut args, "--exclusive");
    push_word(&mut args, path);
    HostCommand { program: string_from("btrfs"), args }
}

} // verus!
