//! The metadata file: a header line, then one tab-separated line per
//! policy, workspace and snapshot.

use crate::command::{
    join_strings, join_words, lemma_join_front, lemma_join_lacks, lemma_join_last, push_owned,
    push_word, words,
};
use crate::control::{InMemoryMetadata, MetadataView};
use crate::error::{fails_invalid_input, FlarenvError, Result};
use crate::ids::{AgentId, PolicyId, SnapshotId, WorkspaceId};
use crate::model::{
    epoch_seconds, storable_time, ResourceLimits, Workspace, WorkspaceSnapshot, WorkspaceState, NANOS_PER_SECOND,
};
use crate::network::{policy_id, NetworkPolicy};
use crate::table::{lemma_inserts_sorted, map_of_inserts, Keyed};
use crate::ids::{id_char, id_error_message, id_valid};
use crate::parse::{
    all_space, int_failure_message, int_failure_text, is_blank, is_digit, is_space, lacks,
    lemma_decimal_is_digits, lemma_lines_cut, lemma_parse_decimal, lemma_parse_uint_bound,
    lemma_pieces_cut, lemma_pieces_plain, lemma_split_on_len, parse_uint, parse_unsigned,
    split_char, split_lines, split_on, strip_cr, text_lines,
};
use crate::text::{append_str, chars_eq, chars_of, decimal, format_decimal, string_from, string_of};
use vstd::prelude::*;

verus! {

/// Where the metadata file lives.
#[derive(Clone, Debug, Eq, PartialEq)]
pub struct FileMetadataStore {
    path: String,
}

impl FileMetadataStore {
    /// The file's path.
    pub closed spec fn file(&self) -> Seq<char> {
        self.path@
    }

    /// A store for the file at `path`.
    pub fn new(path: &str) -> (r: Self)
        ensures
            r.file() == path@,
    {
        FileMetadataStore { path: string_from(path) }
    }

    /// The file's path.
    pub fn path(&self) -> (r: &str)
        ensures
            r@ == self.file(),
    {
        self.path.as_str()
    }
}

/// The content of a workspace, by text.
pub struct WorkspaceRecord {
    pub id: Seq<char>,
    pub agent_id: Seq<char>,
    pub root_path: Seq<char>,
    pub parent_snapshot: Option<Seq<char>>,
    pub limits: ResourceLimits,
    pub network_policy: Seq<char>,
    pub state: WorkspaceState,
    pub created_at: i128,
    pub last_accessed_at: i128,
}

/// The content of a snapshot, by text.
pub struct SnapshotRecord {
    pub id: Seq<char>,
    pub workspace_id: Seq<char>,
    pub root_path: Seq<char>,
    pub created_at: i128,
}

/// The content of a policy, by text.
pub enum PolicyRecord {
    Deny { id: Seq<char> },
    Allow { id: Seq<char>, cidrs: Seq<Seq<char>> },
}

/// A workspace by text.
pub open spec fn workspace_record(w: Workspace) -> WorkspaceRecord {
    WorkspaceRecord {
        id: w.id@,
        agent_id: w.agent_id@,
        root_path: w.root_path@,
        parent_snapshot: match w.parent_snapshot {
            Some(p) => Some(p@),
            None => None,
        },
        limits: w.limits,
        network_policy: w.network_policy@,
        state: w.state,
        created_at: w.created_at,
        last_accessed_at: w.last_accessed_at,
    }
}

/// A snapshot by text.
pub open spec fn snapshot_record(s: WorkspaceSnapshot) -> SnapshotRecord {
    SnapshotRecord {
        id: s.id@,
        workspace_id: s.workspace_id@,
        root_path: s.root_path@,
        created_at: s.created_at,
    }
}

/// A policy by text.
pub open spec fn policy_record(p: NetworkPolicy) -> PolicyRecord {
    match p {
        NetworkPolicy::DenyAll { id } => PolicyRecord::Deny { id: id@ },
        NetworkPolicy::AllowEgress { id, cidrs } => PolicyRecord::Allow { id: id@, cidrs: words(cidrs@) },
    }
}

/// The first line of a metadata file.
pub open spec fn header() -> Seq<char> {
    "flarenv-metadata-v1"@
}

/// An instant as whole seconds since the Unix epoch, zero for an instant
/// before it.
pub open spec fn secs_text(t: i128) -> Seq<char> {
    decimal(epoch_seconds(t))
}

/// How a workspace state is written.
pub open spec fn state_text(s: WorkspaceState) -> Seq<char> {
    match s {
        WorkspaceState::Ready => "ready"@,
        WorkspaceState::Deleted => "deleted"@,
    }
}

/// How an optional parent snapshot is written: its identifier, or "-".
pub open spec fn parent_text(p: Option<Seq<char>>) -> Seq<char> {
    match p {
        Some(id) => id,
        None => "-"@,
    }
}

/// The fields of a policy line.
pub open spec fn policy_fields(p: PolicyRecord) -> Seq<Seq<char>> {
    match p {
        PolicyRecord::Deny { id } => seq!["policy"@, id, "deny"@],
        PolicyRecord::Allow { id, cidrs } => seq!["policy"@, id, "allow"@, join_words(cidrs, ","@)],
    }
}

/// The fields of a workspace line.
pub open spec fn workspace_fields(w: WorkspaceRecord) -> Seq<Seq<char>> {
    seq![
        "workspace"@,
        w.id,
        w.agent_id,
        w.root_path,
        parent_text(w.parent_snapshot),
        decimal(w.limits.cpu_weight as nat),
        decimal(w.limits.memory_max_bytes as nat),
        decimal(w.limits.pids_max as nat),
        decimal(w.limits.disk_max_bytes as nat),
        w.network_policy,
        state_text(w.state),
        secs_text(w.created_at),
        secs_text(w.last_accessed_at),
    ]
}

/// The fields of a snapshot line.
pub open spec fn snapshot_fields(s: SnapshotRecord) -> Seq<Seq<char>> {
    seq!["snapshot"@, s.id, s.workspace_id, s.root_path, secs_text(s.created_at)]
}

/// A line made of fields separated by tabs.
pub open spec fn record_line(fields: Seq<Seq<char>>) -> Seq<char> {
    join_words(fields, "\t"@)
}

/// Lines, each followed by a line feed.
pub open spec fn text_of_lines(ls: Seq<Seq<char>>) -> Seq<char>
    decreases ls.len(),
{
    if ls.len() == 0 {
        Seq::empty()
    } else {
        text_of_lines(ls.drop_last()) + ls.last() + "\n"@
    }
}

/// The policy lines of a list of policies.
pub open spec fn policy_lines(ps: Seq<NetworkPolicy>) -> Seq<Seq<char>> {
    ps.map_values(|p: NetworkPolicy| record_line(policy_fields(policy_record(p))))
}

/// The workspace lines of a list of workspaces.
pub open spec fn workspace_lines(ws: Seq<Workspace>) -> Seq<Seq<char>> {
    ws.map_values(|w: Workspace| record_line(workspace_fields(workspace_record(w))))
}

/// The snapshot lines of a list of snapshots.
pub open spec fn snapshot_lines(ss: Seq<WorkspaceSnapshot>) -> Seq<Seq<char>> {
    ss.map_values(|s: WorkspaceSnapshot| record_line(snapshot_fields(snapshot_record(s))))
}

/// The lines of the file for metadata `m`: the header, then the policies,
/// the workspaces and the snapshots, each in identifier order.
pub open spec fn metadata_lines(m: MetadataView) -> Seq<Seq<char>> {
    seq![header()] + policy_lines(m.policies) + workspace_lines(m.workspaces) + snapshot_lines(
        m.snapshots,
    )
}

/// The file content for metadata `m`.
pub open spec fn encoded(m: MetadataView) -> Seq<char> {
    text_of_lines(metadata_lines(m))
}

/// Appends a line and its line feed.
fn append_line(out: &mut String, line: &str)
    ensures
        final(out)@ == old(out)@ + line@ + "\n"@,
{
    append_str(out, line);
    append_str(out, "\n");
}

/// Appends the decimal seconds of an instant.
fn push_secs(fields: &mut Vec<String>, t: i128)
    ensures
        words(final(fields)@) == words(old(fields)@).push(secs_text(t)),
{
    let secs: u128 = if t < 0 {
        0
    } else {
        (t as u128) / 1_000_000_000
    };
    push_owned(fields, format_decimal(secs));
}

/// The line of a policy.
pub fn encode_policy(policy: &NetworkPolicy) -> (r: String)
    ensures
        r@ == record_line(policy_fields(policy_record(*policy))),
{
    let mut fields: Vec<String> = Vec::new();
    push_word(&mut fields, "policy");
    match policy {
        NetworkPolicy::DenyAll { id } => {
            push_word(&mut fields, id.as_str());
            push_word(&mut fields, "deny");
        },
        NetworkPolicy::AllowEgress { id, cidrs } => {
            push_word(&mut fields, id.as_str());
            push_word(&mut fields, "allow");
            push_owned(&mut fields, join_strings(cidrs, ","));
        },
    }
    assert(words(fields@) =~= policy_fields(policy_record(*policy)));
    join_strings(&fields, "\t")
}

/// The line of a workspace.
pub fn encode_workspace(workspace: &Workspace) -> (r: String)
    ensures
        r@ == record_line(workspace_fields(workspace_record(*workspace))),
{
    let mut fields: Vec<String> = Vec::new();
    push_word(&mut fields, "workspace");
    push_word(&mut fields, workspace.id.as_str());
    push_word(&mut fields, workspace.agent_id.as_str());
    push_word(&mut fields, workspace.root_path.as_str());
    match &workspace.parent_snapshot {
        Some(p) => push_word(&mut fields, p.as_str()),
        None => push_word(&mut fields, "-"),
    }
    push_owned(&mut fields, format_decimal(workspace.limits.cpu_weight as u128));
    push_owned(&mut fields, format_decimal(workspace.limits.memory_max_bytes as u128));
    push_owned(&mut fields, format_decimal(workspace.limits.pids_max as u128));
    push_owned(&mut fields, format_decimal(workspace.limits.disk_max_bytes as u128));
    push_word(&mut fields, workspace.network_policy.as_str());
    match workspace.state {
        WorkspaceState::Ready => push_word(&mut fields, "ready"),
        WorkspaceState::Deleted => push_word(&mut fields, "deleted"),
    }
    push_secs(&mut fields, workspace.created_at);
    push_secs(&mut fields, workspace.last_accessed_at);
    assert(words(fields@) =~= workspace_fields(workspace_record(*workspace)));
    join_strings(&fields, "\t")
}

/// The line of a snapshot.
pub fn encode_snapshot(snapshot: &WorkspaceSnapshot) -> (r: String)
    ensures
        r@ == record_line(snapshot_fields(snapshot_record(*snapshot))),
{
    let mut fields: Vec<String> = Vec::new();
    push_word(&mut fields, "snapshot");
    push_word(&mut fields, snapshot.id.as_str());
    push_word(&mut fields, snapshot.workspace_id.as_str());
    push_word(&mut fields, snapshot.root_path.as_str());
    push_secs(&mut fields, snapshot.created_at);
    assert(words(fields@) =~= snapshot_fields(snapshot_record(*snapshot)));
    join_strings(&fields, "\t")
}

/// The file content for `metadata` (see `encoded`).
pub fn encode_metadata(metadata: &InMemoryMetadata) -> (r: String)
    ensures
        r@ == encoded(metadata@),
{
    let ps = metadata.policies();
    let ws = metadata.workspaces();
    let ss = metadata.snapshots();
    let mut out = String::new();
    append_line(&mut out, "flarenv-metadata-v1");
    let ghost mut done: Seq<Seq<char>> = seq![header()];
    assert(text_of_lines(done) =~= out@) by {
        assert(done.drop_last() =~= Seq::<Seq<char>>::empty());
        assert(text_of_lines(done.drop_last()) == Seq::<char>::empty());
        assert(done.last() == header());
        assert(Seq::<char>::empty() + header() =~= header());
    }
    let mut i: usize = 0;
    while i < ps.len()
        invariant
            i <= ps@.len(),
            done == seq![header()] + policy_lines(ps@.take(i as int)),
            out@ == text_of_lines(done),
        decreases ps.len() - i,
    {
        let line = encode_policy(&ps[i]);
        append_line(&mut out, line.as_str());
        proof {
            let next = done.push(line@);
            assert(next.drop_last() =~= done);
            assert(policy_lines(ps@.take(i + 1)) =~= policy_lines(ps@.take(i as int)).push(line@));
            done = next;
        }
        i += 1;
    }
    assert(ps@.take(ps@.len() as int) =~= ps@);
    let mut j: usize = 0;
    while j < ws.len()
        invariant
            j <= ws@.len(),
            done == seq![header()] + policy_lines(ps@) + workspace_lines(ws@.take(j as int)),
            out@ == text_of_lines(done),
        decreases ws.len() - j,
    {
        let line = encode_workspace(&ws[j]);
        append_line(&mut out, line.as_str());
        proof {
            let next = done.push(line@);
            assert(next.drop_last() =~= done);
            assert(workspace_lines(ws@.take(j + 1)) =~= workspace_lines(ws@.take(j as int)).push(line@));
            done = next;
        }
        j += 1;
    }
    assert(ws@.take(ws@.len() as int) =~= ws@);
    let mut k: usize = 0;
    while k < ss.len()
        invariant
            k <= ss@.len(),
            done == seq![header()] + policy_lines(ps@) + workspace_lines(ws@) + snapshot_lines(
                ss@.take(k as int),
            ),
            out@ == text_of_lines(done),
        decreases ss.len() - k,
    {
        let line = encode_snapshot(&ss[k]);
        append_line(&mut out, line.as_str());
        proof {
            let next = done.push(line@);
            assert(next.drop_last() =~= done);
            assert(snapshot_lines(ss@.take(k + 1)) =~= snapshot_lines(ss@.take(k as int)).push(line@));
            done = next;
        }
        k += 1;
    }
    assert(ss@.take(ss@.len() as int) =~= ss@);
    out
}

// ---------------------------------------------------------------------------
// Reading
// ---------------------------------------------------------------------------

/// The outcome of reading part of the file: a value, or the message of the
/// failure.
pub type Reading<T> = core::result::Result<T, Seq<char>>;

/// What one line of the file holds.
pub enum LineRecord {
    Blank,
    Policy(PolicyRecord),
    Workspace(WorkspaceRecord),
    Snapshot(SnapshotRecord),
}

/// Reading an identifier field of kind `kind`: the text when it is a valid
/// identifier, otherwise the validation message.
pub open spec fn read_id(kind: Seq<char>, s: Seq<char>) -> Reading<Seq<char>> {
    if id_valid(s) {
        Ok(s)
    } else {
        Err(id_error_message(kind, s))
    }
}

/// Reading a number field named `name`, no larger than `max`.
pub open spec fn read_number(name: Seq<char>, s: Seq<char>, max: nat) -> Reading<nat> {
    match parse_uint(s, max) {
        Ok(n) => Ok(n),
        Err(e) => Err("invalid "@ + name + ": "@ + int_failure_text(e)),
    }
}

/// Reading an instant written as whole seconds.
pub open spec fn read_time(s: Seq<char>) -> Reading<i128> {
    match read_number("timestamp"@, s, u64::MAX as nat) {
        Ok(n) => Ok((n * NANOS_PER_SECOND) as i128),
        Err(m) => Err(m),
    }
}

/// Reading a workspace state.
pub open spec fn read_state(s: Seq<char>) -> Reading<WorkspaceState> {
    if s == "ready"@ {
        Ok(WorkspaceState::Ready)
    } else if s == "deleted"@ {
        Ok(WorkspaceState::Deleted)
    } else {
        Err("unknown workspace state "@ + s)
    }
}

/// The state field is the text `ready` for a ready workspace and `deleted`
/// for a soft-deleted one, both ways: exactly these two texts are read, each
/// as its state, and each state is written as its text.
pub proof fn lemma_state_field(s: Seq<char>)
    ensures
        state_text(WorkspaceState::Ready) == seq!['r', 'e', 'a', 'd', 'y'],
        state_text(WorkspaceState::Deleted) == seq!['d', 'e', 'l', 'e', 't', 'e', 'd'],
        s == seq!['r', 'e', 'a', 'd', 'y'] ==> read_state(s) == Ok::<WorkspaceState, Seq<char>>(
            WorkspaceState::Ready,
        ),
        s == seq!['d', 'e', 'l', 'e', 't', 'e', 'd'] ==> read_state(s) == Ok::<WorkspaceState, Seq<char>>(
            WorkspaceState::Deleted,
        ),
        read_state(s) is Ok ==> s == seq!['r', 'e', 'a', 'd', 'y'] || s == seq!['d', 'e', 'l', 'e', 't', 'e', 'd'],
{
    reveal_strlit("ready");
    reveal_strlit("deleted");
    assert("ready"@ =~= seq!['r', 'e', 'a', 'd', 'y']);
    assert("deleted"@ =~= seq!['d', 'e', 'l', 'e', 't', 'e', 'd']);
}

/// Reading the parent snapshot field: "-" for none.
pub open spec fn read_parent(s: Seq<char>) -> Reading<Option<Seq<char>>> {
    if s == "-"@ {
        Ok(None)
    } else {
        match read_id("SnapshotId"@, s) {
            Ok(id) => Ok(Some(id)),
            Err(m) => Err(m),
        }
    }
}

/// The pieces of `s` that are not empty, in order.
pub open spec fn non_empty(s: Seq<Seq<char>>) -> Seq<Seq<char>>
    decreases s.len(),
{
    if s.len() == 0 {
        Seq::empty()
    } else {
        non_empty(s.drop_last()) + if s.last().len() > 0 {
            seq![s.last()]
        } else {
            Seq::empty()
        }
    }
}

/// Reading the fields of a policy line.
pub open spec fn read_policy(f: Seq<Seq<char>>) -> Reading<PolicyRecord> {
    if f.len() < 3 {
        Err("policy record has too few fields"@)
    } else {
        match read_id("PolicyId"@, f[1]) {
            Err(m) => Err(m),
            Ok(id) => if f[2] == "deny"@ {
                Ok(PolicyRecord::Deny { id })
            } else if f[2] == "allow"@ {
                Ok(
                    PolicyRecord::Allow {
                        id,
                        cidrs: non_empty(
                            split_on(
                                if f.len() > 3 {
                                    f[3]
                                } else {
                                    Seq::empty()
                                },
                                ',',
                            ),
                        ),
                    },
                )
            } else {
                Err("unknown network policy kind "@ + f[2])
            },
        }
    }
}

/// Reading the fields of a workspace line; the first bad field, in the
/// order parent, identifier, agent, limits, policy, state, times, names the
/// failure.
pub open spec fn read_workspace(f: Seq<Seq<char>>) -> Reading<WorkspaceRecord> {
    if f.len() < 13 {
        Err("workspace record has too few fields"@)
    } else {
        match read_parent(f[4]) {
            Err(m) => Err(m),
            Ok(parent) => match read_id("WorkspaceId"@, f[1]) {
                Err(m) => Err(m),
                Ok(id) => match read_id("AgentId"@, f[2]) {
                    Err(m) => Err(m),
                    Ok(agent) => match read_number("cpu_weight"@, f[5], u16::MAX as nat) {
                        Err(m) => Err(m),
                        Ok(cpu) => match read_number("memory_max_bytes"@, f[6], u64::MAX as nat) {
                            Err(m) => Err(m),
                            Ok(mem) => match read_number("pids_max"@, f[7], u32::MAX as nat) {
                                Err(m) => Err(m),
                                Ok(pids) => match read_number("disk_max_bytes"@, f[8], u64::MAX as nat) {
                                    Err(m) => Err(m),
                                    Ok(disk) => match read_id("PolicyId"@, f[9]) {
                                        Err(m) => Err(m),
                                        Ok(policy) => match read_state(f[10]) {
                                            Err(m) => Err(m),
                                            Ok(state) => match read_time(f[11]) {
                                                Err(m) => Err(m),
                                                Ok(created) => match read_time(f[12]) {
                                                    Err(m) => Err(m),
                                                    Ok(last) => Ok(
                                                        WorkspaceRecord {
                                                            id,
                                                            agent_id: agent,
                                                            root_path: f[3],
                                                            parent_snapshot: parent,
                                                            limits: ResourceLimits {
                                                                cpu_weight: cpu as u16,
                                                                memory_max_bytes: mem as u64,
                                                                pids_max: pids as u32,
                                                                disk_max_bytes: disk as u64,
                                                            },
                                                            network_policy: policy,
                                                            state,
                                                            created_at: created,
                                                            last_accessed_at: last,
                                                        },
                                                    ),
                                                },
                                            },
                                        },
                                    },
                                },
                            },
                        },
                    },
                },
            },
        }
    }
}

/// Reading the fields of a snapshot line.
pub open spec fn read_snapshot(f: Seq<Seq<char>>) -> Reading<SnapshotRecord> {
    if f.len() < 5 {
        Err("snapshot record has too few fields"@)
    } else {
        match read_id("SnapshotId"@, f[1]) {
            Err(m) => Err(m),
            Ok(id) => match read_id("WorkspaceId"@, f[2]) {
                Err(m) => Err(m),
                Ok(ws) => match read_time(f[4]) {
                    Err(m) => Err(m),
                    Ok(created) => Ok(
                        SnapshotRecord { id, workspace_id: ws, root_path: f[3], created_at: created },
                    ),
                },
            },
        }
    }
}

/// Reading one line after the header: blank lines are skipped; otherwise
/// the first tab-separated field names the kind of record.
pub open spec fn read_line(line: Seq<char>) -> Reading<LineRecord> {
    if all_space(line) {
        Ok(LineRecord::Blank)
    } else {
        let f = split_on(line, '\t');
        if f[0] == "policy"@ {
            match read_policy(f) {
                Ok(p) => Ok(LineRecord::Policy(p)),
                Err(m) => Err(m),
            }
        } else if f[0] == "workspace"@ {
            match read_workspace(f) {
                Ok(w) => Ok(LineRecord::Workspace(w)),
                Err(m) => Err(m),
            }
        } else if f[0] == "snapshot"@ {
            match read_snapshot(f) {
                Ok(s) => Ok(LineRecord::Snapshot(s)),
                Err(m) => Err(m),
            }
        } else {
            Err("unknown metadata record "@ + f[0])
        }
    }
}

/// The records read so far, by identifier; a later record replaces an
/// earlier one with the same identifier.
pub struct DecodedMaps {
    pub workspaces: Map<Seq<char>, WorkspaceRecord>,
    pub snapshots: Map<Seq<char>, SnapshotRecord>,
    pub policies: Map<Seq<char>, PolicyRecord>,
}

/// The identifier of a policy record.
pub open spec fn policy_record_id(p: PolicyRecord) -> Seq<char> {
    match p {
        PolicyRecord::Deny { id } => id,
        PolicyRecord::Allow { id, .. } => id,
    }
}

/// Adds a record to those read.
pub open spec fn add_record(d: DecodedMaps, rec: LineRecord) -> DecodedMaps {
    match rec {
        LineRecord::Blank => d,
        LineRecord::Policy(p) => DecodedMaps { policies: d.policies.insert(policy_record_id(p), p), ..d },
        LineRecord::Workspace(w) => DecodedMaps { workspaces: d.workspaces.insert(w.id, w), ..d },
        LineRecord::Snapshot(s) => DecodedMaps { snapshots: d.snapshots.insert(s.id, s), ..d },
    }
}

/// Reading the lines after the header, on top of the records `d`.
pub open spec fn read_body(lines: Seq<Seq<char>>, d: DecodedMaps) -> Reading<DecodedMaps>
    decreases lines.len(),
{
    if lines.len() == 0 {
        Ok(d)
    } else {
        match read_line(lines[0]) {
            Err(m) => Err(m),
            Ok(rec) => read_body(lines.drop_first(), add_record(d, rec)),
        }
    }
}

/// No records.
pub open spec fn no_records() -> DecodedMaps {
    DecodedMaps { workspaces: Map::empty(), snapshots: Map::empty(), policies: Map::empty() }
}

/// Reading a whole file: the first line must be the header.
pub open spec fn decoded(content: Seq<char>) -> Reading<DecodedMaps> {
    let ls = text_lines(content);
    if ls.len() == 0 || ls[0] != header() {
        Err("metadata header is missing or unsupported"@)
    } else {
        read_body(ls.drop_first(), no_records())
    }
}

/// The records of maps of workspaces, snapshots and policies.
pub open spec fn record_maps(
    ws: Map<Seq<char>, Workspace>,
    ss: Map<Seq<char>, WorkspaceSnapshot>,
    ps: Map<Seq<char>, NetworkPolicy>,
) -> DecodedMaps {
    DecodedMaps {
        workspaces: ws.map_values(|w: Workspace| workspace_record(w)),
        snapshots: ss.map_values(|s: WorkspaceSnapshot| snapshot_record(s)),
        policies: ps.map_values(|p: NetworkPolicy| policy_record(p)),
    }
}

/// The records of metadata `m`, by identifier.
pub open spec fn records_of(m: MetadataView) -> DecodedMaps {
    record_maps(m.workspace_map(), m.snapshot_map(), m.policy_map())
}

/// The text of each field of a list.
pub open spec fn field_texts(v: Seq<Vec<char>>) -> Seq<Seq<char>> {
    v.map_values(|l: Vec<char>| l@)
}

/// The failure message as an error.
fn invalid(message: String) -> (r: FlarenvError)
    ensures
        r == FlarenvError::InvalidInput(message),
{
    FlarenvError::InvalidInput(message)
}

/// Whether a field is exactly `word`.
fn field_is(field: &Vec<char>, word: &str) -> (r: bool)
    ensures
        r == (field@ == word@),
{
    let w = chars_of(word);
    chars_eq(field.as_slice(), w.as_slice())
}

/// Reads a number field named `name`, no larger than `max`.
fn decode_number(field: &Vec<char>, name: &str, max: u64) -> (r: Result<u64>)
    ensures
        match read_number(name@, field@, max as nat) {
            Ok(n) => n <= max && r == Ok::<u64, FlarenvError>(n as u64),
            Err(m) => fails_invalid_input(r, m),
        },
{
    proof {
        lemma_parse_uint_bound(field@, max as nat);
    }
    match parse_unsigned(field.as_slice(), max) {
        Ok(n) => Ok(n),
        Err(e) => {
            let mut m = string_from("invalid ");
            append_str(&mut m, name);
            append_str(&mut m, ": ");
            append_str(&mut m, int_failure_message(e));
            Err(invalid(m))
        },
    }
}

/// Reads an instant written as whole seconds.
fn decode_time(field: &Vec<char>) -> (r: Result<i128>)
    ensures
        match read_time(field@) {
            Ok(t) => r == Ok::<i128, FlarenvError>(t),
            Err(m) => fails_invalid_input(r, m),
        },
{
    let secs = decode_number(field, "timestamp", u64::MAX)?;
    assert((secs as i128) * NANOS_PER_SECOND <= i128::MAX) by (nonlinear_arith)
        requires
            secs <= u64::MAX,
            NANOS_PER_SECOND == 1_000_000_000i128,
    ;
    Ok((secs as i128) * NANOS_PER_SECOND)
}

/// Reads a workspace state.
fn decode_state(field: &Vec<char>) -> (r: Result<WorkspaceState>)
    ensures
        match read_state(field@) {
            Ok(st) => r == Ok::<WorkspaceState, FlarenvError>(st),
            Err(m) => fails_invalid_input(r, m),
        },
{
    if field_is(field, "ready") {
        Ok(WorkspaceState::Ready)
    } else if field_is(field, "deleted") {
        Ok(WorkspaceState::Deleted)
    } else {
        let mut m = string_from("unknown workspace state ");
        let text = string_of(field.as_slice());
        append_str(&mut m, text.as_str());
        Err(invalid(m))
    }
}

/// Reads the parent snapshot field.
fn decode_parent(field: &Vec<char>) -> (r: Result<Option<SnapshotId>>)
    ensures
        match read_parent(field@) {
            Ok(p) => r is Ok && match (p, r->Ok_0) {
                (Some(a), Some(b)) => b@ == a,
                (None, None) => true,
                _ => false,
            },
            Err(m) => fails_invalid_input(r, m),
        },
{
    if field_is(field, "-") {
        return Ok(None);
    }
    let text = string_of(field.as_slice());
    let id = SnapshotId::new(text.as_str())?;
    Ok(Some(id))
}

/// The non-empty pieces, as strings.
fn non_empty_strings(pieces: &Vec<Vec<char>>) -> (r: Vec<String>)
    ensures
        words(r@) == non_empty(field_texts(pieces@)),
{
    let mut out: Vec<String> = Vec::new();
    let mut i: usize = 0;
    while i < pieces.len()
        invariant
            i <= pieces@.len(),
            words(out@) == non_empty(field_texts(pieces@.take(i as int))),
        decreases pieces.len() - i,
    {
        let ghost before = field_texts(pieces@.take(i as int));
        assert(field_texts(pieces@.take(i + 1)) =~= before.push(pieces@[i as int]@));
        assert(field_texts(pieces@.take(i + 1)).drop_last() =~= before);
        if pieces[i].len() > 0 {
            push_owned(&mut out, string_of(pieces[i].as_slice()));
        } else {
            assert(non_empty(before) + Seq::<Seq<char>>::empty() =~= non_empty(before));
        }
        i += 1;
    }
    assert(pieces@.take(pieces@.len() as int) =~= pieces@);
    out
}

/// Reads the fields of a policy line.
pub fn decode_policy(fields: &Vec<Vec<char>>) -> (r: Result<NetworkPolicy>)
    ensures
        match read_policy(field_texts(fields@)) {
            Ok(rec) => r is Ok && policy_record(r->Ok_0) == rec,
            Err(m) => fails_invalid_input(r, m),
        },
{
    let ghost f = field_texts(fields@);
    if fields.len() < 3 {
        return Err(invalid(string_from("policy record has too few fields")));
    }
    assert(f[1] == fields@[1]@ && f[2] == fields@[2]@);
    let id_text = string_of(fields[1].as_slice());
    let id = PolicyId::new(id_text.as_str())?;
    if field_is(&fields[2], "deny") {
        Ok(NetworkPolicy::DenyAll { id })
    } else if field_is(&fields[2], "allow") {
        let empty: Vec<char> = Vec::new();
        let list = if fields.len() > 3 {
            assert(f[3] == fields@[3]@);
            split_char(fields[3].as_slice(), ',')
        } else {
            split_char(empty.as_slice(), ',')
        };
        let cidrs = non_empty_strings(&list);
        Ok(NetworkPolicy::AllowEgress { id, cidrs })
    } else {
        let mut m = string_from("unknown network policy kind ");
        let kind = string_of(fields[2].as_slice());
        append_str(&mut m, kind.as_str());
        Err(invalid(m))
    }
}

/// Reads the fields of a workspace line.
pub fn decode_workspace(fields: &Vec<Vec<char>>) -> (r: Result<Workspace>)
    ensures
        match read_workspace(field_texts(fields@)) {
            Ok(rec) => r is Ok && workspace_record(r->Ok_0) == rec,
            Err(m) => fails_invalid_input(r, m),
        },
{
    let ghost f = field_texts(fields@);
    if fields.len() < 13 {
        return Err(invalid(string_from("workspace record has too few fields")));
    }
    assert(forall|i: int| 0 <= i < 13 ==> #[trigger] f[i] == fields@[i]@);
    let parent_snapshot = decode_parent(&fields[4])?;
    let id_text = string_of(fields[1].as_slice());
    let id = WorkspaceId::new(id_text.as_str())?;
    let agent_text = string_of(fields[2].as_slice());
    let agent_id = AgentId::new(agent_text.as_str())?;
    let root_path = string_of(fields[3].as_slice());
    let cpu_weight = decode_number(&fields[5], "cpu_weight", 65535)?;
    let memory_max_bytes = decode_number(&fields[6], "memory_max_bytes", u64::MAX)?;
    let pids_max = decode_number(&fields[7], "pids_max", 4294967295)?;
    let disk_max_bytes = decode_number(&fields[8], "disk_max_bytes", u64::MAX)?;
    let policy_text = string_of(fields[9].as_slice());
    let network_policy = PolicyId::new(policy_text.as_str())?;
    let state = decode_state(&fields[10])?;
    let created_at = decode_time(&fields[11])?;
    let last_accessed_at = decode_time(&fields[12])?;
    Ok(
        Workspace {
            id,
            agent_id,
            root_path,
            parent_snapshot,
            limits: ResourceLimits {
                cpu_weight: cpu_weight as u16,
                memory_max_bytes,
                pids_max: pids_max as u32,
                disk_max_bytes,
            },
            network_policy,
            state,
            created_at,
            last_accessed_at,
        },
    )
}

/// Reads the fields of a snapshot line.
pub fn decode_snapshot(fields: &Vec<Vec<char>>) -> (r: Result<WorkspaceSnapshot>)
    ensures
        match read_snapshot(field_texts(fields@)) {
            Ok(rec) => r is Ok && snapshot_record(r->Ok_0) == rec,
            Err(m) => fails_invalid_input(r, m),
        },
{
    let ghost f = field_texts(fields@);
    if fields.len() < 5 {
        return Err(invalid(string_from("snapshot record has too few fields")));
    }
    assert(forall|i: int| 0 <= i < 5 ==> #[trigger] f[i] == fields@[i]@);
    let id_text = string_of(fields[1].as_slice());
    let id = SnapshotId::new(id_text.as_str())?;
    let ws_text = string_of(fields[2].as_slice());
    let workspace_id = WorkspaceId::new(ws_text.as_str())?;
    let root_path = string_of(fields[3].as_slice());
    let created_at = decode_time(&fields[4])?;
    Ok(WorkspaceSnapshot { id, workspace_id, root_path, created_at })
}



/// Inserting one more record and then taking the records of a map is taking
/// the records first and then inserting the record of the new one.
proof fn lemma_inserts_push<T: Keyed, R>(s: Seq<T>, x: T, f: spec_fn(T) -> R)
    ensures
        map_of_inserts(s.push(x)).map_values(f) == map_of_inserts(s).map_values(f).insert(
            x.key(),
            f(x),
        ),
{
    assert(s.push(x).drop_last() =~= s);
    assert(s.push(x).last() == x);
    assert(map_of_inserts(s.push(x)).map_values(f) =~= map_of_inserts(s).map_values(f).insert(
        x.key(),
        f(x),
    ));
}

/// Reads metadata from the content of a metadata file (see `decoded`): the
/// records by identifier, or the first failure.
pub fn decode_metadata(content: &str) -> (r: Result<InMemoryMetadata>)
    ensures
        match decoded(content@) {
            Ok(d) => r is Ok && records_of(r->Ok_0@) == d,
            Err(m) => fails_invalid_input(r, m),
        },
{
    let chars = chars_of(content);
    let lines = split_lines(chars.as_slice());
    let ghost ls = text_lines(content@);
    if lines.len() == 0 || !field_is(&lines[0], "flarenv-metadata-v1") {
        proof {
            if lines.len() > 0 {
                assert(field_texts(lines@)[0] == lines@[0]@);
            }
        }
        return Err(invalid(string_from("metadata header is missing or unsupported")));
    }
    assert(ls[0] == lines@[0]@);
    assert(ls.drop_first() =~= ls.skip(1));
    let mut workspaces: Vec<Workspace> = Vec::new();
    let mut snapshots: Vec<WorkspaceSnapshot> = Vec::new();
    let mut policies: Vec<NetworkPolicy> = Vec::new();
    assert(map_of_inserts(workspaces@).map_values(|w: Workspace| workspace_record(w)) =~= Map::<
        Seq<char>,
        WorkspaceRecord,
    >::empty());
    assert(map_of_inserts(snapshots@).map_values(|s: WorkspaceSnapshot| snapshot_record(s)) =~= Map::<
        Seq<char>,
        SnapshotRecord,
    >::empty());
    assert(map_of_inserts(policies@).map_values(|p: NetworkPolicy| policy_record(p)) =~= Map::<
        Seq<char>,
        PolicyRecord,
    >::empty());
    assert(record_maps(
        map_of_inserts(workspaces@),
        map_of_inserts(snapshots@),
        map_of_inserts(policies@),
    ) == no_records());
    let mut i: usize = 1;
    while i < lines.len()
        invariant
            1 <= i <= lines@.len(),
            field_texts(lines@) == ls,
            decoded(content@) == read_body(
                ls.skip(i as int),
                record_maps(
                    map_of_inserts(workspaces@),
                    map_of_inserts(snapshots@),
                    map_of_inserts(policies@),
                ),
            ),
        decreases lines.len() - i,
    {
        let ghost d = record_maps(
            map_of_inserts(workspaces@),
            map_of_inserts(snapshots@),
            map_of_inserts(policies@),
        );
        let ghost rest = ls.skip(i as int);
        assert(rest[0] == lines@[i as int]@);
        assert(rest.drop_first() =~= ls.skip(i + 1));
        let line = &lines[i];
        if !is_blank(line.as_slice()) {
            let fields = split_char(line.as_slice(), '\t');
            proof {
                lemma_split_on_len(line@, '\t');
            }
            assert(field_texts(fields@)[0] == fields@[0]@);
            if field_is(&fields[0], "policy") {
                let p = decode_policy(&fields)?;
                proof {
                    lemma_inserts_push(policies@, p, |q: NetworkPolicy| policy_record(q));
                }
                policies.push(p);
                assert(record_maps(
                    map_of_inserts(workspaces@),
                    map_of_inserts(snapshots@),
                    map_of_inserts(policies@),
                ) == add_record(d, LineRecord::Policy(policy_record(p))));
            } else if field_is(&fields[0], "workspace") {
                let w = decode_workspace(&fields)?;
                proof {
                    lemma_inserts_push(workspaces@, w, |v: Workspace| workspace_record(v));
                }
                workspaces.push(w);
                assert(record_maps(
                    map_of_inserts(workspaces@),
                    map_of_inserts(snapshots@),
                    map_of_inserts(policies@),
                ) == add_record(d, LineRecord::Workspace(workspace_record(w))));
            } else if field_is(&fields[0], "snapshot") {
                let s = decode_snapshot(&fields)?;
                proof {
                    lemma_inserts_push(snapshots@, s, |v: WorkspaceSnapshot| snapshot_record(v));
                }
                snapshots.push(s);
                assert(record_maps(
                    map_of_inserts(workspaces@),
                    map_of_inserts(snapshots@),
                    map_of_inserts(policies@),
                ) == add_record(d, LineRecord::Snapshot(snapshot_record(s))));
            } else {
                let mut m = string_from("unknown metadata record ");
                let kind = string_of(fields[0].as_slice());
                append_str(&mut m, kind.as_str());
                return Err(invalid(m));
            }
        }
        i += 1;
    }
    assert(ls.skip(lines@.len() as int).len() == 0);
    Ok(InMemoryMetadata::from_parts(workspaces, snapshots, policies))
}


// ---------------------------------------------------------------------------
// Reading back what was written
// ---------------------------------------------------------------------------

/// An instant cut down to whole seconds, as the file keeps it.
pub open spec fn whole_seconds(t: i128) -> i128 {
    (epoch_seconds(t) * NANOS_PER_SECOND) as i128
}

/// The record of a workspace as the file keeps it: its times in whole
/// seconds.
pub open spec fn stored_workspace(w: Workspace) -> WorkspaceRecord {
    WorkspaceRecord {
        created_at: whole_seconds(w.created_at),
        last_accessed_at: whole_seconds(w.last_accessed_at),
        ..workspace_record(w)
    }
}

/// The record of a snapshot as the file keeps it.
pub open spec fn stored_snapshot(s: WorkspaceSnapshot) -> SnapshotRecord {
    SnapshotRecord { created_at: whole_seconds(s.created_at), ..snapshot_record(s) }
}

/// The records of metadata `m` as the file keeps them, by identifier.
pub open spec fn stored_records(m: MetadataView) -> DecodedMaps {
    DecodedMaps {
        workspaces: m.workspace_map().map_values(|w: Workspace| stored_workspace(w)),
        snapshots: m.snapshot_map().map_values(|s: WorkspaceSnapshot| stored_snapshot(s)),
        policies: m.policy_map().map_values(|p: NetworkPolicy| policy_record(p)),
    }
}

/// Free text that a field can hold: no tab and no line feed.
pub open spec fn plain_field(s: Seq<char>) -> bool {
    lacks(s, '\t') && lacks(s, '\n')
}

/// A policy that reads back as itself: a valid identifier, and address
/// ranges that are not empty, hold no comma, tab or line feed, the last
/// not ending in a carriage return.
pub open spec fn storable_policy(p: NetworkPolicy) -> bool {
    &&& id_valid(policy_id(p)@)
    &&& match p {
        NetworkPolicy::DenyAll { .. } => true,
        NetworkPolicy::AllowEgress { cidrs, .. } => {
            let c = words(cidrs@);
            &&& forall|i: int|
                0 <= i < c.len() ==> (#[trigger] c[i]).len() > 0 && plain_field(c[i]) && lacks(
                    c[i],
                    ',',
                )
            &&& c.len() > 0 ==> c.last().last() != '\r'
        },
    }
}

/// A workspace that reads back: valid identifiers, a parent snapshot not
/// named "-", a root path that is a plain field, and times that fit.
pub open spec fn storable_workspace(w: Workspace) -> bool {
    &&& id_valid(w.id@)
    &&& id_valid(w.agent_id@)
    &&& id_valid(w.network_policy@)
    &&& match w.parent_snapshot {
        Some(p) => id_valid(p@) && p@ != "-"@,
        None => true,
    }
    &&& plain_field(w.root_path@)
    &&& storable_time(w.created_at)
    &&& storable_time(w.last_accessed_at)
}

/// A snapshot that reads back.
pub open spec fn storable_snapshot(s: WorkspaceSnapshot) -> bool {
    &&& id_valid(s.id@)
    &&& id_valid(s.workspace_id@)
    &&& plain_field(s.root_path@)
    &&& storable_time(s.created_at)
}

/// Metadata that reads back: lists in identifier order, each record
/// storable.
pub open spec fn storable(m: MetadataView) -> bool {
    &&& m.well_ordered()
    &&& forall|i: int| 0 <= i < m.workspaces.len() ==> storable_workspace(#[trigger] m.workspaces[i])
    &&& forall|i: int| 0 <= i < m.snapshots.len() ==> storable_snapshot(#[trigger] m.snapshots[i])
    &&& forall|i: int| 0 <= i < m.policies.len() ==> storable_policy(#[trigger] m.policies[i])
}

/// A line that reads back as itself: no line feed, and no carriage return
/// at its end.
pub open spec fn whole_line(l: Seq<char>) -> bool {
    lacks(l, '\n') && !(l.len() > 0 && l.last() == '\r')
}

proof fn lemma_text_of_lines_front(ls: Seq<Seq<char>>)
    requires
        ls.len() > 0,
    ensures
        text_of_lines(ls) == ls[0] + "\n"@ + text_of_lines(ls.drop_first()),
    decreases ls.len(),
{
    if ls.len() == 1 {
        assert(ls.drop_last().len() == 0);
        assert(ls.drop_first().len() == 0);
        assert(text_of_lines(ls.drop_last()) == Seq::<char>::empty());
        assert(text_of_lines(ls.drop_first()) == Seq::<char>::empty());
        assert(ls.last() == ls[0]);
        assert(Seq::<char>::empty() + ls[0] + "\n"@ =~= ls[0] + "\n"@ + Seq::<char>::empty());
    } else {
        let r = ls.drop_first();
        lemma_text_of_lines_front(ls.drop_last());
        assert(ls.drop_last().drop_first() =~= r.drop_last());
        assert(ls.drop_last()[0] == ls[0]);
        assert(r.last() == ls.last());
        assert(text_of_lines(r) == text_of_lines(r.drop_last()) + r.last() + "\n"@);
        assert(ls[0] + "\n"@ + text_of_lines(r.drop_last()) + ls.last() + "\n"@ =~= ls[0] + "\n"@ + (
        text_of_lines(r.drop_last()) + r.last() + "\n"@));
    }
}

/// Lines written one after the other read back as the same lines.
proof fn lemma_lines_of_text(ls: Seq<Seq<char>>)
    requires
        forall|i: int| 0 <= i < ls.len() ==> whole_line(#[trigger] ls[i]),
    ensures
        text_lines(text_of_lines(ls)) == ls,
    decreases ls.len(),
{
    reveal_strlit("\n");
    if ls.len() == 0 {
        assert(ls =~= Seq::<Seq<char>>::empty());
    } else {
        let r = ls.drop_first();
        assert forall|i: int| 0 <= i < r.len() implies whole_line(#[trigger] r[i]) by {
            assert(r[i] == ls[i + 1]);
        }
        lemma_lines_of_text(r);
        lemma_text_of_lines_front(ls);
        assert("\n"@ =~= seq!['\n']);
        assert(whole_line(ls[0]));
        lemma_lines_cut(ls[0], text_of_lines(r), Seq::empty());
        assert(Seq::<char>::empty() + ls[0] =~= ls[0]);
        assert(strip_cr(ls[0]) == ls[0]);
        assert(ls =~= seq![ls[0]] + r);
    }
}

/// Words joined by a separator that none of them holds split back into
/// the same words.
proof fn lemma_split_join(v: Seq<Seq<char>>, sep: char)
    requires
        v.len() >= 1,
        forall|i: int| 0 <= i < v.len() ==> lacks(#[trigger] v[i], sep),
    ensures
        split_on(join_words(v, seq![sep]), sep) == v,
    decreases v.len(),
{
    assert(lacks(v[0], sep));
    assert(Seq::<char>::empty() + v[0] =~= v[0]);
    if v.len() == 1 {
        lemma_pieces_plain(v[0], sep, Seq::empty());
        assert(v =~= seq![v[0]]);
    } else {
        let r = v.drop_first();
        assert forall|i: int| 0 <= i < r.len() implies lacks(#[trigger] r[i], sep) by {
            assert(r[i] == v[i + 1]);
        }
        lemma_join_front(v, seq![sep]);
        lemma_split_join(r, sep);
        lemma_pieces_cut(v[0], sep, join_words(r, seq![sep]), Seq::empty());
        assert(v =~= seq![v[0]] + r);
    }
}

/// Keeping the non-empty pieces of non-empty pieces keeps them all.
proof fn lemma_non_empty_all(v: Seq<Seq<char>>)
    requires
        forall|i: int| 0 <= i < v.len() ==> (#[trigger] v[i]).len() > 0,
    ensures
        non_empty(v) == v,
    decreases v.len(),
{
    if v.len() > 0 {
        let r = v.drop_last();
        assert forall|i: int| 0 <= i < r.len() implies (#[trigger] r[i]).len() > 0 by {
            assert(r[i] == v[i]);
        }
        lemma_non_empty_all(r);
        assert(v.last() == v[v.len() - 1]);
        assert(r + seq![v.last()] =~= v);
    }
}

/// An identifier is a plain field that ends in none of the separators.
proof fn lemma_id_plain(s: Seq<char>)
    requires
        id_valid(s),
    ensures
        plain_field(s),
        lacks(s, ','),
        s.len() > 0,
        s.last() != '\r',
{
    assert(id_char(s[s.len() - 1]));
}

/// A number written in decimal is a plain field whose last character is
/// a digit.
proof fn lemma_decimal_plain(n: nat)
    ensures
        plain_field(decimal(n)),
        decimal(n).len() > 0,
        is_digit(decimal(n).last()),
{
    lemma_decimal_is_digits(n);
    assert(is_digit(decimal(n)[decimal(n).len() - 1]));
}

/// A number written in decimal reads back.
proof fn lemma_read_number_decimal(name: Seq<char>, n: nat, max: nat)
    requires
        n <= max,
    ensures
        read_number(name, decimal(n), max) == Ok::<nat, Seq<char>>(n),
{
    lemma_parse_decimal(n, max);
}

/// An instant written in whole seconds reads back as its whole seconds.
proof fn lemma_read_time_secs(t: i128)
    requires
        storable_time(t),
    ensures
        read_time(secs_text(t)) == Ok::<i128, Seq<char>>(whole_seconds(t)),
{
    lemma_read_number_decimal("timestamp"@, epoch_seconds(t), u64::MAX as nat);
}


/// The tab and the comma as text.
proof fn lemma_separators()
    ensures
        "\t"@ == seq!['\t'],
        ","@ == seq![','],
{
    reveal_strlit("\t");
    reveal_strlit(",");
    assert("\t"@ =~= seq!['\t']);
    assert(","@ =~= seq![',']);
}

/// The fields of a line lack tabs and line feeds, and the last is not
/// empty and ends in neither a carriage return nor a tab: the line splits
/// back into the fields and is whole.
proof fn lemma_fields_line(f: Seq<Seq<char>>)
    requires
        f.len() >= 2,
        forall|i: int| 0 <= i < f.len() ==> plain_field(#[trigger] f[i]),
        f[0].len() > 0,
        f.last().len() > 0 ==> f.last().last() != '\r',
    ensures
        split_on(record_line(f), '\t') == f,
        whole_line(record_line(f)),
        record_line(f).len() > 0,
        record_line(f)[0] == f[0][0],
{
    lemma_separators();
    assert forall|i: int| 0 <= i < f.len() implies lacks(#[trigger] f[i], '\t') by {
        assert(plain_field(f[i]));
    }
    assert forall|i: int| 0 <= i < f.len() implies lacks(#[trigger] f[i], '\n') by {
        assert(plain_field(f[i]));
    }
    lemma_split_join(f, '\t');
    lemma_join_lacks(f, seq!['\t'], '\n');
    lemma_join_last(f, seq!['\t']);
    lemma_join_front(f, seq!['\t']);
}

/// A policy's line reads back as its record.
proof fn lemma_policy_line(p: NetworkPolicy)
    requires
        storable_policy(p),
    ensures
        whole_line(record_line(policy_fields(policy_record(p)))),
        read_line(record_line(policy_fields(policy_record(p)))) == Ok::<LineRecord, Seq<char>>(
            LineRecord::Policy(policy_record(p)),
        ),
{
    reveal_strlit("policy");
    reveal_strlit("deny");
    reveal_strlit("allow");
    lemma_separators();
    let rec = policy_record(p);
    let f = policy_fields(rec);
    let line = record_line(f);
    lemma_id_plain(policy_id(p)@);
    match p {
        NetworkPolicy::DenyAll { id } => {
            assert(f[1] == id@);
            assert(plain_field("deny"@));
            assert(plain_field("policy"@));
            assert(f.last() == "deny"@);
            lemma_fields_line(f);
        },
        NetworkPolicy::AllowEgress { id, cidrs } => {
            let c = words(cidrs@);
            let joined = join_words(c, ","@);
            assert(f[1] == id@);
            assert(f[3] == joined);
            assert(plain_field(joined)) by {
                if c.len() > 0 {
                    assert forall|i: int| 0 <= i < c.len() implies lacks(#[trigger] c[i], '\t') by {
                        assert(plain_field(c[i]));
                    }
                    assert forall|i: int| 0 <= i < c.len() implies lacks(#[trigger] c[i], '\n') by {
                        assert(plain_field(c[i]));
                    }
                    lemma_join_lacks(c, ","@, '\t');
                    lemma_join_lacks(c, ","@, '\n');
                }
            }
            assert(joined.len() > 0 ==> joined.last() != '\r') by {
                if c.len() == 1 {
                    assert(joined == c[0]);
                } else if c.len() >= 2 {
                    lemma_join_last(c, ","@);
                    assert(c.last() == c[c.len() - 1]);
                }
            }
            assert(plain_field("allow"@));
            assert(plain_field("policy"@));
            assert(f.last() == joined);
            lemma_fields_line(f);
            assert(non_empty(split_on(joined, ',')) == c) by {
                if c.len() == 0 {
                    assert(joined == Seq::<char>::empty());
                    lemma_pieces_plain(Seq::<char>::empty(), ',', Seq::empty());
                    assert(split_on(joined, ',') =~= seq![Seq::<char>::empty()]);
                    let e = seq![Seq::<char>::empty()];
                    assert(e.drop_last() =~= Seq::<Seq<char>>::empty());
                    assert(non_empty(Seq::<Seq<char>>::empty()) == Seq::<Seq<char>>::empty());
                    assert(non_empty(e) == non_empty(e.drop_last()) + Seq::<Seq<char>>::empty());
                    assert(non_empty(e) =~= Seq::<Seq<char>>::empty());
                    assert(c =~= Seq::<Seq<char>>::empty());
                } else {
                    assert forall|i: int| 0 <= i < c.len() implies lacks(#[trigger] c[i], ',') by {
                        assert(c[i].len() > 0 && plain_field(c[i]) && lacks(c[i], ','));
                    }
                    lemma_split_join(c, ',');
                    assert(split_on(joined, ',') == c);
                    assert forall|i: int| 0 <= i < c.len() implies (#[trigger] c[i]).len() > 0 by {
                        assert(c[i].len() > 0 && plain_field(c[i]) && lacks(c[i], ','));
                    }
                    lemma_non_empty_all(c);
                }
            }
        },
    }
    assert(!all_space(line)) by {
        assert(!is_space(line[0]));
    }
}


/// A workspace's line reads back as its record with whole seconds.
#[verifier::rlimit(40)]
proof fn lemma_workspace_line(w: Workspace)
    requires
        storable_workspace(w),
    ensures
        whole_line(record_line(workspace_fields(workspace_record(w)))),
        read_line(record_line(workspace_fields(workspace_record(w)))) == Ok::<LineRecord, Seq<char>>(
            LineRecord::Workspace(stored_workspace(w)),
        ),
{
    reveal_strlit("workspace");
    reveal_strlit("policy");
    reveal_strlit("-");
    reveal_strlit("ready");
    reveal_strlit("deleted");
    let rec = workspace_record(w);
    let f = workspace_fields(rec);
    let line = record_line(f);
    lemma_id_plain(w.id@);
    lemma_id_plain(w.agent_id@);
    lemma_id_plain(w.network_policy@);
    let cpu = w.limits.cpu_weight as nat;
    let mem = w.limits.memory_max_bytes as nat;
    let pids = w.limits.pids_max as nat;
    let disk = w.limits.disk_max_bytes as nat;
    lemma_decimal_plain(cpu);
    lemma_decimal_plain(mem);
    lemma_decimal_plain(pids);
    lemma_decimal_plain(disk);
    lemma_decimal_plain(epoch_seconds(w.created_at));
    lemma_decimal_plain(epoch_seconds(w.last_accessed_at));
    match w.parent_snapshot {
        Some(p) => lemma_id_plain(p@),
        None => {},
    }
    assert(plain_field("workspace"@));
    assert(plain_field("-"@));
    assert(plain_field(state_text(w.state)));
    assert(f.len() == 13);
    assert(f[0] == "workspace"@);
    assert(f[4] == parent_text(rec.parent_snapshot));
    assert(f[5] == decimal(cpu));
    assert(f[6] == decimal(mem));
    assert(f[7] == decimal(pids));
    assert(f[8] == decimal(disk));
    assert(f[11] == secs_text(w.created_at));
    assert(f[12] == secs_text(w.last_accessed_at));
    assert(f.last() == secs_text(w.last_accessed_at));
    lemma_fields_line(f);
    assert(!all_space(line)) by {
        assert(!is_space(line[0]));
    }
    let fs = split_on(line, '\t');
    assert(fs[0] == "workspace"@);
    assert(fs[0] != "policy"@);
    assert(read_parent(f[4]) == Ok::<Option<Seq<char>>, Seq<char>>(rec.parent_snapshot));
    lemma_read_number_decimal("cpu_weight"@, cpu, u16::MAX as nat);
    lemma_read_number_decimal("memory_max_bytes"@, mem, u64::MAX as nat);
    lemma_read_number_decimal("pids_max"@, pids, u32::MAX as nat);
    lemma_read_number_decimal("disk_max_bytes"@, disk, u64::MAX as nat);
    assert(read_state(state_text(w.state)) == Ok::<WorkspaceState, Seq<char>>(w.state)) by {
        assert("deleted"@.len() != "ready"@.len());
    }
    lemma_read_time_secs(w.created_at);
    lemma_read_time_secs(w.last_accessed_at);
    assert(read_workspace(f) == Ok::<WorkspaceRecord, Seq<char>>(stored_workspace(w)));
}

/// A snapshot's line reads back as its record with whole seconds.
proof fn lemma_snapshot_line(s: WorkspaceSnapshot)
    requires
        storable_snapshot(s),
    ensures
        whole_line(record_line(snapshot_fields(snapshot_record(s)))),
        read_line(record_line(snapshot_fields(snapshot_record(s)))) == Ok::<LineRecord, Seq<char>>(
            LineRecord::Snapshot(stored_snapshot(s)),
        ),
{
    reveal_strlit("snapshot");
    reveal_strlit("policy");
    reveal_strlit("workspace");
    let rec = snapshot_record(s);
    let f = snapshot_fields(rec);
    let line = record_line(f);
    lemma_id_plain(s.id@);
    lemma_id_plain(s.workspace_id@);
    lemma_decimal_plain(epoch_seconds(s.created_at));
    assert(plain_field("snapshot"@));
    assert(f.len() == 5);
    assert(f.last() == secs_text(s.created_at));
    lemma_fields_line(f);
    assert(!all_space(line)) by {
        assert(!is_space(line[0]));
    }
    let fs = split_on(line, '\t');
    assert(fs[0] == "snapshot"@);
    assert(fs[0] != "policy"@);
    assert(fs[0] != "workspace"@);
    lemma_read_time_secs(s.created_at);
    assert(read_snapshot(f) == Ok::<SnapshotRecord, Seq<char>>(stored_snapshot(s)));
}


/// Reading lines one list after another.
proof fn lemma_read_body_append(a: Seq<Seq<char>>, b: Seq<Seq<char>>, d: DecodedMaps)
    ensures
        read_body(a + b, d) == match read_body(a, d) {
            Ok(d2) => read_body(b, d2),
            Err(m) => Err(m),
        },
    decreases a.len(),
{
    if a.len() == 0 {
        assert(a + b =~= b);
    } else {
        assert((a + b)[0] == a[0]);
        assert((a + b).drop_first() =~= a.drop_first() + b);
        match read_line(a[0]) {
            Ok(rec) => lemma_read_body_append(a.drop_first(), b, add_record(d, rec)),
            Err(m) => {},
        }
    }
}

/// Reading the lines of a list of policies adds their records one by one.
proof fn lemma_read_policies(xs: Seq<NetworkPolicy>, d: DecodedMaps)
    requires
        forall|i: int| 0 <= i < xs.len() ==> storable_policy(#[trigger] xs[i]),
        d.policies == Map::<Seq<char>, PolicyRecord>::empty(),
    ensures
        read_body(policy_lines(xs), d) == Ok::<DecodedMaps, Seq<char>>(
            DecodedMaps { policies: map_of_inserts(xs).map_values(|x: NetworkPolicy| policy_record(x)), ..d },
        ),
    decreases xs.len(),
{
    if xs.len() == 0 {
        assert(policy_lines(xs) =~= Seq::<Seq<char>>::empty());
        assert(map_of_inserts(xs).map_values(|x: NetworkPolicy| policy_record(x)) =~= Map::<
            Seq<char>,
            PolicyRecord,
        >::empty());
    } else {
        let r = xs.drop_last();
        let x = xs.last();
        assert forall|i: int| 0 <= i < r.len() implies storable_policy(#[trigger] r[i]) by {
            assert(r[i] == xs[i]);
        }
        lemma_read_policies(r, d);
        assert(x == xs[xs.len() - 1]);
        lemma_policy_line(x);
        let line = record_line(policy_fields(policy_record(x)));
        assert(policy_lines(xs) =~= policy_lines(r) + seq![line]);
        lemma_read_body_append(policy_lines(r), seq![line], d);
        assert(seq![line].drop_first() =~= Seq::<Seq<char>>::empty());
        assert(xs =~= r.push(x));
        lemma_inserts_push(r, x, |x: NetworkPolicy| policy_record(x));
        let d1 = DecodedMaps { policies: map_of_inserts(r).map_values(|x: NetworkPolicy| policy_record(x)), ..d };
        assert(read_body(policy_lines(r), d) == Ok::<DecodedMaps, Seq<char>>(d1));
        let d2 = add_record(d1, LineRecord::Policy(policy_record(x)));
        assert(read_body(seq![line], d1) == read_body(seq![line].drop_first(), d2));
        assert(read_body(seq![line], d1) == Ok::<DecodedMaps, Seq<char>>(d2));
        assert(policy_record_id(policy_record(x)) == x.key());
        assert(d2.policies == map_of_inserts(xs).map_values(|x: NetworkPolicy| policy_record(x)));
    }
}

/// Reading the lines of a list of workspaces adds their records one by one.
proof fn lemma_read_workspaces(xs: Seq<Workspace>, d: DecodedMaps)
    requires
        forall|i: int| 0 <= i < xs.len() ==> storable_workspace(#[trigger] xs[i]),
        d.workspaces == Map::<Seq<char>, WorkspaceRecord>::empty(),
    ensures
        read_body(workspace_lines(xs), d) == Ok::<DecodedMaps, Seq<char>>(
            DecodedMaps { workspaces: map_of_inserts(xs).map_values(|x: Workspace| stored_workspace(x)), ..d },
        ),
    decreases xs.len(),
{
    if xs.len() == 0 {
        assert(workspace_lines(xs) =~= Seq::<Seq<char>>::empty());
        assert(map_of_inserts(xs).map_values(|x: Workspace| stored_workspace(x)) =~= Map::<
            Seq<char>,
            WorkspaceRecord,
        >::empty());
    } else {
        let r = xs.drop_last();
        let x = xs.last();
        assert forall|i: int| 0 <= i < r.len() implies storable_workspace(#[trigger] r[i]) by {
            assert(r[i] == xs[i]);
        }
        lemma_read_workspaces(r, d);
        assert(x == xs[xs.len() - 1]);
        lemma_workspace_line(x);
        let line = record_line(workspace_fields(workspace_record(x)));
        assert(workspace_lines(xs) =~= workspace_lines(r) + seq![line]);
        lemma_read_body_append(workspace_lines(r), seq![line], d);
        assert(seq![line].drop_first() =~= Seq::<Seq<char>>::empty());
        assert(xs =~= r.push(x));
        lemma_inserts_push(r, x, |x: Workspace| stored_workspace(x));
        let d1 = DecodedMaps { workspaces: map_of_inserts(r).map_values(|x: Workspace| stored_workspace(x)), ..d };
        assert(read_body(workspace_lines(r), d) == Ok::<DecodedMaps, Seq<char>>(d1));
        let d2 = add_record(d1, LineRecord::Workspace(stored_workspace(x)));
        assert(read_body(seq![line], d1) == read_body(seq![line].drop_first(), d2));
        assert(read_body(seq![line], d1) == Ok::<DecodedMaps, Seq<char>>(d2));
        assert(d2.workspaces == map_of_inserts(xs).map_values(|x: Workspace| stored_workspace(x)));
    }
}

/// Reading the lines of a list of snapshots adds their records one by one.
proof fn lemma_read_snapshots(xs: Seq<WorkspaceSnapshot>, d: DecodedMaps)
    requires
        forall|i: int| 0 <= i < xs.len() ==> storable_snapshot(#[trigger] xs[i]),
        d.snapshots == Map::<Seq<char>, SnapshotRecord>::empty(),
    ensures
        read_body(snapshot_lines(xs), d) == Ok::<DecodedMaps, Seq<char>>(
            DecodedMaps { snapshots: map_of_inserts(xs).map_values(|x: WorkspaceSnapshot| stored_snapshot(x)), ..d },
        ),
    decreases xs.len(),
{
    if xs.len() == 0 {
        assert(snapshot_lines(xs) =~= Seq::<Seq<char>>::empty());
        assert(map_of_inserts(xs).map_values(|x: WorkspaceSnapshot| stored_snapshot(x)) =~= Map::<
            Seq<char>,
            SnapshotRecord,
        >::empty());
    } else {
        let r = xs.drop_last();
        let x = xs.last();
        assert forall|i: int| 0 <= i < r.len() implies storable_snapshot(#[trigger] r[i]) by {
            assert(r[i] == xs[i]);
        }
        lemma_read_snapshots(r, d);
        assert(x == xs[xs.len() - 1]);
        lemma_snapshot_line(x);
        let line = record_line(snapshot_fields(snapshot_record(x)));
        assert(snapshot_lines(xs) =~= snapshot_lines(r) + seq![line]);
        lemma_read_body_append(snapshot_lines(r), seq![line], d);
        assert(seq![line].drop_first() =~= Seq::<Seq<char>>::empty());
        assert(xs =~= r.push(x));
        lemma_inserts_push(r, x, |x: WorkspaceSnapshot| stored_snapshot(x));
        let d1 = DecodedMaps { snapshots: map_of_inserts(r).map_values(|x: WorkspaceSnapshot| stored_snapshot(x)), ..d };
        assert(read_body(snapshot_lines(r), d) == Ok::<DecodedMaps, Seq<char>>(d1));
        let d2 = add_record(d1, LineRecord::Snapshot(stored_snapshot(x)));
        assert(read_body(seq![line], d1) == read_body(seq![line].drop_first(), d2));
        assert(read_body(seq![line], d1) == Ok::<DecodedMaps, Seq<char>>(d2));
        assert(d2.snapshots == map_of_inserts(xs).map_values(|x: WorkspaceSnapshot| stored_snapshot(x)));
    }
}

/// What is written for metadata reads back as its records, with times cut
/// down to whole seconds.
pub proof fn lemma_metadata_round_trip(m: MetadataView)
    requires
        storable(m),
    ensures
        decoded(encoded(m)) == Ok::<DecodedMaps, Seq<char>>(stored_records(m)),
{
    reveal_strlit("flarenv-metadata-v1");
    let ls = metadata_lines(m);
    let pl = policy_lines(m.policies);
    let wl = workspace_lines(m.workspaces);
    let sl = snapshot_lines(m.snapshots);
    let np = pl.len() as int;
    let nw = wl.len() as int;
    assert forall|i: int| 0 <= i < ls.len() implies whole_line(#[trigger] ls[i]) by {
        if i == 0 {
            assert(ls[0] == header());
            assert(header().last() == '1');
        } else if i < 1 + np {
            assert(ls[i] == pl[i - 1]);
            lemma_policy_line(m.policies[i - 1]);
        } else if i < 1 + np + nw {
            assert(ls[i] == wl[i - 1 - np]);
            lemma_workspace_line(m.workspaces[i - 1 - np]);
        } else {
            assert(ls[i] == sl[i - 1 - np - nw]);
            lemma_snapshot_line(m.snapshots[i - 1 - np - nw]);
        }
    }
    lemma_lines_of_text(ls);
    assert(ls.drop_first() =~= pl + wl + sl);
    lemma_read_body_append(pl + wl, sl, no_records());
    lemma_read_body_append(pl, wl, no_records());
    lemma_read_policies(m.policies, no_records());
    let d1 = DecodedMaps {
        policies: map_of_inserts(m.policies).map_values(|x: NetworkPolicy| policy_record(x)),
        ..no_records()
    };
    lemma_read_workspaces(m.workspaces, d1);
    let d2 = DecodedMaps {
        workspaces: map_of_inserts(m.workspaces).map_values(|x: Workspace| stored_workspace(x)),
        ..d1
    };
    lemma_read_snapshots(m.snapshots, d2);
    lemma_inserts_sorted(m.policies);
    lemma_inserts_sorted(m.workspaces);
    lemma_inserts_sorted(m.snapshots);
}

} // verus!
