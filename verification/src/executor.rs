//! Executors: what runs a session inside a workspace.

use crate::command::{push_all, push_owned, push_word, words, HostCommand};
use crate::error::Result;
use crate::ids::{SessionId, WorkspaceId};
use crate::model::{ResourceLimits, SessionRequest, Workspace};
use crate::network::{NetworkPolicy, NetworkPolicyView};
use crate::nix_profile::FixedNixProfile;
use crate::table::{Keyed, SortedTable};
use crate::text::{append_decimal, append_str, concat, decimal, join_path, path_join, string_from};
use vstd::prelude::*;

verus! {

/// Everything an executor needs to start a session.
#[derive(Clone, Debug, Eq, PartialEq)]
pub struct ExecRequest {
    pub session_id: SessionId,
    pub workspace: Workspace,
    pub session: SessionRequest,
    pub nix_profile: FixedNixProfile,
    pub network_policy: NetworkPolicy,
}

impl Keyed for ExecRequest {
    open spec fn key(&self) -> Seq<char> {
        self.session_id@
    }

    fn key_str(&self) -> (r: &str) {
        self.session_id.as_str()
    }
}

/// How a session ended.
#[derive(Clone, Debug, Eq, PartialEq)]
pub struct SessionExit {
    pub code: i32,
}

/// Runs sessions.
pub trait Executor: Sized {
    /// Opening a session for `request` took the executor from `before` to
    /// `self`, with outcome `r`. An executor that defines no relation
    /// promises nothing of its sessions.
    open spec fn opened(&self, before: Self, request: ExecRequest, r: Result<SessionExit>) -> bool {
        true
    }

    fn open_session(&mut self, request: ExecRequest) -> (r: Result<SessionExit>)
        ensures
            final(self).opened(*old(self), request, r),
    ;
}

/// An executor that only records the sessions it was asked to run, and
/// reports each as having exited with code 0.
#[derive(Debug)]
pub struct RecordingExecutor {
    pub sessions: SortedTable<ExecRequest>,
}

impl Default for RecordingExecutor {
    fn default() -> (r: Self)
        ensures
            r.sessions.map() == Map::<Seq<char>, ExecRequest>::empty(),
    {
        RecordingExecutor { sessions: SortedTable::new() }
    }
}

impl Executor for RecordingExecutor {
    /// The request is recorded under its session identifier and the session
    /// exits with code 0.
    open spec fn opened(&self, before: Self, request: ExecRequest, r: Result<SessionExit>) -> bool {
        &&& self.sessions.map() == before.sessions.map().insert(request.session_id@, request)
        &&& r == Ok::<SessionExit, crate::error::FlarenvError>(SessionExit { code: 0 })
    }

    fn open_session(&mut self, request: ExecRequest) -> (r: Result<SessionExit>)
        ensures
            final(self).sessions.map() == old(self).sessions.map().insert(request.session_id@, request),
            r == Ok::<SessionExit, crate::error::FlarenvError>(SessionExit { code: 0 }),
    {
        self.sessions.insert(request);
        Ok(SessionExit { code: 0 })
    }
}

/// Where the shared profile appears inside every workspace.
pub open spec fn guest_profile() -> Seq<char> {
    "/run/current-system/sw"@
}

/// The cgroup limits passed to `systemd-nspawn`.
pub open spec fn limit_args(l: ResourceLimits) -> Seq<Seq<char>> {
    seq![
        "--property"@,
        "CPUWeight="@ + decimal(l.cpu_weight as nat),
        "--property"@,
        "MemoryMax="@ + decimal(l.memory_max_bytes as nat),
        "--property"@,
        "TasksMax="@ + decimal(l.pids_max as nat),
    ]
}

/// The network arguments: always a private network; egress policies also
/// get a veth link into the zone named after the policy.
pub open spec fn network_args(p: NetworkPolicyView) -> Seq<Seq<char>> {
    match p {
        NetworkPolicyView::DenyAll { .. } => seq!["--private-network"@],
        NetworkPolicyView::AllowEgress { id, .. } => seq![
            "--private-network"@,
            "--network-veth"@,
            "--network-zone"@,
            id@,
        ],
    }
}

/// The words the session runs: its command if it has a non-empty one,
/// otherwise a shell.
pub open spec fn session_words(command: Option<Seq<String>>) -> Seq<Seq<char>> {
    match command {
        Some(argv) => if argv.len() > 0 {
            words(argv)
        } else {
            seq!["/bin/sh"@]
        },
        None => seq!["/bin/sh"@],
    }
}

/// The arguments of `systemd-nspawn` for a request, with machine names
/// starting with `prefix`.
pub open spec fn nspawn_args(prefix: Seq<char>, req: ExecRequest) -> Seq<Seq<char>> {
    let store = req.nix_profile.store_path@;
    let profile = req.nix_profile.profile_path@;
    seq![
        "--quiet"@,
        "--as-pid2"@,
        "--directory"@,
        req.workspace.root_path@,
        "--machine"@,
        prefix + "-"@ + req.workspace.id@ + "-"@ + req.session_id@,
        "--bind-ro"@,
        store + ":"@ + store,
        "--bind-ro"@,
        profile + ":"@ + guest_profile(),
    ] + limit_args(req.workspace.limits) + network_args(req.network_policy@) + (if req.session.tty {
        seq!["--console=interactive"@]
    } else {
        seq!["--pipe"@]
    }) + seq!["--"@] + session_words(req.session@.command)
}

/// The invocation ends with `--` and then what the session runs: for a
/// non-empty command, every word of it in order and nothing else; without
/// one, or with an empty one, a shell (`/bin/sh`) alone.
pub proof fn lemma_session_runs_its_command(prefix: Seq<char>, req: ExecRequest)
    ensures
        ({
            let args = nspawn_args(prefix, req);
            match req.session@.command {
                Some(argv) if argv.len() > 0 => {
                    &&& args.len() > argv.len()
                    &&& args[args.len() - argv.len() - 1] == seq!['-', '-']
                    &&& forall|i: int|
                        0 <= i < argv.len() ==> #[trigger] args[args.len() - argv.len() + i] == argv[i]@
                },
                _ => {
                    &&& args.len() >= 2
                    &&& args[args.len() - 2] == seq!['-', '-']
                    &&& args[args.len() - 1] == seq!['/', 'b', 'i', 'n', '/', 's', 'h']
                },
            }
        }),
{
    reveal_strlit("--");
    reveal_strlit("/bin/sh");
    assert("--"@ =~= seq!['-', '-']);
    assert("/bin/sh"@ =~= seq!['/', 'b', 'i', 'n', '/', 's', 'h']);
    let args = nspawn_args(prefix, req);
    let store = req.nix_profile.store_path@;
    let profile = req.nix_profile.profile_path@;
    let head = seq![
        "--quiet"@,
        "--as-pid2"@,
        "--directory"@,
        req.workspace.root_path@,
        "--machine"@,
        prefix + "-"@ + req.workspace.id@ + "-"@ + req.session_id@,
        "--bind-ro"@,
        store + ":"@ + store,
        "--bind-ro"@,
        profile + ":"@ + guest_profile(),
    ] + limit_args(req.workspace.limits) + network_args(req.network_policy@) + (if req.session.tty {
        seq!["--console=interactive"@]
    } else {
        seq!["--pipe"@]
    });
    let tail = session_words(req.session@.command);
    assert(args == head + seq!["--"@] + tail);
    match req.session@.command {
        Some(argv) => {
            if argv.len() > 0 {
                assert(tail == words(argv));
                assert(tail.len() == argv.len());
                assert(args[args.len() - argv.len() - 1] == "--"@);
                assert forall|i: int| 0 <= i < argv.len() implies #[trigger] args[args.len() - argv.len() + i]
                    == argv[i]@ by {
                    assert(args[args.len() - argv.len() + i] == tail[i]);
                }
            }
        },
        None => {},
    }
}

/// Runs sessions in `systemd-nspawn` containers. The library builds the
/// invocation; the daemon runs it.
#[derive(Clone, Debug)]
pub struct NspawnExecutor {
    machine_prefix: String,
}

impl NspawnExecutor {
    /// The prefix of machine names.
    pub closed spec fn machine_prefix(&self) -> Seq<char> {
        self.machine_prefix@
    }

    /// An executor whose machine names start with `machine_prefix`.
    pub fn new(machine_prefix: &str) -> (r: Self)
        ensures
            r.machine_prefix() == machine_prefix@,
    {
        NspawnExecutor { machine_prefix: string_from(machine_prefix) }
    }

    /// The `systemd-nspawn` invocation for `request`.
    pub fn command_for(&self, request: &ExecRequest) -> (r: HostCommand)
        ensures
            r@.program == "systemd-nspawn"@,
            r@.args == nspawn_args(self.machine_prefix(), *request),
    {
        let mut args: Vec<String> = Vec::new();
        push_word(&mut args, "--quiet");
        push_word(&mut args, "--as-pid2");
        push_word(&mut args, "--directory");
        push_word(&mut args, request.workspace.root_path.as_str());
        push_word(&mut args, "--machine");
        let mut machine = concat(self.machine_prefix.as_str(), "-");
        append_str(&mut machine, request.workspace.id.as_str());
        append_str(&mut machine, "-");
        append_str(&mut machine, request.session_id.as_str());
        push_owned(&mut args, machine);
        push_word(&mut args, "--bind-ro");
        let store = request.nix_profile.store_path.as_str();
        let mut bind_store = concat(store, ":");
        append_str(&mut bind_store, store);
        push_owned(&mut args, bind_store);
        push_word(&mut args, "--bind-ro");
        let bind_profile = concat(request.nix_profile.profile_path.as_str(), ":/run/current-system/sw");
        proof {
            reveal_strlit(":/run/current-system/sw");
            reveal_strlit(":");
            reveal_strlit("/run/current-system/sw");
            assert(":/run/current-system/sw"@ =~= ":"@ + "/run/current-system/sw"@);
            assert(bind_profile@ =~= request.nix_profile.profile_path@ + ":"@ + guest_profile());
        }
        push_owned(&mut args, bind_profile);
        let ghost store_v = request.nix_profile.store_path@;
        let ghost head = seq![
            "--quiet"@,
            "--as-pid2"@,
            "--directory"@,
            request.workspace.root_path@,
            "--machine"@,
            self.machine_prefix() + "-"@ + request.workspace.id@ + "-"@ + request.session_id@,
            "--bind-ro"@,
            store_v + ":"@ + store_v,
            "--bind-ro"@,
            request.nix_profile.profile_path@ + ":"@ + guest_profile(),
        ];
        assert(words(args@) =~= head);
        add_limit_args(&mut args, &request.workspace.limits);
        add_network_args(&mut args, &request.network_policy);
        if request.session.tty {
            push_word(&mut args, "--console=interactive");
        } else {
            push_word(&mut args, "--pipe");
        }
        push_word(&mut args, "--");
        let ghost mid = head + limit_args(request.workspace.limits) + network_args(
            request.network_policy@,
        ) + (if request.session.tty {
            seq!["--console=interactive"@]
        } else {
            seq!["--pipe"@]
        }) + seq!["--"@];
        assert(words(args@) =~= mid);
        match &request.session.command {
            Some(argv) => {
                if argv.len() > 0 {
                    push_all(&mut args, argv);
                } else {
                    push_word(&mut args, "/bin/sh");
                }
            },
            None => {
                push_word(&mut args, "/bin/sh");
            },
        }
        assert(words(args@) =~= mid + session_words(request.session@.command));
        let r = HostCommand { program: string_from("systemd-nspawn"), args };
        r
    }

    /// The exit of a session from the exit code of its process; a process
    /// that ended without one (killed by a signal) counts as 128.
    pub fn exit_from_status(code: Option<i32>) -> (r: SessionExit)
        ensures
            r.code == match code {
                Some(c) => c,
                None => 128i32,
            },
    {
        match code {
            Some(c) => SessionExit { code: c },
            None => SessionExit { code: 128 },
        }
    }
}

/// Appends `name` followed by the decimal text of `n`.
fn push_setting(args: &mut Vec<String>, name: &str, n: u128)
    ensures
        words(final(args)@) == words(old(args)@).push(name@ + decimal(n as nat)),
{
    let mut s = string_from(name);
    append_decimal(&mut s, n);
    push_owned(args, s);
}

fn add_limit_args(args: &mut Vec<String>, limits: &ResourceLimits)
    ensures
        words(final(args)@) == words(old(args)@) + limit_args(*limits),
{
    push_word(args, "--property");
    push_setting(args, "CPUWeight=", limits.cpu_weight as u128);
    push_word(args, "--property");
    push_setting(args, "MemoryMax=", limits.memory_max_bytes as u128);
    push_word(args, "--property");
    push_setting(args, "TasksMax=", limits.pids_max as u128);
    assert(words(args@) =~= words(old(args)@) + limit_args(*limits));
}

fn add_network_args(args: &mut Vec<String>, policy: &NetworkPolicy)
    ensures
        words(final(args)@) == words(old(args)@) + network_args(policy@),
{
    push_word(args, "--private-network");
    match policy {
        NetworkPolicy::DenyAll { .. } => {},
        NetworkPolicy::AllowEgress { id, .. } => {
            push_word(args, "--network-veth");
            push_word(args, "--network-zone");
            push_word(args, id.as_str());
        },
    }
    assert(words(args@) =~= words(old(args)@) + network_args(policy@));
}

/// The runtime directory of a workspace: `/run/flarenv/<id>`.
pub fn workspace_run_dir(workspace_id: &WorkspaceId) -> (r: String)
    ensures
        r@ == path_join("/run/flarenv"@, workspace_id@),
{
    join_path("/run/flarenv", workspace_id.as_str())
}

} // verus!
