use flarenv::control::InMemoryMetadata;
use flarenv::executor::{ExecRequest, NspawnExecutor};
use flarenv::gc::{plan_gc, GcAction, GcPolicy};
use flarenv::ids::{AgentId, PolicyId, SessionId, SnapshotId, WorkspaceId};
use flarenv::model::{ResourceLimits, SessionRequest, Workspace, WorkspaceSnapshot, WorkspaceState};
use flarenv::network::NetworkPolicy;
use flarenv::nix_profile::FixedNixProfile;
use flarenv::preflight::{HostCheck, PreflightReport};
use flarenv::runtime::{ControlEvent, Received, SessionRuntime};
use flarenv::storage::BtrfsStorage;
use flarenv::usage::parse_btrfs_qgroup_show;
use std::sync::mpsc;
use std::time::Duration;

const SECOND: i128 = 1_000_000_000;
const SECOND_SPAN: u128 = 1_000_000_000;

#[test]
fn rejects_path_like_ids() {
    assert!(WorkspaceId::new("../escape").is_err());
    assert!(WorkspaceId::new("workspace/one").is_err());
}

#[test]
fn report_ok_requires_all_checks_to_pass() {
    let report = PreflightReport {
        checks: vec![
            HostCheck {
                name: "a".into(),
                ok: true,
                detail: "".into(),
            },
            HostCheck {
                name: "b".into(),
                ok: false,
                detail: "".into(),
            },
        ],
    };

    assert!(!report.ok());
}

#[test]
fn tracks_active_sessions_from_events() {
    let mut runtime = SessionRuntime::default();
    let workspace_id = WorkspaceId::new("workspace_a").unwrap();
    let session_id = SessionId::new("session_a").unwrap();

    assert!(runtime.apply(ControlEvent::SessionStarted {
        workspace_id: workspace_id.clone(),
        session_id: session_id.clone(),
    }));
    assert_eq!(runtime.stats().active_sessions, 1);

    assert!(runtime.apply(ControlEvent::SessionExited {
        workspace_id,
        session_id,
        code: 0,
    }));
    assert_eq!(runtime.stats().active_sessions, 0);
    assert_eq!(runtime.stats().exited_sessions, 1);
}

#[test]
fn blocking_loop_ticks_without_busy_polling() {
    let (sender, receiver) = mpsc::channel();
    sender.send(ControlEvent::Shutdown).unwrap();
    let mut runtime = SessionRuntime::default();

    let stats = runtime.run_blocking(&receiver, Duration::from_secs(60));

    assert_eq!(stats.active_sessions, 0);
    assert_eq!(stats.ticks, 0);
}

#[test]
fn builds_btrfs_snapshot_paths() {
    let storage = BtrfsStorage::new("/var/lib/flarenv");
    let workspace = WorkspaceId::new("agent_a").unwrap();
    let snapshot = SnapshotId::new("snap_1").unwrap();

    assert_eq!(
        storage.workspace_path(&workspace),
        "/var/lib/flarenv/workspaces/agent_a"
    );
    assert_eq!(
        storage.snapshot_path(&snapshot),
        "/var/lib/flarenv/snapshots/snap_1"
    );
}

#[test]
fn parses_raw_btrfs_qgroup_usage() {
    let usage = parse_btrfs_qgroup_show(
        "qgroupid         rfer         excl\n\
         --------         ----         ----\n\
         0/257            4096         2048\n",
    )
    .unwrap();

    assert_eq!(usage.referenced_bytes, 4096);
    assert_eq!(usage.exclusive_bytes, 2048);
}

#[test]
fn nspawn_command_contains_root_profile_and_limits() {
    let workspace_id = WorkspaceId::new("workspace_1").unwrap();
    let request = ExecRequest {
        session_id: SessionId::new("session_1").unwrap(),
        workspace: Workspace {
            id: workspace_id,
            agent_id: AgentId::new("agent_1").unwrap(),
            root_path: "/var/lib/flarenv/workspaces/workspace_1".into(),
            parent_snapshot: None,
            limits: ResourceLimits::default(),
            network_policy: PolicyId::new("deny").unwrap(),
            state: WorkspaceState::Ready,
            created_at: 0,
            last_accessed_at: 0,
        },
        session: SessionRequest {
            command: Some(vec!["/bin/echo".into(), "ok".into()]),
            tty: false,
        },
        nix_profile: FixedNixProfile::default(),
        network_policy: NetworkPolicy::DenyAll {
            id: PolicyId::new("deny").unwrap(),
        },
    };

    let command = NspawnExecutor::new("flarenv").command_for(&request);
    let args: Vec<String> = command.args.clone();

    assert!(args.contains(&"--directory".to_string()));
    assert!(args.contains(&"/var/lib/flarenv/workspaces/workspace_1".to_string()));
    assert!(args.contains(&"--private-network".to_string()));
    assert!(args.contains(&"--pipe".to_string()));
    assert!(args.contains(&"/bin/echo".to_string()));
}

fn deleted_workspace(id: &WorkspaceId) -> Workspace {
    Workspace {
        id: id.clone(),
        agent_id: AgentId::new("agent_a").unwrap(),
        root_path: "/tmp/workspace_a".into(),
        parent_snapshot: None,
        limits: ResourceLimits::default(),
        network_policy: PolicyId::new("deny").unwrap(),
        state: WorkspaceState::Deleted,
        created_at: 0,
        last_accessed_at: 0,
    }
}

#[test]
fn plans_old_deleted_workspaces_and_old_snapshots() {
    let workspace_id = WorkspaceId::new("workspace_a").unwrap();
    let keep_snapshot = SnapshotId::new("snap_keep").unwrap();
    let delete_snapshot = SnapshotId::new("snap_delete").unwrap();
    let workspaces = vec![deleted_workspace(&workspace_id)];

    let snapshots = vec![
        WorkspaceSnapshot {
            id: keep_snapshot.clone(),
            workspace_id: workspace_id.clone(),
            root_path: "/tmp/snap_keep".into(),
            created_at: 10 * SECOND,
        },
        WorkspaceSnapshot {
            id: delete_snapshot.clone(),
            workspace_id,
            root_path: "/tmp/snap_delete".into(),
            created_at: 0,
        },
    ];

    let policies = vec![NetworkPolicy::DenyAll {
        id: PolicyId::new("deny").unwrap(),
    }];
    let metadata = InMemoryMetadata::from_parts(workspaces, snapshots, policies);

    let actions = plan_gc(
        &metadata,
        100 * SECOND,
        &GcPolicy {
            retain_snapshots_per_workspace: 1,
            delete_deleted_workspaces_after: 50 * SECOND_SPAN,
        },
    );

    assert!(actions.contains(&GcAction::DeleteWorkspace {
        workspace_id: WorkspaceId::new("workspace_a").unwrap()
    }));
    assert!(actions.contains(&GcAction::DeleteSnapshot {
        snapshot_id: delete_snapshot
    }));
    assert!(!actions.contains(&GcAction::DeleteSnapshot {
        snapshot_id: keep_snapshot
    }));
}

// ---------------------------------------------------------------------------
// More cases
// ---------------------------------------------------------------------------

#[test]
fn gc_keeps_recent_deletions_and_branch_parents() {
    let a = WorkspaceId::new("workspace_a").unwrap();
    let b = WorkspaceId::new("workspace_b").unwrap();
    let mut branch = deleted_workspace(&b);
    branch.parent_snapshot = Some(SnapshotId::new("snap_old").unwrap());
    branch.state = WorkspaceState::Ready;
    let mut recent = deleted_workspace(&a);
    recent.last_accessed_at = 90 * SECOND;
    let snapshots = vec![
        WorkspaceSnapshot {
            id: SnapshotId::new("snap_new").unwrap(),
            workspace_id: a.clone(),
            root_path: "/tmp/snap_new".into(),
            created_at: 20 * SECOND,
        },
        WorkspaceSnapshot {
            id: SnapshotId::new("snap_old").unwrap(),
            workspace_id: a.clone(),
            root_path: "/tmp/snap_old".into(),
            created_at: 5 * SECOND,
        },
        WorkspaceSnapshot {
            id: SnapshotId::new("snap_mid").unwrap(),
            workspace_id: a.clone(),
            root_path: "/tmp/snap_mid".into(),
            created_at: 10 * SECOND,
        },
    ];
    let metadata = InMemoryMetadata::from_parts(vec![recent, branch], snapshots, vec![]);
    let actions = plan_gc(
        &metadata,
        100 * SECOND,
        &GcPolicy {
            retain_snapshots_per_workspace: 1,
            delete_deleted_workspaces_after: 50 * SECOND_SPAN,
        },
    );
    assert_eq!(
        actions,
        vec![GcAction::DeleteSnapshot {
            snapshot_id: SnapshotId::new("snap_mid").unwrap()
        }]
    );
}

#[test]
fn gc_orders_snapshots_newest_first_within_a_workspace() {
    let a = WorkspaceId::new("workspace_a").unwrap();
    let mk = |id: &str, t: i128| WorkspaceSnapshot {
        id: SnapshotId::new(id).unwrap(),
        workspace_id: a.clone(),
        root_path: format!("/tmp/{id}"),
        created_at: t * SECOND,
    };
    let metadata = InMemoryMetadata::from_parts(
        vec![],
        vec![mk("s1", 1), mk("s2", 3), mk("s3", 2), mk("s4", 4)],
        vec![],
    );
    let actions = plan_gc(&metadata, 0, &GcPolicy::default());
    assert_eq!(
        actions,
        vec![GcAction::DeleteSnapshot {
            snapshot_id: SnapshotId::new("s1").unwrap()
        }]
    );
    let none_kept = plan_gc(
        &metadata,
        0,
        &GcPolicy {
            retain_snapshots_per_workspace: 0,
            delete_deleted_workspaces_after: 0,
        },
    );
    let ids: Vec<String> = none_kept
        .iter()
        .map(|a| match a {
            GcAction::DeleteSnapshot { snapshot_id } => snapshot_id.as_str().to_string(),
            GcAction::DeleteWorkspace { workspace_id } => workspace_id.as_str().to_string(),
        })
        .collect();
    assert_eq!(ids, vec!["s4", "s2", "s3", "s1"]);
}

#[test]
fn gc_default_policy_values() {
    let policy = GcPolicy::default();
    assert_eq!(policy.retain_snapshots_per_workspace, 3);
    assert_eq!(
        policy.delete_deleted_workspaces_after,
        7 * 24 * 60 * 60 * SECOND_SPAN
    );
}

#[test]
fn runtime_counts_ticks_and_ignores_unknown_exits() {
    let mut runtime = SessionRuntime::default();
    assert!(runtime.apply(ControlEvent::Tick));
    assert!(runtime.apply(ControlEvent::SessionExited {
        workspace_id: WorkspaceId::new("w").unwrap(),
        session_id: SessionId::new("s").unwrap(),
        code: 1,
    }));
    assert!(!runtime.apply(ControlEvent::Shutdown));
    let stats = runtime.stats();
    assert_eq!(stats.ticks, 1);
    assert_eq!(stats.exited_sessions, 1);
    assert_eq!(stats.active_sessions, 0);
}

#[test]
fn runtime_start_then_exit_restores_active_sessions() {
    let mut runtime = SessionRuntime::default();
    let w = WorkspaceId::new("w").unwrap();
    runtime.apply(ControlEvent::SessionStarted {
        workspace_id: w.clone(),
        session_id: SessionId::new("s1").unwrap(),
    });
    runtime.apply(ControlEvent::SessionStarted {
        workspace_id: w.clone(),
        session_id: SessionId::new("s1").unwrap(),
    });
    assert_eq!(runtime.stats().active_sessions, 1);
    runtime.apply(ControlEvent::SessionStarted {
        workspace_id: w.clone(),
        session_id: SessionId::new("s2").unwrap(),
    });
    runtime.apply(ControlEvent::SessionExited {
        workspace_id: w,
        session_id: SessionId::new("s2").unwrap(),
        code: 0,
    });
    assert_eq!(runtime.stats().active_sessions, 1);
}

#[test]
fn blocking_loop_counts_events_until_disconnect() {
    let (sender, receiver) = mpsc::channel();
    sender
        .send(ControlEvent::SessionStarted {
            workspace_id: WorkspaceId::new("w").unwrap(),
            session_id: SessionId::new("s").unwrap(),
        })
        .unwrap();
    sender.send(ControlEvent::Tick).unwrap();
    drop(sender);
    let mut runtime = SessionRuntime::default();
    let stats = runtime.run_blocking(&receiver, Duration::from_millis(10));
    assert_eq!(stats.active_sessions, 1);
    assert_eq!(stats.ticks, 1);
}

#[test]
fn qgroup_output_without_usage_row_is_a_storage_error() {
    match parse_btrfs_qgroup_show("qgroupid rfer excl\n-------- ---- ----\n") {
        Err(flarenv::FlarenvError::Storage(m)) => {
            assert_eq!(m, "btrfs qgroup output did not contain a usage row")
        }
        other => panic!("unexpected outcome {:?}", other),
    }
}

#[test]
fn qgroup_output_with_bad_number_names_the_field() {
    match parse_btrfs_qgroup_show("0/257 12x 4\n") {
        Err(flarenv::FlarenvError::Storage(m)) => {
            assert_eq!(m, "invalid referenced bytes: invalid digit found in string")
        }
        other => panic!("unexpected outcome {:?}", other),
    }
    match parse_btrfs_qgroup_show("0/257 1 99999999999999999999\n") {
        Err(flarenv::FlarenvError::Storage(m)) => assert_eq!(
            m,
            "invalid exclusive bytes: number too large to fit in target type"
        ),
        other => panic!("unexpected outcome {:?}", other),
    }
}

#[test]
fn btrfs_commands_name_the_subvolumes() {
    let storage = BtrfsStorage::new("/srv/state/");
    let w = WorkspaceId::new("w1").unwrap();
    let s = SnapshotId::new("s1").unwrap();
    let create = storage.create_workspace_command(&w);
    assert_eq!(create.program, "btrfs");
    assert_eq!(
        create.args,
        vec!["subvolume", "create", "/srv/state/workspaces/w1"]
    );
    let snap = storage.snapshot_command(&w, &s);
    assert_eq!(
        snap.args,
        vec![
            "subvolume",
            "snapshot",
            "-r",
            "/srv/state/workspaces/w1",
            "/srv/state/snapshots/s1"
        ]
    );
    let clone = storage.clone_command(&s, &w);
    assert_eq!(
        clone.args,
        vec![
            "subvolume",
            "snapshot",
            "/srv/state/snapshots/s1",
            "/srv/state/workspaces/w1"
        ]
    );
    let quota = storage.quota_command(&w, 4096);
    assert_eq!(
        quota.args,
        vec!["qgroup", "limit", "4096", "/srv/state/workspaces/w1"]
    );
    let delete = BtrfsStorage::delete_command("/srv/state/workspaces/w1");
    assert_eq!(
        delete.args,
        vec!["subvolume", "delete", "/srv/state/workspaces/w1"]
    );
}

#[test]
fn nspawn_command_lists_every_argument_in_order() {
    let request = ExecRequest {
        session_id: SessionId::new("s1").unwrap(),
        workspace: Workspace {
            id: WorkspaceId::new("w1").unwrap(),
            agent_id: AgentId::new("a").unwrap(),
            root_path: "/r/w1".into(),
            parent_snapshot: None,
            limits: ResourceLimits {
                cpu_weight: 50,
                memory_max_bytes: 1024,
                pids_max: 8,
                disk_max_bytes: 2048,
            },
            network_policy: PolicyId::new("egress").unwrap(),
            state: WorkspaceState::Ready,
            created_at: 0,
            last_accessed_at: 0,
        },
        session: SessionRequest {
            command: None,
            tty: true,
        },
        nix_profile: FixedNixProfile::new("/nix/store", "/nix/profile"),
        network_policy: NetworkPolicy::AllowEgress {
            id: PolicyId::new("egress").unwrap(),
            cidrs: vec!["10.0.0.0/8".into()],
        },
    };
    let command = NspawnExecutor::new("fx").command_for(&request);
    assert_eq!(command.program, "systemd-nspawn");
    assert_eq!(
        command.args,
        vec![
            "--quiet",
            "--as-pid2",
            "--directory",
            "/r/w1",
            "--machine",
            "fx-w1-s1",
            "--bind-ro",
            "/nix/store:/nix/store",
            "--bind-ro",
            "/nix/profile:/run/current-system/sw",
            "--property",
            "CPUWeight=50",
            "--property",
            "MemoryMax=1024",
            "--property",
            "TasksMax=8",
            "--private-network",
            "--network-veth",
            "--network-zone",
            "egress",
            "--console=interactive",
            "--",
            "/bin/sh"
        ]
    );
}

#[test]
fn exit_codes_from_status() {
    assert_eq!(NspawnExecutor::exit_from_status(Some(3)).code, 3);
    assert_eq!(NspawnExecutor::exit_from_status(None).code, 128);
}

#[test]
fn ids_accept_letters_digits_dash_and_underscore() {
    assert_eq!(
        WorkspaceId::new("Work-space_09").unwrap().as_str(),
        "Work-space_09"
    );
    match AgentId::new("") {
        Err(flarenv::FlarenvError::InvalidInput(m)) => assert_eq!(m, "AgentId cannot be empty"),
        other => panic!("unexpected outcome {:?}", other),
    }
    match SnapshotId::new("a.b") {
        Err(flarenv::FlarenvError::InvalidInput(m)) => assert_eq!(
            m,
            "SnapshotId must contain only ASCII letters, numbers, '-' or '_'"
        ),
        other => panic!("unexpected outcome {:?}", other),
    }
}

#[test]
fn channel_outcomes_are_handled() {
    let mut runtime = SessionRuntime::default();
    assert!(runtime.handle(Received::Timeout));
    assert!(runtime.handle(Received::Event(ControlEvent::Tick)));
    assert!(!runtime.handle(Received::Event(ControlEvent::Shutdown)));
    assert!(!runtime.handle(Received::Disconnected));
    assert_eq!(runtime.stats().ticks, 2);
}

#[test]
fn gc_measures_ages_across_the_epoch() {
    let a = WorkspaceId::new("workspace_a").unwrap();
    let b = WorkspaceId::new("workspace_b").unwrap();
    let c = WorkspaceId::new("workspace_c").unwrap();
    let mut across = deleted_workspace(&a);
    across.last_accessed_at = -45 * SECOND;
    let mut before = deleted_workspace(&b);
    before.last_accessed_at = -70 * SECOND;
    let mut recent = deleted_workspace(&c);
    recent.last_accessed_at = -30 * SECOND;
    let metadata = InMemoryMetadata::from_parts(vec![across, before, recent], vec![], vec![]);
    let policy = GcPolicy {
        retain_snapshots_per_workspace: 1,
        delete_deleted_workspaces_after: 50 * SECOND_SPAN,
    };
    assert_eq!(
        plan_gc(&metadata, 10 * SECOND, &policy),
        vec![
            GcAction::DeleteWorkspace { workspace_id: a },
            GcAction::DeleteWorkspace {
                workspace_id: b.clone()
            },
        ]
    );
    assert_eq!(
        plan_gc(&metadata, -10 * SECOND, &policy),
        vec![GcAction::DeleteWorkspace { workspace_id: b }]
    );
    assert_eq!(
        plan_gc(&metadata, i128::MAX, &policy).len(),
        3
    );
}

#[test]
fn blocking_loop_stops_at_the_first_shutdown() {
    let (sender, receiver) = mpsc::channel();
    sender.send(ControlEvent::Tick).unwrap();
    sender.send(ControlEvent::Shutdown).unwrap();
    sender.send(ControlEvent::Tick).unwrap();
    let mut runtime = SessionRuntime::default();
    let stats = runtime.run_blocking(&receiver, Duration::from_secs(60));
    assert_eq!(stats.ticks, 1);
    assert_eq!(receiver.try_recv().unwrap(), ControlEvent::Tick);
    drop(sender);
}
