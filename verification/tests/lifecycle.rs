use flarenv::control::ControlPlane;
use flarenv::executor::RecordingExecutor;
use flarenv::frontend::{AllowListAuthorizer, SshSessionRequest, SshSessionRouter};
use flarenv::gc::GcAction;
use flarenv::ids::{AgentId, PolicyId, SessionId, SnapshotId, WorkspaceId};
use flarenv::model::{ResourceLimits, SessionRequest};
use flarenv::network::NetworkPolicy;
use flarenv::nix_profile::FixedNixProfile;
use flarenv::storage::InMemoryStorage;
use flarenv::FlarenvError;

fn control_plane() -> ControlPlane<InMemoryStorage, RecordingExecutor> {
    ControlPlane::new(
        InMemoryStorage::new("/tmp/flarenv-test"),
        RecordingExecutor::default(),
        FixedNixProfile::default(),
        NetworkPolicy::DenyAll {
            id: PolicyId::new("deny").unwrap(),
        },
    )
    .unwrap()
}

#[test]
fn creates_snapshots_and_branches_workspaces() {
    let mut cp = control_plane();
    let workspace_id = WorkspaceId::new("workspace_a").unwrap();
    let agent_id = AgentId::new("agent_a").unwrap();
    let snapshot_id = SnapshotId::new("snap_a").unwrap();

    let workspace = cp
        .create_workspace(workspace_id.clone(), agent_id.clone())
        .unwrap();
    assert_eq!(workspace.id, workspace_id);

    let snapshot = cp
        .snapshot_workspace(&workspace_id, snapshot_id.clone())
        .unwrap();
    assert_eq!(snapshot.workspace_id, workspace_id);

    let branch_id = WorkspaceId::new("workspace_branch").unwrap();
    let branch = cp
        .branch_workspace(&snapshot_id, branch_id.clone(), agent_id)
        .unwrap();
    assert_eq!(branch.id, branch_id);
    assert_eq!(branch.parent_snapshot, Some(snapshot_id));
}

#[test]
fn updates_limits_and_network_policy_before_session() {
    let mut cp = control_plane();
    let workspace_id = WorkspaceId::new("workspace_a").unwrap();
    cp.create_workspace(workspace_id.clone(), AgentId::new("agent_a").unwrap())
        .unwrap();

    cp.set_limits(
        &workspace_id,
        ResourceLimits {
            cpu_weight: 50,
            memory_max_bytes: 1024,
            pids_max: 8,
            disk_max_bytes: 2048,
        },
    )
    .unwrap();
    cp.set_network_policy(
        &workspace_id,
        NetworkPolicy::AllowEgress {
            id: PolicyId::new("egress").unwrap(),
            cidrs: vec!["10.0.0.0/8".into()],
        },
    )
    .unwrap();

    let exit = cp
        .open_session(
            &workspace_id,
            SessionId::new("session_a").unwrap(),
            SessionRequest {
                command: Some(vec!["/bin/true".into()]),
                tty: false,
            },
        )
        .unwrap();
    assert_eq!(exit.code, 0);
    assert_eq!(
        cp.metadata()
            .workspace(&workspace_id)
            .unwrap()
            .network_policy
            .as_str(),
        "egress"
    );
}

#[test]
fn deleted_workspaces_cannot_open_sessions() {
    let mut cp = control_plane();
    let workspace_id = WorkspaceId::new("workspace_a").unwrap();
    cp.create_workspace(workspace_id.clone(), AgentId::new("agent_a").unwrap())
        .unwrap();
    cp.delete_workspace(&workspace_id).unwrap();

    let result = cp.open_session(
        &workspace_id,
        SessionId::new("session_a").unwrap(),
        SessionRequest::default(),
    );
    assert!(result.is_err());
}

#[test]
fn gc_actions_purge_soft_deleted_workspaces_and_snapshots() {
    let mut cp = control_plane();
    let workspace_id = WorkspaceId::new("workspace_a").unwrap();
    let snapshot_id = SnapshotId::new("snap_a").unwrap();
    cp.create_workspace(workspace_id.clone(), AgentId::new("agent_a").unwrap())
        .unwrap();
    cp.snapshot_workspace(&workspace_id, snapshot_id.clone())
        .unwrap();
    cp.delete_workspace(&workspace_id).unwrap();

    cp.execute_gc_actions(&[
        GcAction::DeleteSnapshot {
            snapshot_id: snapshot_id.clone(),
        },
        GcAction::DeleteWorkspace {
            workspace_id: workspace_id.clone(),
        },
    ])
    .unwrap();

    assert!(cp.metadata().workspace(&workspace_id).is_none());
    assert!(cp.metadata().snapshot(&snapshot_id).is_none());
}

#[test]
fn authorizes_ssh_principal_before_opening_session() {
    let mut cp = control_plane();
    let workspace_id = WorkspaceId::new("workspace_a").unwrap();
    cp.create_workspace(workspace_id.clone(), AgentId::new("agent_a").unwrap())
        .unwrap();

    let mut authorizer = AllowListAuthorizer::default();
    authorizer.grant("agent-key-a", workspace_id.clone());
    let router = SshSessionRouter::new(authorizer);

    let exit = router
        .open_session(
            &mut cp,
            SshSessionRequest {
                principal: "agent-key-a".into(),
                workspace_id,
                session_id: SessionId::new("session_a").unwrap(),
                session: SessionRequest::default(),
            },
        )
        .unwrap();

    assert_eq!(exit.code, 0);
}

#[test]
fn denies_unauthorized_principal() {
    let mut cp = control_plane();
    let workspace_id = WorkspaceId::new("workspace_a").unwrap();
    cp.create_workspace(workspace_id.clone(), AgentId::new("agent_a").unwrap())
        .unwrap();

    let router = SshSessionRouter::new(AllowListAuthorizer::default());
    let result = router.open_session(
        &mut cp,
        SshSessionRequest {
            principal: "agent-key-a".into(),
            workspace_id,
            session_id: SessionId::new("session_a").unwrap(),
            session: SessionRequest::default(),
        },
    );

    assert!(result.is_err());
}

// ---------------------------------------------------------------------------
// Laws and error cases on concrete values
// ---------------------------------------------------------------------------

#[test]
fn deleting_twice_changes_nothing_more() {
    let mut cp = control_plane();
    let workspace_id = WorkspaceId::new("workspace_a").unwrap();
    cp.create_workspace(workspace_id.clone(), AgentId::new("agent_a").unwrap())
        .unwrap();
    cp.delete_workspace(&workspace_id).unwrap();
    let once = cp.metadata().workspace(&workspace_id).unwrap().clone();
    cp.delete_workspace(&workspace_id).unwrap();
    let twice = cp.metadata().workspace(&workspace_id).unwrap().clone();
    assert_eq!(once, twice);
}

#[test]
fn deleted_workspace_session_fails_on_readiness() {
    let mut cp = control_plane();
    let workspace_id = WorkspaceId::new("workspace_a").unwrap();
    cp.create_workspace(workspace_id.clone(), AgentId::new("agent_a").unwrap())
        .unwrap();
    cp.delete_workspace(&workspace_id).unwrap();
    match cp.open_session(
        &workspace_id,
        SessionId::new("session_a").unwrap(),
        SessionRequest::default(),
    ) {
        Err(FlarenvError::PreconditionFailed(m)) => {
            assert_eq!(m, "workspace workspace_a is not ready")
        }
        other => panic!("unexpected outcome {:?}", other),
    }
    assert_eq!(cp.metadata().workspaces().len(), 1);
}

#[test]
fn creating_an_existing_workspace_fails() {
    let mut cp = control_plane();
    let workspace_id = WorkspaceId::new("workspace_a").unwrap();
    cp.create_workspace(workspace_id.clone(), AgentId::new("agent_a").unwrap())
        .unwrap();
    match cp.create_workspace(workspace_id, AgentId::new("agent_b").unwrap()) {
        Err(FlarenvError::AlreadyExists(m)) => assert_eq!(m, "workspace workspace_a"),
        other => panic!("unexpected outcome {:?}", other),
    }
}

#[test]
fn missing_workspace_is_not_found() {
    let mut cp = control_plane();
    let workspace_id = WorkspaceId::new("workspace_x").unwrap();
    match cp.delete_workspace(&workspace_id) {
        Err(FlarenvError::NotFound(m)) => assert_eq!(m, "workspace workspace_x"),
        other => panic!("unexpected outcome {:?}", other),
    }
    match cp.snapshot_workspace(&workspace_id, SnapshotId::new("s").unwrap()) {
        Err(FlarenvError::NotFound(m)) => assert_eq!(m, "workspace workspace_x"),
        other => panic!("unexpected outcome {:?}", other),
    }
}

#[test]
fn branching_from_missing_snapshot_is_not_found() {
    let mut cp = control_plane();
    match cp.branch_workspace(
        &SnapshotId::new("snap_x").unwrap(),
        WorkspaceId::new("workspace_b").unwrap(),
        AgentId::new("agent_a").unwrap(),
    ) {
        Err(FlarenvError::NotFound(m)) => assert_eq!(m, "snapshot snap_x"),
        other => panic!("unexpected outcome {:?}", other),
    }
}

#[test]
fn purging_a_ready_workspace_is_refused() {
    let mut cp = control_plane();
    let workspace_id = WorkspaceId::new("workspace_a").unwrap();
    cp.create_workspace(workspace_id.clone(), AgentId::new("agent_a").unwrap())
        .unwrap();
    match cp.purge_workspace(&workspace_id) {
        Err(FlarenvError::PreconditionFailed(m)) => {
            assert_eq!(m, "workspace workspace_a must be soft-deleted before purge")
        }
        other => panic!("unexpected outcome {:?}", other),
    }
    assert!(cp.metadata().workspace(&workspace_id).is_some());
}

#[test]
fn purging_a_snapshot_with_a_branch_is_refused() {
    let mut cp = control_plane();
    let workspace_id = WorkspaceId::new("workspace_a").unwrap();
    let snapshot_id = SnapshotId::new("snap_a").unwrap();
    cp.create_workspace(workspace_id.clone(), AgentId::new("agent_a").unwrap())
        .unwrap();
    cp.snapshot_workspace(&workspace_id, snapshot_id.clone())
        .unwrap();
    cp.branch_workspace(
        &snapshot_id,
        WorkspaceId::new("workspace_b").unwrap(),
        AgentId::new("agent_a").unwrap(),
    )
    .unwrap();
    match cp.purge_snapshot(&snapshot_id) {
        Err(FlarenvError::PreconditionFailed(m)) => {
            assert_eq!(m, "snapshot snap_a is still used by a branch")
        }
        other => panic!("unexpected outcome {:?}", other),
    }
    assert!(cp.metadata().snapshot(&snapshot_id).is_some());
}

#[test]
fn duplicate_snapshot_is_refused() {
    let mut cp = control_plane();
    let workspace_id = WorkspaceId::new("workspace_a").unwrap();
    let snapshot_id = SnapshotId::new("snap_a").unwrap();
    cp.create_workspace(workspace_id.clone(), AgentId::new("agent_a").unwrap())
        .unwrap();
    cp.snapshot_workspace(&workspace_id, snapshot_id.clone())
        .unwrap();
    match cp.snapshot_workspace(&workspace_id, snapshot_id) {
        Err(FlarenvError::AlreadyExists(m)) => assert_eq!(m, "snapshot snap_a"),
        other => panic!("unexpected outcome {:?}", other),
    }
}

#[test]
fn refused_gc_action_stops_the_run() {
    let mut cp = control_plane();
    let workspace_id = WorkspaceId::new("workspace_a").unwrap();
    cp.create_workspace(workspace_id.clone(), AgentId::new("agent_a").unwrap())
        .unwrap();
    let result = cp.execute_gc_actions(&[GcAction::DeleteWorkspace {
        workspace_id: workspace_id.clone(),
    }]);
    assert!(result.is_err());
    assert!(cp.metadata().workspace(&workspace_id).is_some());
}

#[test]
fn unauthorized_request_names_principal_and_workspace() {
    let mut cp = control_plane();
    let workspace_id = WorkspaceId::new("workspace_a").unwrap();
    cp.create_workspace(workspace_id.clone(), AgentId::new("agent_a").unwrap())
        .unwrap();
    let mut authorizer = AllowListAuthorizer::default();
    authorizer.grant("agent-key-b", WorkspaceId::new("workspace_b").unwrap());
    let router = SshSessionRouter::new(authorizer);
    match router.open_session(
        &mut cp,
        SshSessionRequest {
            principal: "agent-key-b".into(),
            workspace_id,
            session_id: SessionId::new("session_a").unwrap(),
            session: SessionRequest::default(),
        },
    ) {
        Err(FlarenvError::PreconditionFailed(m)) => assert_eq!(
            m,
            "principal agent-key-b is not authorized for workspace workspace_a"
        ),
        other => panic!("unexpected outcome {:?}", other),
    }
}

#[test]
fn relative_nix_paths_are_refused() {
    let result = ControlPlane::new(
        InMemoryStorage::new("/tmp/flarenv-test"),
        RecordingExecutor::default(),
        FixedNixProfile::new("nix/store", "/nix/profile"),
        NetworkPolicy::DenyAll {
            id: PolicyId::new("deny").unwrap(),
        },
    );
    match result {
        Err(FlarenvError::InvalidInput(m)) => assert_eq!(m, "store_path must be absolute"),
        _ => panic!("expected a refusal"),
    }
}

#[test]
fn session_records_request_and_marks_access() {
    let mut cp = control_plane();
    let workspace_id = WorkspaceId::new("workspace_a").unwrap();
    let created = cp
        .create_workspace(workspace_id.clone(), AgentId::new("agent_a").unwrap())
        .unwrap();
    cp.open_session(
        &workspace_id,
        SessionId::new("session_a").unwrap(),
        SessionRequest::default(),
    )
    .unwrap();
    let after = cp.metadata().workspace(&workspace_id).unwrap();
    assert!(after.last_accessed_at >= created.last_accessed_at);
    assert_eq!(after.created_at, created.created_at);
}

#[test]
fn a_gc_plan_runs_on_the_metadata_it_was_made_from() {
    let mut cp = control_plane();
    let workspace_id = WorkspaceId::new("workspace_a").unwrap();
    cp.create_workspace(workspace_id.clone(), AgentId::new("agent_a").unwrap())
        .unwrap();
    for name in ["s1", "s2", "s3", "s4"] {
        cp.snapshot_workspace(&workspace_id, SnapshotId::new(name).unwrap())
            .unwrap();
    }
    let branch_id = WorkspaceId::new("workspace_b").unwrap();
    cp.branch_workspace(
        &SnapshotId::new("s1").unwrap(),
        branch_id.clone(),
        AgentId::new("agent_a").unwrap(),
    )
    .unwrap();
    cp.delete_workspace(&workspace_id).unwrap();

    let policy = flarenv::gc::GcPolicy {
        retain_snapshots_per_workspace: 1,
        delete_deleted_workspaces_after: 0,
    };
    let plan = flarenv::gc::plan_gc(cp.metadata(), i128::MAX, &policy);
    assert!(plan.contains(&GcAction::DeleteWorkspace {
        workspace_id: workspace_id.clone()
    }));
    assert!(!plan.contains(&GcAction::DeleteSnapshot {
        snapshot_id: SnapshotId::new("s1").unwrap()
    }));
    cp.execute_gc_actions(&plan).unwrap();
    assert!(cp.metadata().workspace(&workspace_id).is_none());
    assert!(cp.metadata().workspace(&branch_id).is_some());
    assert!(cp.metadata().snapshot(&SnapshotId::new("s1").unwrap()).is_some());
    assert!(cp.metadata().snapshot(&SnapshotId::new("s2").unwrap()).is_none());
    assert!(cp.metadata().snapshot(&SnapshotId::new("s3").unwrap()).is_none());
}

#[test]
fn prepared_sessions_use_the_latest_limits_and_policy() {
    let mut cp = control_plane();
    let workspace_id = WorkspaceId::new("workspace_a").unwrap();
    cp.create_workspace(workspace_id.clone(), AgentId::new("agent_a").unwrap())
        .unwrap();
    let limits = ResourceLimits {
        cpu_weight: 50,
        memory_max_bytes: 1024,
        pids_max: 8,
        disk_max_bytes: 2048,
    };
    cp.set_limits(&workspace_id, limits.clone()).unwrap();
    let policy = NetworkPolicy::AllowEgress {
        id: PolicyId::new("egress").unwrap(),
        cidrs: vec!["10.0.0.0/8".into()],
    };
    cp.set_network_policy(&workspace_id, policy.clone()).unwrap();
    let request = cp
        .prepare_session(
            &workspace_id,
            SessionId::new("session_a").unwrap(),
            SessionRequest::default(),
        )
        .unwrap();
    assert_eq!(request.workspace.limits, limits);
    assert_eq!(request.network_policy, policy);
    assert_eq!(request.session_id.as_str(), "session_a");
    assert_eq!(request.nix_profile, FixedNixProfile::default());
}

#[test]
fn a_missing_policy_refuses_sessions() {
    let mut cp = control_plane();
    let workspace_id = WorkspaceId::new("workspace_a").unwrap();
    cp.create_workspace(workspace_id.clone(), AgentId::new("agent_a").unwrap())
        .unwrap();
    let only_workspaces = flarenv::control::InMemoryMetadata::from_parts(
        cp.metadata().workspaces().to_vec(),
        vec![],
        vec![],
    );
    cp.replace_metadata(only_workspaces);
    match cp.open_session(
        &workspace_id,
        SessionId::new("session_a").unwrap(),
        SessionRequest::default(),
    ) {
        Err(FlarenvError::PreconditionFailed(m)) => {
            assert_eq!(m, "network policy deny is missing")
        }
        other => panic!("unexpected outcome {:?}", other),
    }
}

#[test]
fn gc_keeps_earlier_actions_and_skips_later_ones_after_a_refusal() {
    let mut cp = control_plane();
    let ready = WorkspaceId::new("workspace_a").unwrap();
    let first = SnapshotId::new("snap_a").unwrap();
    let second = SnapshotId::new("snap_b").unwrap();
    cp.create_workspace(ready.clone(), AgentId::new("agent_a").unwrap())
        .unwrap();
    cp.snapshot_workspace(&ready, first.clone()).unwrap();
    cp.snapshot_workspace(&ready, second.clone()).unwrap();

    let result = cp.execute_gc_actions(&[
        GcAction::DeleteSnapshot {
            snapshot_id: first.clone(),
        },
        GcAction::DeleteWorkspace {
            workspace_id: ready.clone(),
        },
        GcAction::DeleteSnapshot {
            snapshot_id: second.clone(),
        },
    ]);
    match result {
        Err(FlarenvError::PreconditionFailed(m)) => {
            assert_eq!(m, "workspace workspace_a must be soft-deleted before purge")
        }
        other => panic!("unexpected outcome {:?}", other),
    }
    assert!(cp.metadata().snapshot(&first).is_none());
    assert!(cp.metadata().snapshot(&second).is_some());
    assert!(cp.metadata().workspace(&ready).is_some());
}

#[test]
fn gc_with_no_actions_changes_nothing() {
    let mut cp = control_plane();
    let workspace_id = WorkspaceId::new("workspace_a").unwrap();
    cp.create_workspace(workspace_id.clone(), AgentId::new("agent_a").unwrap())
        .unwrap();
    assert!(cp.execute_gc_actions(&[]).is_ok());
    assert!(cp.metadata().workspace(&workspace_id).is_some());
}
