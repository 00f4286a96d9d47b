use flarenv::control::InMemoryMetadata;
use flarenv::ids::{AgentId, PolicyId, WorkspaceId};
use flarenv::model::{ResourceLimits, Workspace, WorkspaceState};
use flarenv::usage::{measure_usage, missing_as_empty, summarize_usage, UsageProbe, WorkspaceUsage};
use flarenv::{FlarenvError, IoFailure};

fn workspace(id: &str, root: &str, state: WorkspaceState, disk: u64) -> Workspace {
    Workspace {
        id: WorkspaceId::new(id).unwrap(),
        agent_id: AgentId::new("agent_a").unwrap(),
        root_path: root.into(),
        parent_snapshot: None,
        limits: ResourceLimits {
            cpu_weight: 100,
            memory_max_bytes: 1000,
            pids_max: 10,
            disk_max_bytes: disk,
        },
        network_policy: PolicyId::new("deny").unwrap(),
        state,
        created_at: 0,
        last_accessed_at: 0,
    }
}

struct FixedProbe;

impl UsageProbe for FixedProbe {
    fn logical_bytes(&self, path: &str) -> flarenv::Result<u64> {
        match path {
            "/missing" => Err(FlarenvError::Io(IoFailure {
                not_found: true,
                message: "gone".into(),
            })),
            "/broken" => Err(FlarenvError::Io(IoFailure {
                not_found: false,
                message: "denied".into(),
            })),
            _ => Ok(path.len() as u64),
        }
    }

    fn retained_bytes(&self, path: &str) -> flarenv::Result<Option<u64>> {
        if path == "/ab" {
            Ok(Some(5))
        } else {
            Ok(None)
        }
    }
}

#[test]
fn report_adds_up_every_workspace() {
    let metadata = InMemoryMetadata::from_parts(
        vec![
            workspace("w1", "/ab", WorkspaceState::Ready, 100),
            workspace("w2", "/missing", WorkspaceState::Deleted, 200),
            workspace("w3", "/abcd", WorkspaceState::Ready, 300),
        ],
        vec![],
        vec![],
    );
    let report = measure_usage(&metadata, &FixedProbe).unwrap();
    assert_eq!(report.workspaces.len(), 3);
    assert_eq!(report.workspaces[1].logical_bytes, 0);
    assert_eq!(report.ready_workspaces, 2);
    assert_eq!(report.deleted_workspaces, 1);
    assert_eq!(report.logical_bytes, 3 + 5);
    assert_eq!(report.retained_bytes, Some(5));
    assert_eq!(report.quota_bytes, 600);
    assert_eq!(report.memory_limit_bytes, 3000);
    assert_eq!(report.pids_limit, 30);
}

#[test]
fn probe_failures_other_than_missing_roots_stop_the_report() {
    let metadata = InMemoryMetadata::from_parts(
        vec![workspace("w1", "/broken", WorkspaceState::Ready, 1)],
        vec![],
        vec![],
    );
    match measure_usage(&metadata, &FixedProbe) {
        Err(FlarenvError::Io(f)) => assert_eq!(f.message, "denied"),
        other => panic!("unexpected outcome {:?}", other),
    }
}

#[test]
fn totals_that_overflow_are_refused() {
    let metadata = InMemoryMetadata::from_parts(
        vec![
            workspace("w1", "/a", WorkspaceState::Ready, u64::MAX),
            workspace("w2", "/b", WorkspaceState::Ready, 1),
        ],
        vec![],
        vec![],
    );
    match measure_usage(&metadata, &FixedProbe) {
        Err(FlarenvError::Storage(m)) => assert_eq!(m, "capacity totals do not fit in 64 bits"),
        other => panic!("unexpected outcome {:?}", other),
    }
}

#[test]
fn missing_roots_count_as_empty() {
    assert_eq!(missing_as_empty(Ok(7)).unwrap(), 7);
    let missing = Err(FlarenvError::Io(IoFailure {
        not_found: true,
        message: "gone".into(),
    }));
    assert_eq!(missing_as_empty(missing).unwrap(), 0);
    assert!(missing_as_empty(Err(FlarenvError::Storage("x".into()))).is_err());
}

#[test]
fn empty_usage_list_gives_zero_totals() {
    let report = summarize_usage(Vec::<WorkspaceUsage>::new()).unwrap();
    assert_eq!(report.logical_bytes, 0);
    assert_eq!(report.retained_bytes, None);
    assert_eq!(report.ready_workspaces, 0);
}
