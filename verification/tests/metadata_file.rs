use flarenv::control::{ControlPlane, InMemoryMetadata};
use flarenv::executor::RecordingExecutor;
use flarenv::ids::{AgentId, PolicyId, SnapshotId, WorkspaceId};
use flarenv::metadata::{decode_metadata, encode_metadata, FileMetadataStore};
use flarenv::model::{ResourceLimits, Workspace, WorkspaceSnapshot, WorkspaceState};
use flarenv::network::NetworkPolicy;
use flarenv::nix_profile::FixedNixProfile;
use flarenv::storage::InMemoryStorage;
use flarenv::FlarenvError;

const SECOND: i128 = 1_000_000_000;

fn invalid_input(content: &str) -> String {
    match decode_metadata(content) {
        Err(FlarenvError::InvalidInput(m)) => m,
        Err(other) => panic!("unexpected error {:?}", other),
        Ok(_) => panic!("content was accepted"),
    }
}

#[test]
fn saved_metadata_loads_back() {
    let mut cp = ControlPlane::new(
        InMemoryStorage::new("/tmp/flarenv-test"),
        RecordingExecutor::default(),
        FixedNixProfile::default(),
        NetworkPolicy::DenyAll {
            id: PolicyId::new("deny").unwrap(),
        },
    )
    .unwrap();
    let workspace_id = WorkspaceId::new("workspace_a").unwrap();
    cp.create_workspace(workspace_id.clone(), AgentId::new("agent_a").unwrap())
        .unwrap();
    cp.snapshot_workspace(&workspace_id, SnapshotId::new("snap_a").unwrap())
        .unwrap();

    let text = encode_metadata(cp.metadata());
    let loaded = decode_metadata(&text).unwrap();

    assert!(loaded.workspace(&workspace_id).is_some());
    assert!(loaded
        .snapshot(&SnapshotId::new("snap_a").unwrap())
        .is_some());
}

fn sample() -> InMemoryMetadata {
    let w = WorkspaceId::new("w1").unwrap();
    let workspace = Workspace {
        id: w.clone(),
        agent_id: AgentId::new("agent").unwrap(),
        root_path: "/state/workspaces/w1".into(),
        parent_snapshot: Some(SnapshotId::new("s0").unwrap()),
        limits: ResourceLimits {
            cpu_weight: 65535,
            memory_max_bytes: u64::MAX,
            pids_max: 4_294_967_295,
            disk_max_bytes: 7,
        },
        network_policy: PolicyId::new("egress").unwrap(),
        state: WorkspaceState::Deleted,
        created_at: 12 * SECOND + 345,
        last_accessed_at: 20 * SECOND,
    };
    let snapshot = WorkspaceSnapshot {
        id: SnapshotId::new("s0").unwrap(),
        workspace_id: w,
        root_path: "/state/snapshots/s0".into(),
        created_at: 3 * SECOND,
    };
    InMemoryMetadata::from_parts(
        vec![workspace],
        vec![snapshot],
        vec![
            NetworkPolicy::DenyAll {
                id: PolicyId::new("deny").unwrap(),
            },
            NetworkPolicy::AllowEgress {
                id: PolicyId::new("egress").unwrap(),
                cidrs: vec!["10.0.0.0/8".into(), "192.168.0.0/16".into()],
            },
        ],
    )
}

#[test]
fn encoded_metadata_has_one_line_per_record() {
    let text = encode_metadata(&sample());
    assert_eq!(
        text,
        "flarenv-metadata-v1\n\
         policy\tdeny\tdeny\n\
         policy\tegress\tallow\t10.0.0.0/8,192.168.0.0/16\n\
         workspace\tw1\tagent\t/state/workspaces/w1\ts0\t65535\t18446744073709551615\t4294967295\t7\tegress\tdeleted\t12\t20\n\
         snapshot\ts0\tw1\t/state/snapshots/s0\t3\n"
    );
}

#[test]
fn round_trip_keeps_records_and_cuts_times_to_seconds() {
    let written = sample();
    let loaded = decode_metadata(&encode_metadata(&written)).unwrap();
    let w = loaded.workspace(&WorkspaceId::new("w1").unwrap()).unwrap();
    let mut expected = written.workspaces()[0].clone();
    expected.created_at = 12 * SECOND;
    assert_eq!(*w, expected);
    assert_eq!(loaded.snapshots(), written.snapshots());
    assert_eq!(loaded.policies(), written.policies());
}

#[test]
fn blank_lines_are_skipped_and_later_records_win() {
    let text = "flarenv-metadata-v1\n\
                \n   \n\
                policy\tp\tdeny\n\
                policy\tp\tallow\n\
                snapshot\ts\tw\t/x\t1\r\n";
    let loaded = decode_metadata(text).unwrap();
    assert_eq!(
        loaded.policies(),
        &[NetworkPolicy::AllowEgress {
            id: PolicyId::new("p").unwrap(),
            cidrs: vec![],
        }][..]
    );
    assert_eq!(loaded.snapshots()[0].created_at, SECOND);
}

#[test]
fn missing_header_is_refused() {
    assert_eq!(invalid_input(""), "metadata header is missing or unsupported");
    assert_eq!(
        invalid_input("flarenv-metadata-v2\n"),
        "metadata header is missing or unsupported"
    );
}

#[test]
fn unknown_record_is_refused() {
    assert_eq!(
        invalid_input("flarenv-metadata-v1\nvolume\tx\n"),
        "unknown metadata record volume"
    );
}

#[test]
fn short_records_are_refused() {
    assert_eq!(
        invalid_input("flarenv-metadata-v1\npolicy\tp\n"),
        "policy record has too few fields"
    );
    assert_eq!(
        invalid_input("flarenv-metadata-v1\nworkspace\tw\n"),
        "workspace record has too few fields"
    );
    assert_eq!(
        invalid_input("flarenv-metadata-v1\nsnapshot\ts\tw\t/x\n"),
        "snapshot record has too few fields"
    );
}

#[test]
fn bad_fields_are_refused() {
    assert_eq!(
        invalid_input("flarenv-metadata-v1\npolicy\tp\tmaybe\n"),
        "unknown network policy kind maybe"
    );
    assert_eq!(
        invalid_input("flarenv-metadata-v1\npolicy\tp/q\tdeny\n"),
        "PolicyId must contain only ASCII letters, numbers, '-' or '_'"
    );
    assert_eq!(
        invalid_input("flarenv-metadata-v1\nsnapshot\ts\tw\t/x\tsoon\n"),
        "invalid timestamp: invalid digit found in string"
    );
    assert_eq!(
        invalid_input(
            "flarenv-metadata-v1\nworkspace\tw\ta\t/r\t-\t70000\t1\t1\t1\tp\tready\t1\t1\n"
        ),
        "invalid cpu_weight: number too large to fit in target type"
    );
    assert_eq!(
        invalid_input("flarenv-metadata-v1\nworkspace\tw\ta\t/r\t-\t1\t1\t1\t1\tp\tgone\t1\t1\n"),
        "unknown workspace state gone"
    );
    assert_eq!(
        invalid_input("flarenv-metadata-v1\nworkspace\tw\ta\t/r\t\t1\t1\t1\t1\tp\tready\t1\t1\n"),
        "SnapshotId cannot be empty"
    );
}

#[test]
fn store_keeps_its_path() {
    let store = FileMetadataStore::new("/var/lib/flarenv/metadata.tsv");
    assert_eq!(store.path(), "/var/lib/flarenv/metadata.tsv");
}

#[test]
fn instants_before_the_epoch_are_written_as_the_epoch() {
    let snapshot = WorkspaceSnapshot {
        id: SnapshotId::new("s0").unwrap(),
        workspace_id: WorkspaceId::new("w1").unwrap(),
        root_path: "/state/snapshots/s0".into(),
        created_at: -5 * SECOND - 1,
    };
    let metadata = InMemoryMetadata::from_parts(vec![], vec![snapshot], vec![]);
    let text = encode_metadata(&metadata);
    assert_eq!(
        text,
        "flarenv-metadata-v1\nsnapshot\ts0\tw1\t/state/snapshots/s0\t0\n"
    );
    let loaded = decode_metadata(&text).unwrap();
    assert_eq!(loaded.snapshots()[0].created_at, 0);
}
