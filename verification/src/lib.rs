//! Control-plane library for agent workspaces.
//!
//! Host-specific work stays behind traits and command descriptions, so the
//! lifecycle of workspaces, snapshots, sessions and garbage collection is
//! checked without root privileges, btrfs or systemd.

pub mod command;
pub mod config;
pub mod control;
pub mod error;
pub mod executor;
pub mod frontend;
pub mod gc;
pub mod ids;
pub mod layout;
pub mod metadata;
pub mod model;
pub mod network;
pub mod nix_profile;
pub mod parse;
pub mod preflight;
pub mod runtime;
pub mod storage;
pub mod table;
pub mod text;
pub mod usage;
pub mod wire;

pub use command::HostCommand;
pub use config::DaemonConfig;
pub use control::{ControlPlane, InMemoryMetadata};
pub use error::{FlarenvError, IoFailure, Result};
pub use executor::{ExecRequest, Executor, NspawnExecutor, RecordingExecutor, SessionExit};
pub use frontend::{AllowListAuthorizer, SessionAuthorizer, SshSessionRequest, SshSessionRouter};
pub use gc::{plan_gc, GcAction, GcPolicy};
pub use ids::{AgentId, PolicyId, SessionId, SnapshotId, WorkspaceId};
pub use layout::{workspace_root_layout, RootLayout, GUEST_PROFILE_PATH};
pub use metadata::{decode_metadata, encode_metadata, FileMetadataStore};
pub use model::{ResourceLimits, SessionRequest, Workspace, WorkspaceSnapshot, WorkspaceState};
pub use network::NetworkPolicy;
pub use nix_profile::FixedNixProfile;
pub use preflight::{HostCheck, PreflightReport};
pub use runtime::{ControlEvent, RuntimeStats, SessionRuntime};
pub use storage::{BtrfsStorage, InMemoryStorage, StorageBackend};
pub use usage::{measure_usage, CapacityReport, UsageProbe, WorkspaceUsage};
