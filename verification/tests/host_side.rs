use flarenv::config::DaemonConfig;
use flarenv::executor::SessionExit;
use flarenv::frontend::AllowListAuthorizer;
use flarenv::ids::{PolicyId, WorkspaceId};
use flarenv::layout::{workspace_root_layout, GUEST_PROFILE_PATH};
use flarenv::network::NetworkPolicy;
use flarenv::preflight::{binary_check, path_check, preflight_report, state_parent};
use flarenv::text::{format_decimal, join_path};
use flarenv::wire::{
    authenticate, channel_refusal, exec_argv, session_reply, ssh_session_id, ChannelReply,
    INACTIVITY_TIMEOUT_SECS,
};
use flarenv::FlarenvError;

#[test]
fn default_config_builds_host_control_plane() {
    let config = DaemonConfig::from_values(None, None, None, None).unwrap();
    config.build_host_control_plane().unwrap();
}

#[test]
fn config_falls_back_to_defaults() {
    let config = DaemonConfig::from_values(None, None, None, None).unwrap();
    assert_eq!(config.state_root, "/var/lib/flarenv");
    assert_eq!(config.nix_profile.store_path, "/nix/store");
    assert_eq!(
        config.nix_profile.profile_path,
        "/nix/var/nix/profiles/flarenv/global"
    );
    assert_eq!(config.machine_prefix, "flarenv");
    assert_eq!(
        config.default_network_policy,
        NetworkPolicy::DenyAll {
            id: PolicyId::new("deny").unwrap()
        }
    );
}

#[test]
fn config_takes_given_values() {
    let config = DaemonConfig::from_values(
        Some("/srv/fx".into()),
        Some("/store".into()),
        Some("relative/profile".into()),
        Some("fx".into()),
    )
    .unwrap();
    assert_eq!(config.state_root, "/srv/fx");
    assert_eq!(config.machine_prefix, "fx");
    assert_eq!(config.host_storage().workspace_path(&WorkspaceId::new("w").unwrap()), "/srv/fx/workspaces/w");
    match config.build_host_control_plane() {
        Err(FlarenvError::InvalidInput(m)) => assert_eq!(m, "profile_path must be absolute"),
        _ => panic!("a relative profile path was accepted"),
    }
}

#[test]
fn state_parent_is_the_parent_directory_or_root() {
    assert_eq!(state_parent("/var/lib/flarenv"), "/var/lib");
    assert_eq!(state_parent("/var/lib/flarenv/"), "/var/lib");
    assert_eq!(state_parent("/"), "/");
    assert_eq!(state_parent("flarenv"), "");
}

#[test]
fn host_checks_name_what_they_check() {
    let found = binary_check("btrfs", Some("/usr/bin/btrfs".into()));
    assert_eq!(found.name, "binary:btrfs");
    assert!(found.ok);
    assert_eq!(found.detail, "/usr/bin/btrfs");
    let missing = binary_check("systemd-nspawn", None);
    assert_eq!(missing.name, "binary:systemd-nspawn");
    assert!(!missing.ok);
    assert_eq!(missing.detail, "not found in PATH");
    let path = path_check("nix store", "/nix/store", true);
    assert_eq!(path.name, "path:nix store");
    assert!(path.ok);
    assert_eq!(path.detail, "/nix/store");
}

#[test]
fn preflight_report_lists_five_checks() {
    let config = DaemonConfig::from_values(None, None, None, None).unwrap();
    let report = preflight_report(&config, Some("/bin/btrfs".into()), Some("/bin/nspawn".into()), true, true, true);
    assert_eq!(report.checks.len(), 5);
    assert!(report.ok());
    assert_eq!(report.checks[2].name, "path:state parent");
    assert_eq!(report.checks[2].detail, "/var/lib");
    let failing = preflight_report(&config, None, Some("/bin/nspawn".into()), true, true, true);
    assert!(!failing.ok());
}

#[test]
fn root_layout_lists_dirs_and_profile_links() {
    let layout = workspace_root_layout("/w");
    assert_eq!(
        layout.dirs,
        vec!["/w/home/agent", "/w/run", "/w/tmp", "/w/usr", "/w/var/tmp"]
    );
    let links: Vec<(String, String)> = layout
        .links
        .iter()
        .map(|l| (l.link.clone(), l.target.clone()))
        .collect();
    assert_eq!(
        links,
        vec![
            ("/w/bin".to_string(), format!("{GUEST_PROFILE_PATH}/bin")),
            ("/w/usr/bin".to_string(), format!("{GUEST_PROFILE_PATH}/bin")),
            ("/w/lib".to_string(), format!("{GUEST_PROFILE_PATH}/lib")),
        ]
    );
}

#[test]
fn paths_join_like_path_buffers() {
    assert_eq!(join_path("/a", "b"), "/a/b");
    assert_eq!(join_path("/a/", "b"), "/a/b");
    assert_eq!(join_path("", "b"), "b");
    assert_eq!(join_path("/a", "/b"), "/b");
}

#[test]
fn decimals_are_written_in_full() {
    assert_eq!(format_decimal(0), "0");
    assert_eq!(format_decimal(1234567890), "1234567890");
    assert_eq!(
        format_decimal(u128::MAX),
        "340282366920938463463374607431768211455"
    );
}

#[test]
fn ssh_sessions_are_numbered() {
    assert_eq!(ssh_session_id(7).unwrap().as_str(), "ssh_7");
    assert_eq!(
        ssh_session_id(u64::MAX).unwrap().as_str(),
        "ssh_18446744073709551615"
    );
}

#[test]
fn exec_requests_run_a_login_shell() {
    assert_eq!(exec_argv("ls -la".into()), vec!["/bin/sh", "-lc", "ls -la"]);
}

#[test]
fn authentication_needs_a_granted_key() {
    let workspace = WorkspaceId::new("workspace_a").unwrap();
    let mut authorizer = AllowListAuthorizer::default();
    authorizer.grant("ssh-ed25519 AAAA", workspace.clone());
    assert_eq!(
        authenticate(&authorizer, &workspace, "agent", Some("ssh-ed25519 AAAA".into())),
        Some("agent:ssh-ed25519 AAAA".to_string())
    );
    assert_eq!(
        authenticate(&authorizer, &workspace, "agent", Some("ssh-ed25519 BBBB".into())),
        None
    );
    assert_eq!(authenticate(&authorizer, &workspace, "agent", None), None);
}

#[test]
fn session_outcomes_become_replies() {
    assert_eq!(session_reply(&Ok(SessionExit { code: 3 })), ChannelReply::Exited(3));
    assert_eq!(session_reply(&Ok(SessionExit { code: -9 })), ChannelReply::Exited(0));
    assert_eq!(
        session_reply(&Err(FlarenvError::NotFound("workspace w".into()))),
        ChannelReply::Failed("not found: workspace w".into())
    );
}

#[test]
fn errors_describe_themselves() {
    let cases = vec![
        (FlarenvError::AlreadyExists("x".into()), "already exists: x"),
        (FlarenvError::InvalidInput("x".into()), "invalid input: x"),
        (
            FlarenvError::Io(flarenv::IoFailure {
                not_found: true,
                message: "gone".into(),
            }),
            "io error: gone",
        ),
        (FlarenvError::NotFound("x".into()), "not found: x"),
        (
            FlarenvError::PreconditionFailed("x".into()),
            "precondition failed: x",
        ),
        (FlarenvError::Storage("x".into()), "storage error: x"),
        (FlarenvError::Execution("x".into()), "execution error: x"),
    ];
    for (error, text) in cases {
        assert_eq!(error.describe(), text);
    }
}

#[test]
fn clock_reads_after_the_epoch() {
    let now = flarenv::model::now_nanos();
    assert!(now > 1_600_000_000i128 * 1_000_000_000);
}

#[test]
fn channel_requests_need_an_authenticated_principal() {
    assert_eq!(channel_refusal(&None), Some(ChannelReply::Refused));
    assert_eq!(channel_refusal(&Some("agent:key".to_string())), None);
}

#[test]
fn idle_connections_are_kept_an_hour() {
    assert_eq!(INACTIVITY_TIMEOUT_SECS, 3600);
}
