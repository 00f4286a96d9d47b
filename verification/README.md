# Flarenv

Flarenv manages agent workspaces on a host: btrfs-backed writable roots
with snapshots and branches, sessions run in `systemd-nspawn` with cgroup
limits and a network policy, a fixed read-only Nix toolset shared by every
workspace, and SSH-compatible routing of sessions into workspaces.

This crate is the control plane, written in Verus. Its functions carry
`requires`/`ensures` contracts over mathematical models (sequences, maps and
sets of plain values), and Verus proves the code against them.

## Layout

- `src/` — the verified library.
  - `control.rs`: workspace metadata and the control plane (create,
    snapshot, branch, soft-delete, purge, limits, policies, sessions,
    garbage-collection actions). Every operation keeps branches attached to
    recorded snapshots and workspaces attached to recorded policies.
  - `gc.rs`: planning garbage collection, with the proof that a plan is
    always accepted by the metadata it was made from.
  - `metadata.rs`: the metadata file format, with the proof that what is
    written reads back (times kept to the second).
  - `storage.rs`, `executor.rs`, `command.rs`: storage and executor
    interfaces, the in-memory implementations, and the exact `btrfs` and
    `systemd-nspawn` invocations.
  - `frontend.rs`, `wire.rs`: authorizing principals and the decisions of
    the SSH frontend.
  - `runtime.rs`: counting session events.
  - `usage.rs`: capacity accounting and reading `btrfs qgroup` output.
  - `preflight.rs`, `config.rs`, `layout.rs`: host checks, configuration and
    the layout of a workspace root.
  - `ids.rs`, `model.rs`, `network.rs`, `nix_profile.rs`, `error.rs`: the
    records.
  - `table.rs`, `text.rs`, `parse.rs`: sorted tables keyed by text, text and
    path helpers, and the line, field and number reading the formats use.
- `app/` — the `flarenvd` daemon: environment, processes, files and the SSH
  protocol, around the library.
- `tests/` — tests of the library.
