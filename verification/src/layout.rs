//! The directories and profile links that make a workspace root look like
//! a Linux system. The library lists them; the daemon creates them.

use crate::text::{join_path, path_join};
use vstd::prelude::*;

verus! {

/// Where the shared profile appears inside every workspace.
pub const GUEST_PROFILE_PATH: &'static str = "/run/current-system/sw";

/// A link inside a workspace root into the shared profile.
#[derive(Clone, Debug, Eq, PartialEq)]
pub struct ProfileLink {
    pub link: String,
    pub target: String,
}

/// The directories to create under a workspace root, and the links to add
/// where nothing exists yet.
#[derive(Clone, Debug, Eq, PartialEq)]
pub struct RootLayout {
    pub dirs: Vec<String>,
    pub links: Vec<ProfileLink>,
}

/// The directories of a workspace root `root`, in the order they are
/// created.
pub open spec fn layout_dirs(root: Seq<char>) -> Seq<Seq<char>> {
    seq![
        path_join(path_join(root, "home"@), "agent"@),
        path_join(root, "run"@),
        path_join(root, "tmp"@),
        path_join(root, "usr"@),
        path_join(path_join(root, "var"@), "tmp"@),
    ]
}

/// The profile links of a workspace root `root`: link and target, in the
/// order they are made.
pub open spec fn layout_links(root: Seq<char>) -> Seq<(Seq<char>, Seq<char>)> {
    seq![
        (path_join(root, "bin"@), path_join(GUEST_PROFILE_PATH@, "bin"@)),
        (path_join(path_join(root, "usr"@), "bin"@), path_join(GUEST_PROFILE_PATH@, "bin"@)),
        (path_join(root, "lib"@), path_join(GUEST_PROFILE_PATH@, "lib"@)),
    ]
}

/// The link of a profile link as a pair.
pub open spec fn link_pair(l: ProfileLink) -> (Seq<char>, Seq<char>) {
    (l.link@, l.target@)
}

fn profile_link(link: String, child: &str) -> (r: ProfileLink)
    ensures
        r.link == link,
        r.target@ == path_join(GUEST_PROFILE_PATH@, child@),
{
    ProfileLink { link, target: join_path(GUEST_PROFILE_PATH, child) }
}

/// The layout of workspace root `root`.
pub fn workspace_root_layout(root: &str) -> (r: RootLayout)
    ensures
        r.dirs@.map_values(|d: String| d@) == layout_dirs(root@),
        r.links@.map_values(|l: ProfileLink| link_pair(l)) == layout_links(root@),
{
    let home = join_path(root, "home");
    let var = join_path(root, "var");
    let usr = join_path(root, "usr");
    let mut dirs: Vec<String> = Vec::new();
    dirs.push(join_path(home.as_str(), "agent"));
    dirs.push(join_path(root, "run"));
    dirs.push(join_path(root, "tmp"));
    dirs.push(join_path(root, "usr"));
    dirs.push(join_path(var.as_str(), "tmp"));
    let mut links: Vec<ProfileLink> = Vec::new();
    links.push(profile_link(join_path(root, "bin"), "bin"));
    links.push(profile_link(join_path(usr.as_str(), "bin"), "bin"));
    links.push(profile_link(join_path(root, "lib"), "lib"));
    assert(dirs@.map_values(|d: String| d@) =~= layout_dirs(root@));
    assert(links@.map_values(|l: ProfileLink| link_pair(l)) =~= layout_links(root@));
    RootLayout { dirs, links }
}

} // verus!
