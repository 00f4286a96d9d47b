//! The fixed, read-only Nix toolset shared by every workspace.

use crate::error::{fails_invalid_input, FlarenvError, Result};
use crate::text::{chars_of, concat, string_from};
use vstd::prelude::*;

verus! {

/// Where the Nix store and the shared profile live on the host.
#[derive(Debug, Eq, PartialEq)]
pub struct FixedNixProfile {
    pub store_path: String,
    pub profile_path: String,
}

/// A path is absolute when it starts at the root.
pub open spec fn is_absolute(p: Seq<char>) -> bool {
    p.len() > 0 && p[0] == '/'
}

/// Whether `path` is absolute.
pub fn path_is_absolute(path: &str) -> (r: bool)
    ensures
        r == is_absolute(path@),
{
    let cs = chars_of(path);
    cs.len() > 0 && cs[0] == '/'
}

/// Checks that `path` is absolute; the error names `name`.
fn validate_absolute(name: &str, path: &str) -> (r: Result<()>)
    ensures
        r is Ok <==> is_absolute(path@),
        r matches Err(e) ==> e matches FlarenvError::InvalidInput(m) && m@ == name@
            + " must be absolute"@,
{
    if !path_is_absolute(path) {
        return Err(FlarenvError::InvalidInput(concat(name, " must be absolute")));
    }
    Ok(())
}

/// The message of the error for a profile whose paths are not both
/// absolute: it names the store path first.
pub open spec fn path_error_message(p: FixedNixProfile) -> Seq<char> {
    (if !is_absolute(p.store_path@) {
        "store_path"@
    } else {
        "profile_path"@
    }) + " must be absolute"@
}

impl FixedNixProfile {
    /// A profile with the given store and profile paths.
    pub fn new(store_path: &str, profile_path: &str) -> (r: Self)
        ensures
            r.store_path@ == store_path@,
            r.profile_path@ == profile_path@,
    {
        FixedNixProfile { store_path: string_from(store_path), profile_path: string_from(profile_path) }
    }

    /// Checks that both paths are absolute, the store path first.
    pub fn validate_paths(&self) -> (r: Result<()>)
        ensures
            r is Ok <==> is_absolute(self.store_path@) && is_absolute(self.profile_path@),
            r is Err ==> fails_invalid_input(r, path_error_message(*self)),
    {
        validate_absolute("store_path", self.store_path.as_str())?;
        validate_absolute("profile_path", self.profile_path.as_str())?;
        Ok(())
    }
}

impl Default for FixedNixProfile {
    fn default() -> (r: Self)
        ensures
            r.store_path@ == "/nix/store"@,
            r.profile_path@ == "/nix/var/nix/profiles/flarenv/global"@,
    {
        Self::new("/nix/store", "/nix/var/nix/profiles/flarenv/global")
    }
}

impl Clone for FixedNixProfile {
    fn clone(&self) -> (r: Self)
        ensures
            r == *self,
    {
        FixedNixProfile { store_path: self.store_path.clone(), profile_path: self.profile_path.clone() }
    }
}

} // verus!
