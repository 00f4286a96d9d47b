//! Validated identifiers. An identifier is a non-empty string of ASCII
//! letters, digits, '-' and '_', so it can never name a path outside the
//! directory it is joined to.

use crate::error::{FlarenvError, Result};
use crate::text::{chars_of, concat, string_from};
use vstd::prelude::*;

verus! {

/// A character allowed in an identifier.
pub open spec fn id_char(c: char) -> bool {
    let u = c as u32;
    (48 <= u <= 57) || (65 <= u <= 90) || (97 <= u <= 122) || u == 45 || u == 95
}

/// A well-formed identifier.
pub open spec fn id_valid(s: Seq<char>) -> bool {
    s.len() > 0 && forall|i: int| 0 <= i < s.len() ==> id_char(#[trigger] s[i])
}

/// The message of the error that validating `value` as an identifier of kind
/// `kind` gives.
pub open spec fn id_error_message(kind: Seq<char>, value: Seq<char>) -> Seq<char> {
    if value.len() == 0 {
        kind + " cannot be empty"@
    } else {
        kind + " must contain only ASCII letters, numbers, '-' or '_'"@
    }
}

/// Whether the character is allowed in an identifier.
fn is_id_char(c: char) -> (r: bool)
    ensures
        r == id_char(c),
{
    let u = c as u32;
    (48 <= u && u <= 57) || (65 <= u && u <= 90) || (97 <= u && u <= 122) || u == 45 || u == 95
}

/// Checks that `value` is a well-formed identifier; the error names `kind`.
pub fn validate_id(kind: &str, value: &str) -> (r: Result<()>)
    ensures
        r is Ok <==> id_valid(value@),
        r matches Err(e) ==> e matches FlarenvError::InvalidInput(m) && m@ == id_error_message(
            kind@,
            value@,
        ),
{
    let cs = chars_of(value);
    if cs.len() == 0 {
        return Err(FlarenvError::InvalidInput(concat(kind, " cannot be empty")));
    }
    let mut i: usize = 0;
    while i < cs.len()
        invariant
            cs@ == value@,
            i <= cs.len(),
            forall|j: int| 0 <= j < i ==> id_char(#[trigger] cs@[j]),
        decreases cs.len() - i,
    {
        if !is_id_char(cs[i]) {
            return Err(
                FlarenvError::InvalidInput(
                    concat(kind, " must contain only ASCII letters, numbers, '-' or '_'"),
                ),
            );
        }
        i += 1;
    }
    Ok(())
}

/// Identifier of an agent.
#[derive(Debug, Eq, Hash, Ord, PartialEq, PartialOrd)]
pub struct AgentId(String);

impl View for AgentId {
    type V = Seq<char>;

    closed spec fn view(&self) -> Seq<char> {
        self.0@
    }
}

impl AgentId {
    #[verifier::type_invariant]
    spec fn well_formed(&self) -> bool {
        id_valid(self.0@)
    }

    /// Validates `value` as an identifier.
    pub fn new(value: &str) -> (r: Result<Self>)
        ensures
            r is Ok <==> id_valid(value@),
            r matches Ok(id) ==> id@ == value@,
            r matches Err(e) ==> e matches FlarenvError::InvalidInput(m) && m@ == id_error_message(
                "AgentId"@,
                value@,
            ),
    {
        validate_id("AgentId", value)?;
        Ok(AgentId(string_from(value)))
    }

    /// The identifier's text.
    pub fn as_str(&self) -> (r: &str)
        ensures
            r@ == self@,
            id_valid(r@),
    {
        proof {
            use_type_invariant(self);
        }
        self.0.as_str()
    }
}

impl Clone for AgentId {
    fn clone(&self) -> (r: Self)
        ensures
            r == *self,
    {
        proof {
            use_type_invariant(self);
        }
        AgentId(self.0.clone())
    }
}

/// Identifier of a workspace.
#[derive(Debug, Eq, Hash, Ord, PartialEq, PartialOrd)]
pub struct WorkspaceId(String);

impl View for WorkspaceId {
    type V = Seq<char>;

    closed spec fn view(&self) -> Seq<char> {
        self.0@
    }
}

impl WorkspaceId {
    #[verifier::type_invariant]
    spec fn well_formed(&self) -> bool {
        id_valid(self.0@)
    }

    /// Validates `value` as an identifier.
    pub fn new(value: &str) -> (r: Result<Self>)
        ensures
            r is Ok <==> id_valid(value@),
            r matches Ok(id) ==> id@ == value@,
            r matches Err(e) ==> e matches FlarenvError::InvalidInput(m) && m@ == id_error_message(
                "WorkspaceId"@,
                value@,
            ),
    {
        validate_id("WorkspaceId", value)?;
        Ok(WorkspaceId(string_from(value)))
    }

    /// The identifier's text.
    pub fn as_str(&self) -> (r: &str)
        ensures
            r@ == self@,
            id_valid(r@),
    {
        proof {
            use_type_invariant(self);
        }
        self.0.as_str()
    }
}

impl crate::table::Keyed for WorkspaceId {
    open spec fn key(&self) -> Seq<char> {
        self@
    }

    fn key_str(&self) -> (r: &str) {
        self.as_str()
    }
}

impl Clone for WorkspaceId {
    fn clone(&self) -> (r: Self)
        ensures
            r == *self,
    {
        proof {
            use_type_invariant(self);
        }
        WorkspaceId(self.0.clone())
    }
}

/// Identifier of a workspace snapshot.
#[derive(Debug, Eq, Hash, Ord, PartialEq, PartialOrd)]
pub struct SnapshotId(String);

impl View for SnapshotId {
    type V = Seq<char>;

    closed spec fn view(&self) -> Seq<char> {
        self.0@
    }
}

impl SnapshotId {
    #[verifier::type_invariant]
    spec fn well_formed(&self) -> bool {
        id_valid(self.0@)
    }

    /// Validates `value` as an identifier.
    pub fn new(value: &str) -> (r: Result<Self>)
        ensures
            r is Ok <==> id_valid(value@),
            r matches Ok(id) ==> id@ == value@,
            r matches Err(e) ==> e matches FlarenvError::InvalidInput(m) && m@ == id_error_message(
                "SnapshotId"@,
                value@,
            ),
    {
        validate_id("SnapshotId", value)?;
        Ok(SnapshotId(string_from(value)))
    }

    /// The identifier's text.
    pub fn as_str(&self) -> (r: &str)
        ensures
            r@ == self@,
            id_valid(r@),
    {
        proof {
            use_type_invariant(self);
        }
        self.0.as_str()
    }
}

impl Clone for SnapshotId {
    fn clone(&self) -> (r: Self)
        ensures
            r == *self,
    {
        proof {
            use_type_invariant(self);
        }
        SnapshotId(self.0.clone())
    }
}

/// Identifier of a network policy.
#[derive(Debug, Eq, Hash, Ord, PartialEq, PartialOrd)]
pub struct PolicyId(String);

impl View for PolicyId {
    type V = Seq<char>;

    closed spec fn view(&self) -> Seq<char> {
        self.0@
    }
}

impl PolicyId {
    #[verifier::type_invariant]
    spec fn well_formed(&self) -> bool {
        id_valid(self.0@)
    }

    /// Validates `value` as an identifier.
    pub fn new(value: &str) -> (r: Result<Self>)
        ensures
            r is Ok <==> id_valid(value@),
            r matches Ok(id) ==> id@ == value@,
            r matches Err(e) ==> e matches FlarenvError::InvalidInput(m) && m@ == id_error_message(
                "PolicyId"@,
                value@,
            ),
    {
        validate_id("PolicyId", value)?;
        Ok(PolicyId(string_from(value)))
    }

    /// The identifier's text.
    pub fn as_str(&self) -> (r: &str)
        ensures
            r@ == self@,
            id_valid(r@),
    {
        proof {
            use_type_invariant(self);
        }
        self.0.as_str()
    }
}

impl Clone for PolicyId {
    fn clone(&self) -> (r: Self)
        ensures
            r == *self,
    {
        proof {
            use_type_invariant(self);
        }
        PolicyId(self.0.clone())
    }
}

/// Identifier of a session.
#[derive(Debug, Eq, Hash, Ord, PartialEq, PartialOrd)]
pub struct SessionId(String);

impl View for SessionId {
    type V = Seq<char>;

    closed spec fn view(&self) -> Seq<char> {
        self.0@
    }
}

impl SessionId {
    #[verifier::type_invariant]
    spec fn well_formed(&self) -> bool {
        id_valid(self.0@)
    }

    /// Validates `value` as an identifier.
    pub fn new(value: &str) -> (r: Result<Self>)
        ensures
            r is Ok <==> id_valid(value@),
            r matches Ok(id) ==> id@ == value@,
            r matches Err(e) ==> e matches FlarenvError::InvalidInput(m) && m@ == id_error_message(
                "SessionId"@,
                value@,
            ),
    {
        validate_id("SessionId", value)?;
        Ok(SessionId(string_from(value)))
    }

    /// The identifier's text.
    pub fn as_str(&self) -> (r: &str)
        ensures
            r@ == self@,
            id_valid(r@),
    {
        proof {
            use_type_invariant(self);
        }
        self.0.as_str()
    }
}

impl Clone for SessionId {
    fn clone(&self) -> (r: Self)
        ensures
            r == *self,
    {
        proof {
            use_type_invariant(self);
        }
        SessionId(self.0.clone())
    }
}

} // verus!
