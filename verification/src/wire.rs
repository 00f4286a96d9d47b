//! The decisions of the SSH wire frontend: how a connecting key becomes a
//! principal, how sessions are named, what an exec request runs and what
//! the client is answered. The daemon speaks the protocol.

use crate::error::{error_text, Result};
use crate::executor::SessionExit;
use crate::frontend::{AllowListAuthorizer, SessionAuthorizer};
use crate::ids::{id_char, id_valid, SessionId, WorkspaceId};
use crate::parse::{is_digit, lemma_decimal_is_digits};
use crate::text::{concat, decimal, format_decimal, string_from};
use vstd::prelude::*;

verus! {

/// The identifier of the session numbered `n`.
pub open spec fn ssh_session_name(n: nat) -> Seq<char> {
    "ssh_"@ + decimal(n)
}

/// The session identifier for session number `n`: "ssh_" then the number.
pub fn ssh_session_id(n: u64) -> (r: Result<SessionId>)
    ensures
        r matches Ok(id) && id@ == ssh_session_name(n as nat),
{
    let digits = format_decimal(n as u128);
    let name = concat("ssh_", digits.as_str());
    proof {
        reveal_strlit("ssh_");
        lemma_decimal_is_digits(n as nat);
        let s = ssh_session_name(n as nat);
        assert forall|i: int| 0 <= i < s.len() implies id_char(#[trigger] s[i]) by {
            if i >= 4 {
                assert(s[i] == decimal(n as nat)[i - 4]);
                assert(is_digit(decimal(n as nat)[i - 4]));
            }
        }
        assert(id_valid(s));
    }
    SessionId::new(name.as_str())
}

/// What an exec request with command text `command` runs: a login shell
/// given the text.
pub open spec fn exec_words(command: Seq<char>) -> Seq<Seq<char>> {
    seq!["/bin/sh"@, "-lc"@, command]
}

/// The argument vector of an exec request.
pub fn exec_argv(command: String) -> (r: Vec<String>)
    ensures
        r@.map_values(|s: String| s@) == exec_words(command@),
{
    let mut v: Vec<String> = Vec::new();
    v.push(string_from("/bin/sh"));
    v.push(string_from("-lc"));
    v.push(command);
    assert(v@.map_values(|s: String| s@) =~= exec_words(command@));
    v
}

/// The principal a user connecting with a key is known as: the user, a
/// colon, the key.
pub open spec fn principal_label(user: Seq<char>, key: Seq<char>) -> Seq<char> {
    user + ":"@ + key
}

/// Authenticates `user` with the OpenSSH text of the offered key, when the
/// key could be written out: the key must be granted the workspace. On
/// success the result is the principal the connection is known as.
pub fn authenticate(
    authorizer: &AllowListAuthorizer,
    workspace_id: &WorkspaceId,
    user: &str,
    key: Option<String>,
) -> (r: Option<String>)
    ensures
        match key {
            Some(k) => if authorizer.granted(k@, workspace_id@) {
                r matches Some(p) && p@ == principal_label(user@, k@)
            } else {
                r is None
            },
            None => r is None,
        },
{
    match key {
        Some(k) => {
            if authorizer.can_open(k.as_str(), workspace_id) {
                let mut label = concat(user, ":");
                crate::text::append_str(&mut label, k.as_str());
                Some(label)
            } else {
                None
            }
        },
        None => None,
    }
}

/// The exit status sent to the client for an exit code: negative codes
/// become 0.
pub open spec fn exit_status(code: i32) -> u32 {
    if code < 0 {
        0
    } else {
        code as u32
    }
}

/// What the client of a session channel is answered.
#[derive(Clone, Debug, PartialEq, Eq)]
pub enum ChannelReply {
    /// The channel request is refused without a word.
    Refused,
    /// The channel request fails with a message on standard error.
    Failed(String),
    /// The session ran and exited with a status.
    Exited(u32),
}

/// Seconds an idle connection is kept before the frontend closes it.
pub const INACTIVITY_TIMEOUT_SECS: u64 = 3600;

/// Whether a channel request may go on to open a session: when no principal
/// was authenticated on the connection, the reply that refuses it; `None`
/// when one was.
pub fn channel_refusal(principal: &Option<String>) -> (r: Option<ChannelReply>)
    ensures
        principal is None <==> r is Some,
        r matches Some(reply) ==> reply is Refused,
{
    match principal {
        Some(_) => None,
        None => Some(ChannelReply::Refused),
    }
}

/// The reply for the outcome of opening a session.
pub fn session_reply(outcome: &Result<SessionExit>) -> (r: ChannelReply)
    ensures
        match outcome {
            Ok(exit) => r == ChannelReply::Exited(exit_status(exit.code)),
            Err(e) => r matches ChannelReply::Failed(m) && m@ == error_text(*e),
        },
{
    match outcome {
        Ok(exit) => {
            let status: u32 = if exit.code < 0 {
                0
            } else {
                exit.code as u32
            };
            ChannelReply::Exited(status)
        },
        Err(e) => ChannelReply::Failed(e.describe()),
    }
}

} // verus!
