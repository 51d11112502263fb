//! Per-connection signaling state and the authentication gate.

use vstd::prelude::*;
use vstd::string::*;

use crate::error::LiveError;
use crate::config;
use crate::hubs::user::{user_ids, user_index, UserHub};
use crate::protocol::opcode::client;
use crate::protocol::sdp::{trim, trim_of};

verus! {

/// What one WebSocket connection has established so far.
pub struct Session {
    /// Set by a successful IDENTIFY.
    pub user_id: Option<String>,
    pub current_channel: Option<String>,
    pub current_ssrc: Option<u32>,
    /// Ufrag of the endpoint to remove on cleanup.
    pub current_ufrag: Option<String>,
}

impl Session {
    /// A fresh, unidentified session.
    pub fn new() -> (r: Session)
        ensures
            r.user_id is None,
            r.current_channel is None,
            r.current_ssrc is None,
            r.current_ufrag is None,
    {
        Session { user_id: None, current_channel: None, current_ssrc: None, current_ufrag: None }
    }

    /// Whether IDENTIFY has succeeded.
    pub fn is_authenticated(&self) -> (r: bool)
        ensures
            r == (self.user_id is Some),
    {
        self.user_id.is_some()
    }
}

/// Every opcode but IDENTIFY and HEARTBEAT needs an identified session.
pub open spec fn needs_identity(op: u8) -> bool {
    op != client::IDENTIFY && op != client::HEARTBEAT
}

/// The authentication gate: `NotAuthenticated` for an opcode that needs an
/// identified session when there is none; otherwise the frame may be handled.
pub fn check_auth(session: &Session, op: u8) -> (r: Result<(), LiveError>)
    ensures
        needs_identity(op) && session.user_id is None ==> r matches Err(LiveError::NotAuthenticated),
        !(needs_identity(op) && session.user_id is None) ==> r is Ok,
{
    if op != client::IDENTIFY && op != client::HEARTBEAT && !session.is_authenticated() {
        Err(LiveError::NotAuthenticated)
    } else {
        Ok(())
    }
}

/// Trace name of a client opcode.
pub open spec fn op_name(op: u8) -> Seq<char> {
    if op == client::IDENTIFY {
        "IDENTIFY"@
    } else if op == client::CHANNEL_CREATE {
        "CHANNEL_CREATE"@
    } else if op == client::CHANNEL_JOIN {
        "CHANNEL_JOIN"@
    } else if op == client::CHANNEL_LEAVE {
        "CHANNEL_LEAVE"@
    } else if op == client::CHANNEL_LIST {
        "CHANNEL_LIST"@
    } else if op == client::MESSAGE_CREATE {
        "MESSAGE_CREATE"@
    } else if op == client::FLOOR_REQUEST {
        "FLOOR_REQUEST"@
    } else if op == client::FLOOR_RELEASE {
        "FLOOR_RELEASE"@
    } else if op == client::FLOOR_PING {
        "FLOOR_PING"@
    } else {
        "UNKNOWN"@
    }
}

/// Trace name and summary of a received frame: `user=<id>` (`-` when not
/// identified), preceded by `op=<n> ` for an unknown opcode.
pub fn op_meta_in(op: u8, user_id: Option<&str>) -> (r: (&'static str, String))
    ensures
        r.0@ == op_name(op),
        op_name(op) != "UNKNOWN"@ ==> r.1@ == "user="@ + (match user_id {
            Some(u) => u@,
            None => "-"@,
        }),
        op_name(op) == "UNKNOWN"@ ==> r.1@ == "op="@ + crate::utils::dec_digits(op as nat) + " user="@ + (
        match user_id {
            Some(u) => u@,
            None => "-"@,
        }),
{
    let uid = match user_id {
        Some(u) => u,
        None => "-",
    };
    let name = if op == client::IDENTIFY {
        "IDENTIFY"
    } else if op == client::CHANNEL_CREATE {
        "CHANNEL_CREATE"
    } else if op == client::CHANNEL_JOIN {
        "CHANNEL_JOIN"
    } else if op == client::CHANNEL_LEAVE {
        "CHANNEL_LEAVE"
    } else if op == client::CHANNEL_LIST {
        "CHANNEL_LIST"
    } else if op == client::MESSAGE_CREATE {
        "MESSAGE_CREATE"
    } else if op == client::FLOOR_REQUEST {
        "FLOOR_REQUEST"
    } else if op == client::FLOOR_RELEASE {
        "FLOOR_RELEASE"
    } else if op == client::FLOOR_PING {
        "FLOOR_PING"
    } else {
        "UNKNOWN"
    };
    let summary = if str_eq_lit_unknown(name) {
        "op=".to_owned().concat(crate::utils::decimal_string(op as u64).as_str()).concat(" user=").concat(uid)
    } else {
        "user=".to_owned().concat(uid)
    };
    (name, summary)
}

fn str_eq_lit_unknown(name: &str) -> (r: bool)
    ensures
        r == (name@ == "UNKNOWN"@),
{
    crate::utils::str_eq(name, "UNKNOWN")
}

/// Checks a chat message before fan-out: blank content (after trimming) is
/// `EmptyMessage`; more than the maximum length in bytes is
/// `MessageTooLong`; a channel other than the session's is
/// `MessageNotInChannel`.
pub fn validate_message(session: &Session, channel_id: &str, content: &str) -> (r: Result<(), LiveError>)
    ensures
        trim_of(content@).len() == 0 ==> r matches Err(LiveError::EmptyMessage),
        trim_of(content@).len() > 0 && content.len() > config::MAX_MESSAGE_LENGTH ==> (r matches Err(
            LiveError::MessageTooLong(n),
        ) && n == content.len()),
        trim_of(content@).len() > 0 && content.len() <= config::MAX_MESSAGE_LENGTH && !(
        session.current_channel matches Some(c) && c@ == channel_id@) ==> (r matches Err(
            LiveError::MessageNotInChannel(id),
        ) && id@ == channel_id@),
        trim_of(content@).len() > 0 && content.len() <= config::MAX_MESSAGE_LENGTH && (
        session.current_channel matches Some(c) && c@ == channel_id@) ==> r is Ok,
{
    let trimmed = trim(content);
    if trimmed.as_str().is_empty() {
        return Err(LiveError::EmptyMessage);
    }
    let len = content.len();
    if len > config::MAX_MESSAGE_LENGTH {
        return Err(LiveError::MessageTooLong(len));
    }
    let here = match &session.current_channel {
        Some(c) => crate::utils::str_eq(c.as_str(), channel_id),
        None => false,
    };
    if !here {
        return Err(LiveError::MessageNotInChannel(channel_id.to_owned()));
    }
    Ok(())
}

/// IDENTIFY at `now`: a token other than the shared secret is refused with
/// `InvalidToken` and changes nothing; otherwise the user is registered
/// (replacing an earlier session of the same id) with the stated priority,
/// or the default one, and the session becomes identified.
pub fn identify_at(
    session: &mut Session,
    users: &mut UserHub,
    user_id: &str,
    token: &str,
    secret: &str,
    priority: Option<u8>,
    now: u64,
) -> (r: Result<(), LiveError>)
    requires
        old(users).wf(),
    ensures
        final(users).wf(),
        token@ != secret@ ==> (r matches Err(LiveError::InvalidToken)) && *final(session) == *old(session)
            && final(users).users@ == old(users).users@,
        token@ == secret@ ==> ({
            let p = match priority {
                Some(p) => p,
                None => config::FLOOR_PRIORITY_DEFAULT,
            };
            let k = user_index(final(users).users@, user_id@);
            &&& r is Ok
            &&& final(session).user_id matches Some(u) && u@ == user_id@
            &&& final(session).current_channel == old(session).current_channel
            &&& user_ids(final(users).users@) == user_ids(old(users).users@).insert(user_id@)
            &&& final(users).users@[k].priority == p
            &&& final(users).users@[k].last_seen == now
        }),
{
    if !crate::utils::str_eq(token, secret) {
        return Err(LiveError::InvalidToken);
    }
    let p = match priority {
        Some(p) => p,
        None => config::FLOOR_PRIORITY_DEFAULT,
    };
    users.register_at(user_id, p, now);
    session.user_id = Some(user_id.to_owned());
    Ok(())
}

} // verus!
