//! Error taxonomy of the server and its numeric wire codes.

use vstd::prelude::*;
use vstd::string::*;

use crate::utils::{dec_digits, decimal_string};

verus! {

/// Every failure a handler can report to a client.
#[derive(Debug)]
pub enum LiveError {
    NotAuthenticated,
    InvalidToken,
    InvalidOpcode(u8),
    InvalidPayload(String),
    ChannelNotFound(String),
    ChannelFull(String),
    ChannelAccessDenied(String),
    AlreadyInChannel(String),
    NotInChannel(String),
    EmptyMessage,
    MessageTooLong(usize),
    MessageNotInChannel(String),
    InternalError(String),
    /// An I/O failure, carried as its description.
    IoError(String),
}

pub type LiveResult<T> = Result<T, LiveError>;

/// Wire code of each error: 1xxx authentication and framing, 2xxx channel,
/// 3xxx message, 9xxx internal.
pub open spec fn error_code(e: LiveError) -> u16 {
    match e {
        LiveError::NotAuthenticated => 1000,
        LiveError::InvalidToken => 1001,
        LiveError::InvalidOpcode(_) => 1003,
        LiveError::InvalidPayload(_) => 1004,
        LiveError::ChannelNotFound(_) => 2000,
        LiveError::ChannelFull(_) => 2001,
        LiveError::ChannelAccessDenied(_) => 2002,
        LiveError::AlreadyInChannel(_) => 2003,
        LiveError::NotInChannel(_) => 2004,
        LiveError::EmptyMessage => 3000,
        LiveError::MessageTooLong(_) => 3001,
        LiveError::MessageNotInChannel(_) => 3002,
        LiveError::InternalError(_) => 9000,
        LiveError::IoError(_) => 9000,
    }
}

/// Human-readable text of each error.
pub open spec fn error_message(e: LiveError) -> Seq<char> {
    match e {
        LiveError::NotAuthenticated => "Authentication required"@,
        LiveError::InvalidToken => "Invalid or expired token"@,
        LiveError::InvalidOpcode(op) => "Unknown opcode: "@ + dec_digits(op as nat),
        LiveError::InvalidPayload(m) => "Invalid payload: "@ + m@,
        LiveError::ChannelNotFound(id) => "Channel not found: "@ + id@,
        LiveError::ChannelFull(id) => "Channel is full: "@ + id@,
        LiveError::ChannelAccessDenied(id) => "Access denied to channel: "@ + id@,
        LiveError::AlreadyInChannel(id) => "Already in channel: "@ + id@,
        LiveError::NotInChannel(id) => "Not in channel: "@ + id@,
        LiveError::EmptyMessage => "Message content is empty"@,
        LiveError::MessageTooLong(n) => "Message too long: "@ + dec_digits(n as nat) + " chars"@,
        LiveError::MessageNotInChannel(id) => "Must join channel before messaging: "@ + id@,
        LiveError::InternalError(m) => "Internal server error: "@ + m@,
        LiveError::IoError(m) => "I/O error: "@ + m@,
    }
}

impl LiveError {
    /// The numeric wire code of this error.
    pub fn code(&self) -> (r: u16)
        ensures
            r == error_code(*self),
    {
        match self {
            LiveError::NotAuthenticated => 1000,
            LiveError::InvalidToken => 1001,
            LiveError::InvalidOpcode(_) => 1003,
            LiveError::InvalidPayload(_) => 1004,
            LiveError::ChannelNotFound(_) => 2000,
            LiveError::ChannelFull(_) => 2001,
            LiveError::ChannelAccessDenied(_) => 2002,
            LiveError::AlreadyInChannel(_) => 2003,
            LiveError::NotInChannel(_) => 2004,
            LiveError::EmptyMessage => 3000,
            LiveError::MessageTooLong(_) => 3001,
            LiveError::MessageNotInChannel(_) => 3002,
            LiveError::InternalError(_) => 9000,
            LiveError::IoError(_) => 9000,
        }
    }

    /// The human-readable text of this error.
    pub fn to_string(&self) -> (r: String)
        ensures
            r@ == error_message(*self),
    {
        match self {
            LiveError::NotAuthenticated => "Authentication required".to_owned(),
            LiveError::InvalidToken => "Invalid or expired token".to_owned(),
            LiveError::InvalidOpcode(op) => "Unknown opcode: ".to_owned().concat(
                decimal_string(*op as u64).as_str(),
            ),
            LiveError::InvalidPayload(m) => "Invalid payload: ".to_owned().concat(m.as_str()),
            LiveError::ChannelNotFound(id) => "Channel not found: ".to_owned().concat(id.as_str()),
            LiveError::ChannelFull(id) => "Channel is full: ".to_owned().concat(id.as_str()),
            LiveError::ChannelAccessDenied(id) => "Access denied to channel: ".to_owned().concat(
                id.as_str(),
            ),
            LiveError::AlreadyInChannel(id) => "Already in channel: ".to_owned().concat(id.as_str()),
            LiveError::NotInChannel(id) => "Not in channel: ".to_owned().concat(id.as_str()),
            LiveError::EmptyMessage => "Message content is empty".to_owned(),
            LiveError::MessageTooLong(n) => "Message too long: ".to_owned().concat(
                decimal_string(*n as u64).as_str(),
            ).concat(" chars"),
            LiveError::MessageNotInChannel(id) => "Must join channel before messaging: ".to_owned().concat(
                id.as_str(),
            ),
            LiveError::InternalError(m) => "Internal server error: ".to_owned().concat(m.as_str()),
            LiveError::IoError(m) => "I/O error: ".to_owned().concat(m.as_str()),
        }
    }
}

/// The wire code sent in an ERROR frame for `err`.
pub fn to_error_code(err: &LiveError) -> (r: u16)
    ensures
        r == error_code(*err),
{
    err.code()
}

/// Each wire code falls in the range of its family: 1000..1999, 2000..2999,
/// 3000..3999 or 9000..9999.
pub proof fn lemma_error_code_ranges(e: LiveError)
    ensures
        (1000 <= error_code(e) < 2000) || (2000 <= error_code(e) < 3000) || (3000 <= error_code(e)
            < 4000) || (9000 <= error_code(e) < 10000),
{
}

} // verus!
