//! Observation records of signaling activity.

use vstd::prelude::*;

use crate::utils::current_timestamp;

verus! {

/// Direction of an observed event.
#[derive(Debug, Clone, Copy, PartialEq, Eq, Structural)]
pub enum TraceDir {
    /// Client to server.
    In,
    /// Server to client.
    Out,
    /// Inside the server (reaper revokes).
    Sys,
}

impl TraceDir {
    /// Lower-case wire name.
    pub fn as_str(&self) -> (r: &'static str)
        ensures
            *self == TraceDir::In ==> r@ == "in"@,
            *self == TraceDir::Out ==> r@ == "out"@,
            *self == TraceDir::Sys ==> r@ == "sys"@,
    {
        match self {
            TraceDir::In => "in",
            TraceDir::Out => "out",
            TraceDir::Sys => "sys",
        }
    }
}

/// One observed signaling event.
#[derive(Debug)]
pub struct TraceEvent {
    /// Unix milliseconds.
    pub ts: u64,
    pub dir: TraceDir,
    pub channel_id: Option<String>,
    pub user_id: Option<String>,
    pub op: u8,
    pub op_name: String,
    pub summary: String,
}

/// The owned copy of an optional string.
fn owned(s: Option<&str>) -> (r: Option<String>)
    ensures
        match s {
            Some(x) => r matches Some(y) && y@ == x@,
            None => r is None,
        },
{
    match s {
        Some(x) => Some(x.to_owned()),
        None => None,
    }
}

impl TraceEvent {
    /// An event stamped `ts`.
    pub fn new_at(
        ts: u64,
        dir: TraceDir,
        channel_id: Option<&str>,
        user_id: Option<&str>,
        op: u8,
        op_name: &str,
        summary: String,
    ) -> (r: TraceEvent)
        ensures
            r.ts == ts,
            r.dir == dir,
            r.op == op,
            r.op_name@ == op_name@,
            r.summary == summary,
            match channel_id {
                Some(c) => r.channel_id matches Some(x) && x@ == c@,
                None => r.channel_id is None,
            },
            match user_id {
                Some(u) => r.user_id matches Some(x) && x@ == u@,
                None => r.user_id is None,
            },
    {
        TraceEvent {
            ts,
            dir,
            channel_id: owned(channel_id),
            user_id: owned(user_id),
            op,
            op_name: op_name.to_owned(),
            summary,
        }
    }

    /// An event stamped now, by the wall clock.
    pub fn new(
        dir: TraceDir,
        channel_id: Option<&str>,
        user_id: Option<&str>,
        op: u8,
        op_name: &str,
        summary: String,
    ) -> (r: TraceEvent)
        ensures
            r.dir == dir,
            r.op == op,
            r.op_name@ == op_name@,
            r.summary == summary,
            match channel_id {
                Some(c) => r.channel_id matches Some(x) && x@ == c@,
                None => r.channel_id is None,
            },
            match user_id {
                Some(u) => r.user_id matches Some(x) && x@ == u@,
                None => r.user_id is None,
            },
    {
        let ts = current_timestamp();
        TraceEvent::new_at(ts, dir, channel_id, user_id, op, op_name, summary)
    }
}

} // verus!
