//! Floor transitions driven by signaling events and reaper ticks.
//!
//! Each handler mutates the floor of one channel and returns, in sending
//! order, the frames to deliver. Nothing here waits on I/O: callers release
//! the floor before sending.

use vstd::prelude::*;

use crate::config;
use crate::hubs::floor::{
    enqueued, in_queue, timeout_cause, without_user, FloorControl, FloorControlState, FloorIndicator,
    RevokeCause,
};
use crate::utils::str_eq;

verus! {

/// Floor indicator as it travels on the wire.
#[derive(Debug, Clone, Copy, PartialEq, Eq, Structural)]
pub enum FloorIndicatorDto {
    Normal,
    Broadcast,
    ImminentPeril,
    Emergency,
}

/// A floor frame's content.
pub enum FloorMessage {
    /// The floor is granted to `user_id` for at most `duration` milliseconds.
    Granted { user_id: String, duration: u64 },
    /// `user_id` now holds the floor.
    Taken { user_id: String, indicator: FloorIndicator },
    /// Nobody holds the floor.
    Idle,
    /// The receiver lost the floor.
    Revoke { cause: RevokeCause },
    /// The receiver waits at 1-based `position` of a queue of `size`.
    QueuePosInfo { position: usize, size: usize },
    /// Answer to a liveness ping.
    Pong,
}

/// A frame and its audience: one user (`target`), or every member but
/// `exclude`.
pub struct FloorPacket {
    pub target: Option<String>,
    pub exclude: Option<String>,
    pub message: FloorMessage,
}

/// `p` is a grant frame to `uid` alone.
pub open spec fn is_granted_to(p: FloorPacket, uid: Seq<char>) -> bool {
    &&& p.target matches Some(t) && t@ == uid
    &&& p.exclude is None
    &&& match p.message {
        FloorMessage::Granted { user_id, duration } => user_id@ == uid && duration
            == config::FLOOR_MAX_TAKEN_MS,
        _ => false,
    }
}

/// `p` tells every member but `uid` that `uid` took the floor with `ind`.
pub open spec fn is_taken_by(p: FloorPacket, uid: Seq<char>, ind: FloorIndicator) -> bool {
    &&& p.target is None
    &&& p.exclude matches Some(x) && x@ == uid
    &&& match p.message {
        FloorMessage::Taken { user_id, indicator } => user_id@ == uid && indicator == ind,
        _ => false,
    }
}

/// `p` tells every member that the floor is idle.
pub open spec fn is_idle_broadcast(p: FloorPacket) -> bool {
    &&& p.target is None
    &&& p.exclude is None
    &&& p.message is Idle
}

/// `p` tells `uid` alone that it lost the floor for `cause`.
pub open spec fn is_revoke_to(p: FloorPacket, uid: Seq<char>, cause: RevokeCause) -> bool {
    &&& p.target matches Some(t) && t@ == uid
    &&& p.exclude is None
    &&& match p.message {
        FloorMessage::Revoke { cause: c } => c == cause,
        _ => false,
    }
}

/// `p` tells `uid` alone its queue position and the queue size.
pub open spec fn is_queue_info_to(p: FloorPacket, uid: Seq<char>, position: int, size: int) -> bool {
    &&& p.target matches Some(t) && t@ == uid
    &&& p.exclude is None
    &&& match p.message {
        FloorMessage::QueuePosInfo { position: q, size: n } => q == position && n == size,
        _ => false,
    }
}

/// `p` answers `uid`'s ping.
pub open spec fn is_pong_to(p: FloorPacket, uid: Seq<char>) -> bool {
    &&& p.target matches Some(t) && t@ == uid
    &&& p.exclude is None
    &&& p.message is Pong
}

/// `new` and `packets` are what `decide_next` makes of `old` at `now`: the
/// head of the queue takes the floor (a grant to it, then a taken notice to
/// the others), or, with an empty queue, the floor goes idle.
pub open spec fn next_decided(old: FloorControl, new: FloorControl, now: u64, packets: Seq<FloorPacket>) -> bool {
    if old.queue@.len() > 0 {
        let next = old.queue@[0];
        &&& new.is_holder(next.user_id@)
        &&& new.floor_taken_at == Some(now)
        &&& new.last_ping_at == now
        &&& new.floor_priority == next.priority
        &&& new.floor_indicator == next.indicator
        &&& new.queue@ == old.queue@.drop_first()
        &&& packets.len() == 2
        &&& is_granted_to(packets[0], next.user_id@)
        &&& is_taken_by(packets[1], next.user_id@, next.indicator)
    } else {
        &&& new.state == FloorControlState::Idle
        &&& new.floor_taken_by is None
        &&& new.floor_taken_at is None
        &&& new.queue@ == old.queue@
        &&& packets.len() == 1
        &&& is_idle_broadcast(packets[0])
    }
}

/// The wire form of an indicator.
pub fn indicator_to_dto(ind: &FloorIndicator) -> (r: FloorIndicatorDto)
    ensures
        *ind == FloorIndicator::Normal <==> r == FloorIndicatorDto::Normal,
        *ind == FloorIndicator::Broadcast <==> r == FloorIndicatorDto::Broadcast,
        *ind == FloorIndicator::ImminentPeril <==> r == FloorIndicatorDto::ImminentPeril,
        *ind == FloorIndicator::Emergency <==> r == FloorIndicatorDto::Emergency,
{
    match ind {
        FloorIndicator::Normal => FloorIndicatorDto::Normal,
        FloorIndicator::Broadcast => FloorIndicatorDto::Broadcast,
        FloorIndicator::ImminentPeril => FloorIndicatorDto::ImminentPeril,
        FloorIndicator::Emergency => FloorIndicatorDto::Emergency,
    }
}

/// The indicator a wire value stands for.
pub fn dto_to_indicator(dto: &FloorIndicatorDto) -> (r: FloorIndicator)
    ensures
        *dto == FloorIndicatorDto::Normal <==> r == FloorIndicator::Normal,
        *dto == FloorIndicatorDto::Broadcast <==> r == FloorIndicator::Broadcast,
        *dto == FloorIndicatorDto::ImminentPeril <==> r == FloorIndicator::ImminentPeril,
        *dto == FloorIndicatorDto::Emergency <==> r == FloorIndicator::Emergency,
{
    match dto {
        FloorIndicatorDto::Normal => FloorIndicator::Normal,
        FloorIndicatorDto::Broadcast => FloorIndicator::Broadcast,
        FloorIndicatorDto::ImminentPeril => FloorIndicator::ImminentPeril,
        FloorIndicatorDto::Emergency => FloorIndicator::Emergency,
    }
}

/// Whether `uid` holds the floor.
pub fn holds_floor(floor: &FloorControl, uid: &str) -> (r: bool)
    ensures
        r == floor.is_holder(uid@),
{
    if floor.state != FloorControlState::Taken {
        return false;
    }
    match &floor.floor_taken_by {
        Some(h) => str_eq(h.as_str(), uid),
        None => false,
    }
}

fn granted_packet(uid: &String) -> (p: FloorPacket)
    ensures
        is_granted_to(p, uid@),
{
    FloorPacket {
        target: Some(uid.clone()),
        exclude: None,
        message: FloorMessage::Granted { user_id: uid.clone(), duration: config::FLOOR_MAX_TAKEN_MS },
    }
}

fn taken_packet(uid: &String, indicator: FloorIndicator) -> (p: FloorPacket)
    ensures
        is_taken_by(p, uid@, indicator),
{
    FloorPacket {
        target: None,
        exclude: Some(uid.clone()),
        message: FloorMessage::Taken { user_id: uid.clone(), indicator },
    }
}

fn revoke_packet(uid: &String, cause: RevokeCause) -> (p: FloorPacket)
    ensures
        is_revoke_to(p, uid@, cause),
{
    FloorPacket { target: Some(uid.clone()), exclude: None, message: FloorMessage::Revoke { cause } }
}

/// Hands the floor on after its holder is gone: to the head of the queue,
/// or, with an empty queue, to nobody.
pub fn decide_next(floor: &mut FloorControl, now: u64) -> (packets: Vec<FloorPacket>)
    requires
        old(floor).wf(),
    ensures
        final(floor).wf(),
        next_decided(*old(floor), *final(floor), now, packets@),
{
    let mut packets: Vec<FloorPacket> = Vec::new();
    let ghost q0 = floor.queue@;
    match floor.dequeue_next() {
        Some(next) => {
            proof {
                assert(!in_queue(floor.queue@, next.user_id@)) by {
                    if in_queue(floor.queue@, next.user_id@) {
                        let k = choose|k: int|
                            0 <= k < floor.queue@.len() && (#[trigger] floor.queue@[k]).user_id@
                                == next.user_id@;
                        assert(q0[k + 1] == floor.queue@[k]);
                    }
                }
                assert forall|i: int, j: int| 0 <= i < j < floor.queue@.len() implies (#[trigger] floor.queue@[i]).priority
                    >= (#[trigger] floor.queue@[j]).priority by {
                    assert(q0[i + 1] == floor.queue@[i]);
                    assert(q0[j + 1] == floor.queue@[j]);
                }
                assert forall|i: int, j: int|
                    0 <= i < floor.queue@.len() && 0 <= j < floor.queue@.len() && i != j implies (#[trigger] floor.queue@[i]).user_id@
                    != (#[trigger] floor.queue@[j]).user_id@ by {
                    assert(q0[i + 1] == floor.queue@[i]);
                    assert(q0[j + 1] == floor.queue@[j]);
                }
            }
            let g = granted_packet(&next.user_id);
            let t = taken_packet(&next.user_id, next.indicator);
            packets.push(g);
            packets.push(t);
            floor.grant_at(next.user_id, next.priority, next.indicator, now);
        },
        None => {
            floor.clear_taken();
            packets.push(FloorPacket { target: None, exclude: None, message: FloorMessage::Idle });
        },
    }
    packets
}

/// A floor request by `user_id` at `now`.
///
/// On an idle floor the requester is granted. On a floor the requester
/// already holds nothing changes and the grant is repeated to it. When the
/// request may preempt, the old holder is revoked and the requester granted.
/// Otherwise the request is queued and the requester told its position.
/// A granted requester leaves the queue.
pub fn floor_request(
    floor: &mut FloorControl,
    user_id: &str,
    priority: u8,
    indicator: FloorIndicator,
    now: u64,
) -> (packets: Vec<FloorPacket>)
    requires
        old(floor).wf(),
    ensures
        final(floor).wf(),
        old(floor).state == FloorControlState::Idle ==> {
            &&& final(floor).is_holder(user_id@)
            &&& final(floor).floor_taken_at == Some(now)
            &&& final(floor).floor_priority == priority
            &&& final(floor).floor_indicator == indicator
            &&& final(floor).queue@ == without_user(old(floor).queue@, user_id@)
            &&& packets@.len() == 2
            &&& is_granted_to(packets@[0], user_id@)
            &&& is_taken_by(packets@[1], user_id@, indicator)
        },
        old(floor).is_holder(user_id@) ==> {
            &&& *final(floor) == *old(floor)
            &&& packets@.len() == 1
            &&& is_granted_to(packets@[0], user_id@)
        },
        old(floor).state == FloorControlState::Taken && !old(floor).is_holder(user_id@) && (
        indicator == FloorIndicator::Emergency || priority > old(floor).floor_priority) ==> {
            &&& final(floor).is_holder(user_id@)
            &&& final(floor).floor_taken_at == Some(now)
            &&& final(floor).floor_priority == priority
            &&& final(floor).floor_indicator == indicator
            &&& final(floor).queue@ == without_user(old(floor).queue@, user_id@)
            &&& packets@.len() == 3
            &&& is_revoke_to(packets@[0], old(floor).holder()->0, RevokeCause::Preempted)
            &&& is_granted_to(packets@[1], user_id@)
            &&& is_taken_by(packets@[2], user_id@, indicator)
        },
        old(floor).state == FloorControlState::Taken && !old(floor).is_holder(user_id@) && !(
        indicator == FloorIndicator::Emergency || priority > old(floor).floor_priority) ==> {
            &&& final(floor).state == old(floor).state
            &&& final(floor).floor_taken_by == old(floor).floor_taken_by
            &&& final(floor).floor_taken_at == old(floor).floor_taken_at
            &&& final(floor).last_ping_at == old(floor).last_ping_at
            &&& final(floor).floor_priority == old(floor).floor_priority
            &&& final(floor).floor_indicator == old(floor).floor_indicator
            &&& enqueued(old(floor).queue@, user_id@, priority, indicator, now, final(floor).queue@)
            &&& packets@.len() == 1
            &&& exists|pos: int|
                1 <= pos <= final(floor).queue@.len() && final(floor).queue@[pos - 1].user_id@
                    == user_id@ && is_queue_info_to(
                    packets@[0],
                    user_id@,
                    pos,
                    final(floor).queue@.len() as int,
                )
        },
{
    let mut packets: Vec<FloorPacket> = Vec::new();
    let uid = user_id.to_owned();
    if floor.state == FloorControlState::Idle {
        floor.remove_from_queue(user_id);
        proof {
            crate::hubs::floor::lemma_without_user_props(old(floor).queue@, user_id@);
        }
        packets.push(granted_packet(&uid));
        packets.push(taken_packet(&uid, indicator));
        floor.grant_at(uid, priority, indicator, now);
    } else if holds_floor(floor, user_id) {
        packets.push(granted_packet(&uid));
    } else if floor.can_preempt(priority, &indicator) {
        let old_holder = match &floor.floor_taken_by {
            Some(h) => h.clone(),
            None => String::new(),
        };
        packets.push(revoke_packet(&old_holder, RevokeCause::Preempted));
        floor.remove_from_queue(user_id);
        proof {
            crate::hubs::floor::lemma_without_user_props(old(floor).queue@, user_id@);
        }
        packets.push(granted_packet(&uid));
        packets.push(taken_packet(&uid, indicator));
        floor.grant_at(uid, priority, indicator, now);
    } else {
        floor.enqueue_at(uid, priority, indicator, now);
        let pos = floor.queue_position(user_id);
        let size = floor.queue.len();
        proof {
            crate::hubs::floor::lemma_enqueued_props(old(floor).queue@, user_id@, priority, indicator, now, floor.queue@);
        }
        let p = match pos {
            Some(p) => p,
            None => 1,
        };
        packets.push(
            FloorPacket {
                target: Some(user_id.to_owned()),
                exclude: None,
                message: FloorMessage::QueuePosInfo { position: p, size },
            },
        );
        proof {
            assert(pos is Some);
            assert(packets@[0].target->0@ == user_id@);
            assert(is_queue_info_to(packets@[0], user_id@, p as int, size as int));
            assert(floor.queue@[p - 1].user_id@ == user_id@);
        }
    }
    packets
}

/// A floor release by `user_id`: honoured only from the holder, then the
/// floor is handed on; anyone else is ignored.
pub fn floor_release(floor: &mut FloorControl, user_id: &str, now: u64) -> (packets: Vec<FloorPacket>)
    requires
        old(floor).wf(),
    ensures
        final(floor).wf(),
        old(floor).is_holder(user_id@) ==> next_decided(*old(floor), *final(floor), now, packets@),
        !old(floor).is_holder(user_id@) ==> *final(floor) == *old(floor) && packets@.len() == 0,
{
    if holds_floor(floor, user_id) {
        decide_next(floor, now)
    } else {
        Vec::new()
    }
}

/// A liveness ping by `user_id` at `now`: from the holder it is recorded and
/// answered; anyone else is ignored.
pub fn floor_ping(floor: &mut FloorControl, user_id: &str, now: u64) -> (packets: Vec<FloorPacket>)
    requires
        old(floor).wf(),
    ensures
        final(floor).wf(),
        old(floor).is_holder(user_id@) ==> {
            &&& final(floor).last_ping_at == now
            &&& final(floor).state == old(floor).state
            &&& final(floor).floor_taken_by == old(floor).floor_taken_by
            &&& final(floor).floor_taken_at == old(floor).floor_taken_at
            &&& final(floor).queue == old(floor).queue
            &&& packets@.len() == 1
            &&& is_pong_to(packets@[0], user_id@)
        },
        !old(floor).is_holder(user_id@) ==> *final(floor) == *old(floor) && packets@.len() == 0,
{
    let mut packets: Vec<FloorPacket> = Vec::new();
    if holds_floor(floor, user_id) {
        floor.on_ping_at(now);
        packets.push(FloorPacket { target: Some(user_id.to_owned()), exclude: None, message: FloorMessage::Pong });
    }
    packets
}

/// The reaper's check of one floor at `now`: a holder past the longest hold
/// or silent past the ping timeout is revoked with that cause, and the
/// floor is handed on.
pub fn check_floor_timeout(floor: &mut FloorControl, now: u64) -> (packets: Vec<FloorPacket>)
    requires
        old(floor).wf(),
    ensures
        final(floor).wf(),
        match timeout_cause(*old(floor), now) {
            None => *final(floor) == *old(floor) && packets@.len() == 0,
            Some(cause) => {
                &&& packets@.len() >= 1
                &&& is_revoke_to(packets@[0], old(floor).holder()->0, cause)
                &&& next_decided(*old(floor), *final(floor), now, packets@.drop_first())
            },
        },
{
    if floor.state != FloorControlState::Taken {
        return Vec::new();
    }
    let cause = if floor.is_max_taken_exceeded_at(now) {
        RevokeCause::MaxDuration
    } else if floor.is_ping_timeout_at(now) {
        RevokeCause::PingTimeout
    } else {
        return Vec::new();
    };
    let holder = match &floor.floor_taken_by {
        Some(h) => h.clone(),
        None => String::new(),
    };
    let mut packets: Vec<FloorPacket> = Vec::new();
    packets.push(revoke_packet(&holder, cause));
    let mut rest = decide_next(floor, now);
    let ghost decided = rest@;
    packets.append(&mut rest);
    proof {
        assert(packets@.drop_first() =~= decided);
    }
    packets
}

/// Cleanup of `user_id` leaving the channel: its queue entry goes, and if
/// it held the floor, the floor is handed on.
pub fn on_user_disconnect(floor: &mut FloorControl, user_id: &str, now: u64) -> (packets: Vec<FloorPacket>)
    requires
        old(floor).wf(),
    ensures
        final(floor).wf(),
        !in_queue(final(floor).queue@, user_id@),
        !final(floor).is_holder(user_id@),
        old(floor).is_holder(user_id@) ==> next_decided(*old(floor), *final(floor), now, packets@),
        !old(floor).is_holder(user_id@) ==> {
            &&& final(floor).queue@ == without_user(old(floor).queue@, user_id@)
            &&& final(floor).state == old(floor).state
            &&& final(floor).floor_taken_by == old(floor).floor_taken_by
            &&& final(floor).floor_taken_at == old(floor).floor_taken_at
            &&& packets@.len() == 0
        },
{
    floor.remove_from_queue(user_id);
    proof {
        crate::hubs::floor::lemma_without_user_props(old(floor).queue@, user_id@);
    }
    if holds_floor(floor, user_id) {
        let packets = decide_next(floor, now);
        proof {
            let q1 = without_user(old(floor).queue@, user_id@);
            assert(q1 == old(floor).queue@);
            if q1.len() > 0 {
                assert(!in_queue(q1, user_id@));
                assert(q1[0].user_id@ != user_id@);
            }
        }
        packets
    } else {
        Vec::new()
    }
}

/// An administrator's revoke: the queue is emptied and the floor goes idle;
/// the previous holder, if any, is told first, then every member.
pub fn admin_revoke(floor: &mut FloorControl) -> (packets: Vec<FloorPacket>)
    requires
        old(floor).wf(),
    ensures
        final(floor).wf(),
        final(floor).state == FloorControlState::Idle,
        final(floor).floor_taken_by is None,
        final(floor).queue@.len() == 0,
        old(floor).state == FloorControlState::Taken ==> {
            &&& packets@.len() == 2
            &&& is_revoke_to(packets@[0], old(floor).holder()->0, RevokeCause::AdminRevoke)
            &&& is_idle_broadcast(packets@[1])
        },
        old(floor).state == FloorControlState::Idle ==> packets@.len() == 1 && is_idle_broadcast(
            packets@[0],
        ),
{
    let mut packets: Vec<FloorPacket> = Vec::new();
    if floor.state == FloorControlState::Taken {
        let holder = match &floor.floor_taken_by {
            Some(h) => h.clone(),
            None => String::new(),
        };
        packets.push(revoke_packet(&holder, RevokeCause::AdminRevoke));
    }
    floor.queue = Vec::new();
    floor.clear_taken();
    packets.push(FloorPacket { target: None, exclude: None, message: FloorMessage::Idle });
    packets
}

} // verus!
