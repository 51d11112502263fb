//! Joining and leaving a channel: membership, media endpoint and session.

use vstd::prelude::*;

use crate::error::LiveError;
use crate::hubs::channel::{channel_index, has_channel, has_member, ChannelHub};
use crate::hubs::floor::{FloorControlState, FloorIndicator};
use crate::hubs::media_peer::{keying_kept, ufrag_index, MediaPeerHub, Track, TrackKind};
use crate::protocol::sdp::build_sdp_answer;
use crate::protocol::session::Session;

verus! {

/// What a successful join hands back for the answer frames.
pub struct JoinOutcome {
    /// The SDP answer, when the client sent an offer.
    pub sdp_answer: Option<String>,
    /// The endpoint's ufrag: the server's, or the client's without an offer.
    pub ufrag: String,
    /// The endpoint's ICE password, the one written into the answer (empty
    /// without an offer).
    pub ice_pwd: String,
    /// Members after the join (the join event goes to all but the joiner).
    pub members: Vec<String>,
    /// The current speaker and indicator, when the floor is taken: the
    /// joiner is told at once.
    pub floor_holder: Option<(String, FloorIndicator)>,
}

/// CHANNEL_JOIN by the session's user: the channel must exist and accept
/// the member; then an endpoint keyed by the ufrag (the server's when an
/// offer is answered, else the client's) is registered with the announced
/// SSRC as its audio track, and the session records channel, SSRC and
/// ufrag. A refusal changes nothing.
pub fn channel_join(
    session: &mut Session,
    channels: &mut ChannelHub,
    peers: &mut MediaPeerHub,
    channel_id: &str,
    ssrc: u32,
    sdp_offer: Option<&str>,
    client_ufrag: &str,
    fingerprint: &str,
    udp_port: u16,
    advertise_ip: &str,
) -> (r: Result<JoinOutcome, LiveError>)
    requires
        old(session).user_id is Some,
        old(channels).wf(),
        old(peers).wf(),
    ensures
        final(channels).wf(),
        final(peers).wf(),
        !has_channel(old(channels).channels@, channel_id@) ==> (r matches Err(LiveError::ChannelNotFound(id))
            && id@ == channel_id@),
        r is Err ==> final(channels).channels@ == old(channels).channels@ && *final(peers) == *old(peers)
            && *final(session) == *old(session),
        has_channel(old(channels).channels@, channel_id@) ==> ({
            let ch = old(channels).channels@[channel_index(old(channels).channels@, channel_id@)];
            let uid = old(session).user_id->0@;
            &&& (ch.members@.len() >= ch.capacity ==> r matches Err(LiveError::ChannelFull(_)))
            &&& (ch.members@.len() < ch.capacity && has_member(ch.members@, uid) ==> r matches Err(
                LiveError::AlreadyInChannel(_),
            ))
            &&& (ch.members@.len() < ch.capacity && !has_member(ch.members@, uid) ==> r is Ok)
        }),
        r matches Ok(o) ==> ({
            let i = channel_index(old(channels).channels@, channel_id@);
            let ch = old(channels).channels@[i];
            let nch = final(channels).channels@[i];
            let uid = old(session).user_id->0@;
            &&& has_channel(old(channels).channels@, channel_id@)
            &&& nch.members@ == ch.members@.push(nch.members@.last())
            &&& nch.members@.last()@ == uid
            &&& o.members@ == nch.members@
            &&& (ch.floor.state == FloorControlState::Taken <==> o.floor_holder is Some)
            &&& (o.floor_holder matches Some(h) ==> h.0@ == ch.floor.holder()->0 && h.1 == ch.floor.floor_indicator)
            &&& (sdp_offer is None ==> o.sdp_answer is None && o.ufrag@ == client_ufrag@)
            &&& (sdp_offer is Some ==> o.sdp_answer is Some && o.ufrag@.len() == 16 && o.ice_pwd@.len() == 22)
            &&& (sdp_offer matches Some(offer) ==> exists|sid: u64|
                #![trigger crate::protocol::sdp::sdp_answer(crate::protocol::sdp::lines_of(offer@), fingerprint@, udp_port, advertise_ip@, sid, o.ufrag@, o.ice_pwd@)]
                o.sdp_answer->0@ == crate::protocol::sdp::sdp_answer(
                    crate::protocol::sdp::lines_of(offer@),
                    fingerprint@,
                    udp_port,
                    advertise_ip@,
                    sid,
                    o.ufrag@,
                    o.ice_pwd@,
                ))
            &&& final(peers).endpoints@[ufrag_index(final(peers).endpoints@, o.ufrag@)].ice_pwd@ == o.ice_pwd@
            &&& final(peers).endpoints@[ufrag_index(final(peers).endpoints@, o.ufrag@)].tracks@ == seq![
                Track { ssrc, kind: TrackKind::Audio },
            ]
            &&& ufrag_index(final(peers).endpoints@, o.ufrag@) < final(peers).endpoints@.len()
            &&& final(peers).endpoints@[ufrag_index(final(peers).endpoints@, o.ufrag@)].user_id@ == uid
            &&& final(peers).endpoints@[ufrag_index(final(peers).endpoints@, o.ufrag@)].channel_id@ == channel_id@
            &&& final(session).user_id == old(session).user_id
            &&& final(session).current_channel matches Some(c) && c@ == channel_id@
            &&& final(session).current_ssrc == Some(ssrc)
            &&& final(session).current_ufrag matches Some(u) && u@ == o.ufrag@
        }),
{
    let uid = match &session.user_id {
        Some(u) => u.clone(),
        None => String::new(),
    };
    let ghost old_chs = channels.channels@;
    let ch = match channels.get_mut(channel_id) {
        Some(c) => c,
        None => {
            return Err(LiveError::ChannelNotFound(channel_id.to_owned()));
        },
    };
    let ghost i = channel_index(old_chs, channel_id@);
    proof {
        crate::hubs::channel::lemma_channel_index_found(old_chs, channel_id@);
    }
    let added = ch.add_member(uid.as_str());
    let members = ch.get_members();
    let floor_holder = if ch.floor.state == FloorControlState::Taken {
        match &ch.floor.floor_taken_by {
            Some(h) => Some((h.clone(), ch.floor.floor_indicator)),
            None => None,
        }
    } else {
        None
    };
    proof {
        let n = channels.channels@;
        assert(n == old_chs.update(i, n[i]));
        assert forall|a: int, b: int|
            0 <= a < n.len() && 0 <= b < n.len() && a != b implies (#[trigger] n[a]).channel_id@
            != (#[trigger] n[b]).channel_id@ by {
            assert(n[a].channel_id == old_chs[a].channel_id);
            assert(n[b].channel_id == old_chs[b].channel_id);
        }
        assert forall|a: int| 0 <= a < n.len() implies (#[trigger] n[a]).wf() by {
            if a != i {
                assert(n[a] == old_chs[a]);
            }
        }
    }
    match added {
        Err(e) => {
            proof {
                assert(channels.channels@ =~= old_chs);
            }
            return Err(e);
        },
        Ok(()) => {},
    }
    let (sdp_answer, ufrag, pwd) = match sdp_offer {
        Some(offer) => {
            let (sdp, u, p) = build_sdp_answer(offer, fingerprint, udp_port, advertise_ip);
            (Some(sdp), u, p)
        },
        None => (None, client_ufrag.to_owned(), String::new()),
    };
    peers.insert(ufrag.as_str(), pwd.as_str(), uid.as_str(), channel_id);
    let ghost inserted = peers.endpoints@;
    assert(ufrag_index(inserted, ufrag@) < inserted.len());
    peers.add_track(ufrag.as_str(), ssrc, TrackKind::Audio);
    proof {
        assert(ufrag_index(inserted, ufrag@) < inserted.len());
        assert(keying_kept(inserted, peers.endpoints@));
        crate::hubs::media_peer::lemma_ufrag_index_kept(inserted, peers.endpoints@, ufrag@);
        let k = ufrag_index(inserted, ufrag@);
        assert(peers.endpoints@[k].user_id == inserted[k].user_id);
    }
    session.current_channel = Some(channel_id.to_owned());
    session.current_ssrc = Some(ssrc);
    session.current_ufrag = Some(ufrag.clone());
    Ok(JoinOutcome { sdp_answer, ufrag, ice_pwd: pwd, members, floor_holder })
}

} // verus!

verus! {

/// What leaving hands back for the frames to send.
pub struct LeaveOutcome {
    /// The SSRC announced at join, for the leave event.
    pub ssrc: u32,
    /// Members before the removal (the leave event goes to all but the leaver).
    pub members: Vec<String>,
    /// Floor frames caused by the departure (hand-over or idle).
    pub floor_packets: Vec<crate::protocol::floor::FloorPacket>,
}

/// CHANNEL_LEAVE, or the channel part of a socket close, at `now`: refused
/// with `NotInChannel` unless the session is in `channel_id`. Otherwise the
/// user leaves the member set and the floor (queue entry dropped; a holder's
/// floor handed on), its endpoint is removed, and the session forgets the
/// channel.
pub fn channel_leave(
    session: &mut Session,
    channels: &mut ChannelHub,
    peers: &mut MediaPeerHub,
    channel_id: &str,
    now: u64,
) -> (r: Result<LeaveOutcome, LiveError>)
    requires
        old(session).user_id is Some,
        old(channels).wf(),
        old(peers).wf(),
    ensures
        final(channels).wf(),
        final(peers).wf(),
        !(old(session).current_channel matches Some(c) && c@ == channel_id@) ==> (r matches Err(
            LiveError::NotInChannel(id),
        ) && id@ == channel_id@) && *final(session) == *old(session) && final(channels).channels@ == old(
            channels,
        ).channels@ && *final(peers) == *old(peers),
        (old(session).current_channel matches Some(c) && c@ == channel_id@) ==> r is Ok,
        r is Ok ==> ({
            &&& final(session).current_channel is None
            &&& final(session).current_ssrc is None
            &&& final(session).current_ufrag is None
            &&& final(session).user_id == old(session).user_id
            &&& (has_channel(final(channels).channels@, channel_id@) ==> ({
                let ch = final(channels).channels@[channel_index(final(channels).channels@, channel_id@)];
                &&& !has_member(ch.members@, old(session).user_id->0@)
                &&& !ch.floor.is_holder(old(session).user_id->0@)
                &&& !crate::hubs::floor::in_queue(ch.floor.queue@, old(session).user_id->0@)
            }))
            &&& (old(session).current_ufrag matches Some(u) ==> forall|j: int|
                0 <= j < final(peers).endpoints@.len() ==> (#[trigger] final(peers).endpoints@[j]).ufrag@ != u@)
        }),
{
    let in_channel = match &session.current_channel {
        Some(c) => crate::utils::str_eq(c.as_str(), channel_id),
        None => false,
    };
    if !in_channel {
        return Err(LiveError::NotInChannel(channel_id.to_owned()));
    }
    let uid = match &session.user_id {
        Some(u) => u.clone(),
        None => String::new(),
    };
    let ssrc = match session.current_ssrc {
        Some(s) => s,
        None => 0,
    };
    let mut members: Vec<String> = Vec::new();
    let mut floor_packets: Vec<crate::protocol::floor::FloorPacket> = Vec::new();
    let ghost old_chs = channels.channels@;
    match channels.get_mut(channel_id) {
        Some(ch) => {
            proof {
                crate::hubs::channel::lemma_channel_index_found(old_chs, channel_id@);
            }
            members = ch.get_members();
            ch.remove_member(uid.as_str());
            floor_packets = crate::protocol::floor::on_user_disconnect(&mut ch.floor, uid.as_str(), now);
        },
        None => {},
    }
    proof {
        let n = channels.channels@;
        if has_channel(old_chs, channel_id@) {
            let i = channel_index(old_chs, channel_id@);
            assert forall|a: int, b: int|
                0 <= a < n.len() && 0 <= b < n.len() && a != b implies (#[trigger] n[a]).channel_id@
                != (#[trigger] n[b]).channel_id@ by {
                assert(n[a].channel_id == old_chs[a].channel_id);
                assert(n[b].channel_id == old_chs[b].channel_id);
            }
            assert forall|a: int| 0 <= a < n.len() implies (#[trigger] n[a]).wf() by {
                if a != i {
                    assert(n[a] == old_chs[a]);
                }
            }
            assert forall|j: int| 0 <= j < i implies (#[trigger] n[j]).channel_id@ != channel_id@ by {
                assert(n[j] == old_chs[j]);
                if old_chs[j].channel_id@ == channel_id@ {
                    assert(old_chs[i].channel_id@ == channel_id@);
                }
            }
            crate::hubs::channel::lemma_channel_index(n, channel_id@, i);
        }
    }
    match &session.current_ufrag {
        Some(u) => peers.remove(u.as_str()),
        None => {},
    }
    session.current_channel = None;
    session.current_ssrc = None;
    session.current_ufrag = None;
    Ok(LeaveOutcome { ssrc, members, floor_packets })
}

} // verus!
