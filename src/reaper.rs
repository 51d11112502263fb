//! The periodic reaper: evicts silent users and endpoints, and enforces the
//! floor timeouts of every channel.

use vstd::prelude::*;

use crate::config;
use crate::hubs::channel::{has_member, ChannelHub};
use crate::hubs::floor::timeout_cause;
use crate::hubs::media_peer::{is_zombie_ep, MediaPeerHub};
use crate::hubs::user::{has_user, is_zombie, names, UserHub};
use crate::protocol::floor::{check_floor_timeout, FloorPacket};

verus! {

/// A floor frame of one channel.
pub struct ChannelFrame {
    pub channel_id: String,
    pub packet: FloorPacket,
}

/// What one reaper tick did.
pub struct ReapOutcome {
    /// Users evicted for silence.
    pub evicted_users: Vec<String>,
    /// Endpoints evicted for silence, by ufrag.
    pub evicted_endpoints: Vec<String>,
    /// Revokes and hand-overs caused by floor timeouts, in sending order.
    pub floor_frames: Vec<ChannelFrame>,
}

/// One reaper tick at `now`, in order: users silent for the zombie timeout
/// leave every channel's member set and are unregistered; silent endpoints
/// are removed; then every floor past its longest hold or ping timeout is
/// revoked and handed on. Afterwards no floor is past either timeout.
pub fn reap_at(users: &mut UserHub, channels: &mut ChannelHub, peers: &mut MediaPeerHub, now: u64) -> (r: ReapOutcome)
    requires
        old(users).wf(),
        old(channels).wf(),
        old(peers).wf(),
    ensures
        final(users).wf(),
        final(channels).wf(),
        final(peers).wf(),
        forall|u: Seq<char>|
            #![trigger names(r.evicted_users@, u)]
            names(r.evicted_users@, u) <==> is_zombie(old(users).users@, u, config::ZOMBIE_TIMEOUT_MS, now),
        forall|u: Seq<char>|
            #![trigger names(r.evicted_users@, u), has_user(final(users).users@, u)]
            names(r.evicted_users@, u) ==> !has_user(final(users).users@, u),
        forall|u: Seq<char>|
            #![trigger names(r.evicted_endpoints@, u)]
            names(r.evicted_endpoints@, u) <==> is_zombie_ep(old(peers).endpoints@, u, config::ZOMBIE_TIMEOUT_MS, now),
        forall|j: int|
            0 <= j < final(peers).endpoints@.len() ==> !names(
                r.evicted_endpoints@,
                (#[trigger] final(peers).endpoints@[j]).ufrag@,
            ),
        final(channels).channels@.len() == old(channels).channels@.len(),
        forall|i: int|
            0 <= i < final(channels).channels@.len() ==> {
                &&& (#[trigger] final(channels).channels@[i]).channel_id == old(channels).channels@[i].channel_id
                &&& timeout_cause(final(channels).channels@[i].floor, now) is None
                &&& forall|u: Seq<char>|
                    #![trigger names(r.evicted_users@, u), has_member(final(channels).channels@[i].members@, u)]
                    names(r.evicted_users@, u) ==> !has_member(final(channels).channels@[i].members@, u)
            },
{
    let zombies = users.find_zombies_at(config::ZOMBIE_TIMEOUT_MS, now);
    let ghost chs0 = channels.channels@;
    let n = channels.channels.len();
    let mut k: usize = 0;
    while k < zombies.len()
        invariant
            channels.wf(),
            n == channels.channels@.len(),
            chs0.len() == n,
            forall|i: int| 0 <= i < n ==> (#[trigger] channels.channels@[i]).channel_id == chs0[i].channel_id,
            0 <= k <= zombies@.len(),
            forall|i: int, kk: int|
                0 <= i < n && 0 <= kk < k ==> !has_member((#[trigger] channels.channels@[i]).members@, (#[trigger] zombies@[kk])@),
        decreases zombies@.len() - k,
    {
        let mut j: usize = 0;
        while j < n
            invariant
                channels.wf(),
                n == channels.channels@.len(),
                forall|i: int| 0 <= i < n ==> (#[trigger] channels.channels@[i]).channel_id == chs0[i].channel_id,
                0 <= k < zombies@.len(),
                0 <= j <= n,
                forall|i: int, kk: int|
                    0 <= i < n && 0 <= kk < k ==> !has_member((#[trigger] channels.channels@[i]).members@, (#[trigger] zombies@[kk])@),
                forall|i: int| 0 <= i < j ==> !has_member((#[trigger] channels.channels@[i]).members@, zombies@[k as int]@),
            decreases n - j,
        {
            let ghost before = channels.channels@;
            channels.channels[j].remove_member(zombies[k].as_str());
            proof {
                let after = channels.channels@;
                assert forall|i: int| 0 <= i < n && i != j implies after[i] == before[i] by {}
                crate::hubs::channel::lemma_without_member(before[j as int].members@, zombies@[k as int]@);
                assert forall|i: int, kk: int|
                    0 <= i < n && 0 <= kk < k implies !has_member((#[trigger] after[i]).members@, (#[trigger] zombies@[kk])@) by {
                    if i == j && zombies@[kk]@ != zombies@[k as int]@ {
                        assert(!has_member(before[i].members@, zombies@[kk]@));
                    }
                }
                assert forall|a: int, b: int|
                    0 <= a < n && 0 <= b < n && a != b implies (#[trigger] after[a]).channel_id@ != (#[trigger] after[b]).channel_id@ by {
                    assert(after[a].channel_id == before[a].channel_id);
                    assert(after[b].channel_id == before[b].channel_id);
                }
                assert forall|a: int| 0 <= a < n implies (#[trigger] after[a]).wf() by {}
            }
            j = j + 1;
        }
        k = k + 1;
    }
    let mut k: usize = 0;
    while k < zombies.len()
        invariant
            users.wf(),
            0 <= k <= zombies@.len(),
            forall|kk: int| 0 <= kk < k ==> !has_user(users.users@, (#[trigger] zombies@[kk])@),
        decreases zombies@.len() - k,
    {
        let ghost before = users.users@;
        users.unregister(zombies[k].as_str());
        proof {
            assert forall|kk: int| 0 <= kk <= k implies !has_user(users.users@, (#[trigger] zombies@[kk])@) by {
                assert(!crate::hubs::user::user_ids(users.users@).contains(zombies@[kk]@));
            }
        }
        k = k + 1;
    }
    let dead = peers.find_zombies_at(config::ZOMBIE_TIMEOUT_MS, now);
    let mut k: usize = 0;
    while k < dead.len()
        invariant
            peers.wf(),
            0 <= k <= dead@.len(),
            forall|kk: int, jj: int|
                0 <= kk < k && 0 <= jj < peers.endpoints@.len() ==> (#[trigger] peers.endpoints@[jj]).ufrag@ != (#[trigger] dead@[kk])@,
        decreases dead@.len() - k,
    {
        let ghost before = peers.endpoints@;
        peers.remove(dead[k].as_str());
        proof {
            assert forall|kk: int, jj: int|
                0 <= kk <= k && 0 <= jj < peers.endpoints@.len() implies (#[trigger] peers.endpoints@[jj]).ufrag@
                != (#[trigger] dead@[kk])@ by {
                if kk < k {
                    assert(before.contains(peers.endpoints@[jj]));
                    let src = choose|src: int| 0 <= src < before.len() && before[src] == peers.endpoints@[jj];
                    assert(before[src].ufrag@ != dead@[kk]@);
                }
            }
        }
        k = k + 1;
    }
    let mut frames: Vec<ChannelFrame> = Vec::new();
    let mut j: usize = 0;
    while j < n
        invariant
            channels.wf(),
            n == channels.channels@.len(),
            forall|i: int| 0 <= i < n ==> (#[trigger] channels.channels@[i]).channel_id == chs0[i].channel_id,
            forall|i: int, kk: int|
                0 <= i < n && 0 <= kk < zombies@.len() ==> !has_member((#[trigger] channels.channels@[i]).members@, (#[trigger] zombies@[kk])@),
            0 <= j <= n,
            forall|i: int| 0 <= i < j ==> timeout_cause((#[trigger] channels.channels@[i]).floor, now) is None,
        decreases n - j,
    {
        let ghost before = channels.channels@;
        let id = channels.channels[j].channel_id.clone();
        let mut packets = check_floor_timeout(&mut channels.channels[j].floor, now);
        proof {
            let after = channels.channels@;
            assert forall|i: int| 0 <= i < n && i != j implies after[i] == before[i] by {}
            assert(after[j as int].members == before[j as int].members);
            assert forall|a: int, b: int|
                0 <= a < n && 0 <= b < n && a != b implies (#[trigger] after[a]).channel_id@ != (#[trigger] after[b]).channel_id@ by {
                assert(after[a].channel_id == before[a].channel_id);
                assert(after[b].channel_id == before[b].channel_id);
            }
            assert forall|a: int| 0 <= a < n implies (#[trigger] after[a]).wf() by {}
        }
        while packets.len() > 0
            invariant
                true,
            decreases packets@.len(),
        {
            let p = packets.remove(0);
            frames.push(ChannelFrame { channel_id: id.clone(), packet: p });
        }
        j = j + 1;
    }
    let evicted_users = zombies;
    let evicted_endpoints = dead;
    proof {
        assert forall|u: Seq<char>|
            #![trigger names(evicted_users@, u), has_user(users.users@, u)]
            names(evicted_users@, u) implies !has_user(users.users@, u) by {
            let kk = choose|kk: int| 0 <= kk < evicted_users@.len() && (#[trigger] evicted_users@[kk])@ == u;
        }
        assert forall|jj: int| 0 <= jj < peers.endpoints@.len() implies !names(
            evicted_endpoints@,
            (#[trigger] peers.endpoints@[jj]).ufrag@,
        ) by {
            if names(evicted_endpoints@, peers.endpoints@[jj].ufrag@) {
                let kk = choose|kk: int|
                    0 <= kk < evicted_endpoints@.len() && (#[trigger] evicted_endpoints@[kk])@ == peers.endpoints@[jj].ufrag@;
                assert(peers.endpoints@[jj].ufrag@ != evicted_endpoints@[kk]@);
            }
        }
        assert forall|i: int| 0 <= i < n implies #[trigger] channels.channels@[i] == channels.channels@[i] && forall|u: Seq<char>|
            #![trigger names(evicted_users@, u), has_member(channels.channels@[i].members@, u)]
            names(evicted_users@, u) ==> !has_member(channels.channels@[i].members@, u) by {
            assert forall|u: Seq<char>|
                #![trigger names(evicted_users@, u), has_member(channels.channels@[i].members@, u)]
                names(evicted_users@, u) implies !has_member(channels.channels@[i].members@, u) by {
                let kk = choose|kk: int| 0 <= kk < evicted_users@.len() && (#[trigger] evicted_users@[kk])@ == u;
            }
        }
    }
    ReapOutcome { evicted_users, evicted_endpoints, floor_frames: frames }
}

} // verus!
