//! The STUN path of the media socket: warm answers for latched sources,
//! cold latching by server ufrag, and release of DTLS records that came
//! before the latch.

use vstd::prelude::*;
use vstd::string::StringSliceAdditionalSpecFns;
use vstd::utf8::encode_utf8;

use crate::hubs::media_peer::{addr_index, keying_kept, ufrag_index, MediaPeerHub};
use crate::media::dtls::PendingDtls;
use crate::media::net::{parse_stun_username, stun_username};
use crate::media::stun::{binding_response, make_binding_response, PeerAddr};

verus! {

/// One STUN datagram from `src` at `now`; returns the response to send and
/// the DTLS records now released for a handshake, oldest first.
///
/// A source already latched is marked seen and answered, signed with its
/// endpoint's ICE password, and nothing is released. Otherwise the
/// USERNAME's server ufrag is looked up: a known one latches `src` to its
/// endpoint, which is answered, and every record buffered for `src` is
/// released. Anything else gets no answer and changes nothing.
pub fn stun_step(
    peers: &mut MediaPeerHub,
    pending: &mut PendingDtls,
    src: &PeerAddr,
    packet: &[u8],
    now: u64,
) -> (r: (Option<Vec<u8>>, Vec<Vec<u8>>))
    requires
        old(peers).wf(),
        old(pending).wf(),
    ensures
        final(peers).wf(),
        final(pending).wf(),
        final(peers).endpoints@.len() == old(peers).endpoints@.len(),
        forall|j: int|
            0 <= j < old(peers).endpoints@.len() ==> {
                &&& (#[trigger] final(peers).endpoints@[j]).ufrag == old(peers).endpoints@[j].ufrag
                &&& final(peers).endpoints@[j].user_id == old(peers).endpoints@[j].user_id
                &&& final(peers).endpoints@[j].channel_id == old(peers).endpoints@[j].channel_id
                &&& (old(peers).endpoints@[j].inbound_srtp.ready() ==> final(peers).endpoints@[j].inbound_srtp.ready())
                &&& (old(peers).endpoints@[j].outbound_srtp.ready() ==> final(peers).endpoints@[j].outbound_srtp.ready())
            },
        ({
            let eps = old(peers).endpoints@;
            let i = addr_index(eps, *src);
            &&& (i < eps.len() ==> {
                &&& r.1@.len() == 0
                &&& *final(pending) == *old(pending)
                &&& final(peers).endpoints@[i].last_seen == now
                &&& (packet@.len() >= 20 ==> (r.0 matches Some(v) && v@ == binding_response(
                    packet@,
                    *src,
                    encode_utf8(eps[i].ice_pwd@),
                )))
                &&& (packet@.len() < 20 ==> r.0 is None)
            })
            &&& ((i == eps.len() && (stun_username(packet@) matches Some(u) && ufrag_index(eps, u) < eps.len()))
                ==> {
                let k = ufrag_index(eps, stun_username(packet@)->0);
                &&& addr_index(final(peers).endpoints@, *src) == k
                &&& final(peers).endpoints@[k].last_seen == now
                &&& r.0 matches Some(v) && v@ == binding_response(packet@, *src, encode_utf8(eps[k].ice_pwd@))
                &&& r.1@.map_values(|p: Vec<u8>| p@) == old(pending).queued(*src)
                &&& final(pending).queued(*src) == Seq::<Seq<u8>>::empty()
            })
            &&& ((i == eps.len() && !(stun_username(packet@) matches Some(u) && ufrag_index(eps, u) < eps.len()))
                ==> {
                &&& r.0 is None
                &&& r.1@.len() == 0
                &&& final(peers).endpoints@ == eps
                &&& *final(pending) == *old(pending)
            })
        }),
{
    let warm = match peers.get_by_addr(src) {
        Some(ep) => Some(ep.ice_pwd.clone()),
        None => None,
    };
    match warm {
        Some(pwd) => {
            peers.touch_at(src, now);
            let resp = make_binding_response(packet, src, pwd.as_str());
            (resp, Vec::new())
        },
        None => {
            proof {
                crate::hubs::media_peer::lemma_addr_index(peers.endpoints@, *src, peers.endpoints@.len() as int);
            }
            let ufrag = match parse_stun_username(packet) {
                Some(u) => u,
                None => {
                    let r = (None, Vec::new());
                    proof {
                        assert(r.1@.len() == 0);
                    }
                    return r;
                },
            };
            let ghost eps = peers.endpoints@;
            let found = peers.latch_at(ufrag.as_str(), *src, now);
            if !found {
                let r = (None, Vec::new());
                proof {
                    assert(r.1@.len() == 0);
                }
                return r;
            }
            let pwd = match peers.get_by_ufrag(ufrag.as_str()) {
                Some(ep) => ep.ice_pwd.clone(),
                None => String::new(),
            };
            proof {
                crate::hubs::media_peer::lemma_ufrag_index_range(eps, ufrag@);
                let k = ufrag_index(eps, ufrag@);
                let n = peers.endpoints@;
                assert(n[k].ufrag == eps[k].ufrag);
                assert forall|j: int| 0 <= j < k implies (#[trigger] n[j]).ufrag@ != ufrag@ by {
                    assert(n[j].ufrag == eps[j].ufrag);
                    if eps[j].ufrag@ == ufrag@ {
                        assert(eps[k].ufrag@ == ufrag@);
                    }
                }
                crate::hubs::media_peer::lemma_ufrag_index(n, ufrag@, k);
                assert(n[k].ice_pwd == eps[k].ice_pwd);
            }
            let resp = make_binding_response(packet, src, pwd.as_str());
            let released = pending.drain_pending(src);
            (resp, released)
        },
    }
}

} // verus!
