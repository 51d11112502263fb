//! Media endpoints: one per user per channel, keyed by the server ICE ufrag
//! and looked up on the hot path by their latched source address.

use vstd::prelude::*;

use crate::hubs::channel::{channel_index, has_channel, ChannelHub};
use crate::media::net::is_rtcp;
use crate::media::srtp::{install_keying_material, SrtpContext, SrtpError};
use crate::media::stun::PeerAddr;
use crate::hubs::user::names;
use crate::utils::{current_timestamp, str_eq};

verus! {

/// Kind of a bundled media track.
#[derive(Debug, Clone, Copy, PartialEq, Eq, Structural)]
pub enum TrackKind {
    Audio,
    Video,
    Data,
}

/// A track announced by its SSRC.
#[derive(Debug, Clone, Copy, PartialEq, Eq, Structural)]
pub struct Track {
    pub ssrc: u32,
    pub kind: TrackKind,
}

/// One media attachment of a user to a channel.
pub struct Endpoint {
    /// Server-generated ICE ufrag, the primary key.
    pub ufrag: String,
    /// ICE password, the STUN MESSAGE-INTEGRITY key.
    pub ice_pwd: String,
    pub user_id: String,
    pub channel_id: String,
    pub last_seen: u64,
    /// Source address latched by STUN.
    pub address: Option<PeerAddr>,
    pub tracks: Vec<Track>,
    /// Unprotects what the browser sends.
    pub inbound_srtp: SrtpContext,
    /// Protects what the server sends to the browser.
    pub outbound_srtp: SrtpContext,
}

impl Endpoint {
    /// A new, unlatched, unkeyed endpoint seen at `now`.
    pub fn new_at(ufrag: String, ice_pwd: String, user_id: String, channel_id: String, now: u64) -> (r: Endpoint)
        ensures
            r.ufrag@ == ufrag@,
            r.ice_pwd@ == ice_pwd@,
            r.user_id@ == user_id@,
            r.channel_id@ == channel_id@,
            r.last_seen == now,
            r.address is None,
            r.tracks@.len() == 0,
            !r.inbound_srtp.ready(),
            !r.outbound_srtp.ready(),
    {
        Endpoint {
            ufrag,
            ice_pwd,
            user_id,
            channel_id,
            last_seen: now,
            address: None,
            tracks: Vec::new(),
            inbound_srtp: SrtpContext::new(),
            outbound_srtp: SrtpContext::new(),
        }
    }

    /// A new, unlatched, unkeyed endpoint seen now, by the wall clock.
    pub fn new(ufrag: String, ice_pwd: String, user_id: String, channel_id: String) -> (r: Endpoint)
        ensures
            r.ufrag@ == ufrag@,
            r.ice_pwd@ == ice_pwd@,
            r.user_id@ == user_id@,
            r.channel_id@ == channel_id@,
            r.address is None,
            r.tracks@.len() == 0,
            !r.inbound_srtp.ready(),
            !r.outbound_srtp.ready(),
    {
        let now = current_timestamp();
        Endpoint::new_at(ufrag, ice_pwd, user_id, channel_id, now)
    }

    /// Binds the endpoint to `addr`, seen at `now`.
    pub fn latch_address_at(&mut self, addr: PeerAddr, now: u64)
        ensures
            final(self).address == Some(addr),
            final(self).last_seen == now,
            final(self).ufrag == old(self).ufrag,
            final(self).user_id == old(self).user_id,
            final(self).channel_id == old(self).channel_id,
            final(self).inbound_srtp == old(self).inbound_srtp,
            final(self).outbound_srtp == old(self).outbound_srtp,
    {
        self.address = Some(addr);
        self.last_seen = now;
    }

    /// Binds the endpoint to `addr`, seen now by the wall clock.
    pub fn latch_address(&mut self, addr: PeerAddr)
        ensures
            final(self).address == Some(addr),
            final(self).ufrag == old(self).ufrag,
            final(self).user_id == old(self).user_id,
            final(self).channel_id == old(self).channel_id,
    {
        let now = current_timestamp();
        self.latch_address_at(addr, now);
    }

    /// The latched address, if any.
    pub fn get_address(&self) -> (r: Option<PeerAddr>)
        ensures
            r == self.address,
    {
        self.address
    }

    /// Adds a track unless one with the same SSRC is known.
    pub fn add_track(&mut self, ssrc: u32, kind: TrackKind)
        ensures
            (exists|i: int| 0 <= i < old(self).tracks@.len() && (#[trigger] old(self).tracks@[i]).ssrc == ssrc)
                ==> final(self).tracks@ == old(self).tracks@,
            !(exists|i: int| 0 <= i < old(self).tracks@.len() && (#[trigger] old(self).tracks@[i]).ssrc == ssrc)
                ==> final(self).tracks@ == old(self).tracks@.push(Track { ssrc, kind }),
            final(self).ufrag == old(self).ufrag,
            final(self).ice_pwd == old(self).ice_pwd,
            final(self).last_seen == old(self).last_seen,
            final(self).user_id == old(self).user_id,
            final(self).channel_id == old(self).channel_id,
            final(self).address == old(self).address,
            final(self).inbound_srtp == old(self).inbound_srtp,
            final(self).outbound_srtp == old(self).outbound_srtp,
    {
        let mut i: usize = 0;
        while i < self.tracks.len()
            invariant
                0 <= i <= self.tracks@.len(),
                forall|j: int| 0 <= j < i ==> (#[trigger] self.tracks@[j]).ssrc != ssrc,
            decreases self.tracks@.len() - i,
        {
            if self.tracks[i].ssrc == ssrc {
                return;
            }
            i = i + 1;
        }
        self.tracks.push(Track { ssrc, kind });
    }
}

/// Index of the endpoint of `ufrag` in `eps`, or the length when absent.
pub open spec fn ufrag_index(eps: Seq<Endpoint>, ufrag: Seq<char>) -> int
    decreases eps.len(),
{
    if eps.len() == 0 {
        0
    } else if eps[0].ufrag@ == ufrag {
        0
    } else {
        1 + ufrag_index(eps.drop_first(), ufrag)
    }
}

/// Index of the endpoint latched to `addr` in `eps`, or the length when none is.
pub open spec fn addr_index(eps: Seq<Endpoint>, addr: PeerAddr) -> int
    decreases eps.len(),
{
    if eps.len() == 0 {
        0
    } else if eps[0].address == Some(addr) {
        0
    } else {
        1 + addr_index(eps.drop_first(), addr)
    }
}

/// `i` is the first index of `ufrag` when no earlier endpoint has it.
pub proof fn lemma_ufrag_index(eps: Seq<Endpoint>, ufrag: Seq<char>, i: int)
    requires
        0 <= i <= eps.len(),
        forall|j: int| 0 <= j < i ==> (#[trigger] eps[j]).ufrag@ != ufrag,
        i < eps.len() ==> eps[i].ufrag@ == ufrag,
    ensures
        ufrag_index(eps, ufrag) == i,
    decreases eps.len(),
{
    if eps.len() > 0 && i > 0 {
        let t = eps.drop_first();
        assert forall|j: int| 0 <= j < i - 1 implies (#[trigger] t[j]).ufrag@ != ufrag by {
            assert(eps[j + 1] == t[j]);
        }
        lemma_ufrag_index(t, ufrag, i - 1);
    }
}

/// Where `ufrag_index` lands: inside the sequence on the first endpoint of
/// that ufrag, or at the end when none has it.
pub proof fn lemma_ufrag_index_range(eps: Seq<Endpoint>, ufrag: Seq<char>)
    ensures
        0 <= ufrag_index(eps, ufrag) <= eps.len(),
        ufrag_index(eps, ufrag) < eps.len() ==> eps[ufrag_index(eps, ufrag)].ufrag@ == ufrag,
        forall|j: int| 0 <= j < ufrag_index(eps, ufrag) ==> (#[trigger] eps[j]).ufrag@ != ufrag,
    decreases eps.len(),
{
    if eps.len() > 0 && eps[0].ufrag@ != ufrag {
        let t = eps.drop_first();
        lemma_ufrag_index_range(t, ufrag);
        assert forall|j: int| 0 <= j < ufrag_index(eps, ufrag) implies (#[trigger] eps[j]).ufrag@ != ufrag by {
            if j > 0 {
                assert(eps[j] == t[j - 1]);
            }
        }
    }
}

/// A ufrag held by some endpoint has an index inside the sequence.
proof fn lemma_ufrag_index_found(eps: Seq<Endpoint>, ufrag: Seq<char>, j: int)
    requires
        0 <= j < eps.len(),
        eps[j].ufrag@ == ufrag,
    ensures
        ufrag_index(eps, ufrag) <= j,
    decreases eps.len(),
{
    if eps[0].ufrag@ != ufrag {
        assert(eps.drop_first()[j - 1] == eps[j]);
        lemma_ufrag_index_found(eps.drop_first(), ufrag, j - 1);
    }
}

/// `i` is the first index latched to `addr` when no earlier endpoint is.
pub proof fn lemma_addr_index(eps: Seq<Endpoint>, addr: PeerAddr, i: int)
    requires
        0 <= i <= eps.len(),
        forall|j: int| 0 <= j < i ==> (#[trigger] eps[j]).address != Some(addr),
        i < eps.len() ==> eps[i].address == Some(addr),
    ensures
        addr_index(eps, addr) == i,
    decreases eps.len(),
{
    if eps.len() > 0 && i > 0 {
        let t = eps.drop_first();
        assert forall|j: int| 0 <= j < i - 1 implies (#[trigger] t[j]).address != Some(addr) by {
            assert(eps[j + 1] == t[j]);
        }
        lemma_addr_index(t, addr, i - 1);
    }
}

/// No two endpoints share a ufrag, nor a latched address.
pub open spec fn endpoints_wf(eps: Seq<Endpoint>) -> bool {
    &&& forall|i: int, j: int|
        0 <= i < eps.len() && 0 <= j < eps.len() && i != j ==> (#[trigger] eps[i]).ufrag@ != (#[trigger] eps[j]).ufrag@
    &&& forall|i: int, j: int|
        0 <= i < eps.len() && 0 <= j < eps.len() && i != j && (#[trigger] eps[i]).address is Some
            ==> eps[i].address != (#[trigger] eps[j]).address
}

/// Every endpoint latched to an address is the one the address lookup finds.
pub proof fn lemma_latched_lookup_exact(eps: Seq<Endpoint>, i: int)
    requires
        endpoints_wf(eps),
        0 <= i < eps.len(),
        eps[i].address is Some,
    ensures
        addr_index(eps, eps[i].address->0) == i,
{
    let a = eps[i].address->0;
    assert forall|j: int| 0 <= j < i implies (#[trigger] eps[j]).address != Some(a) by {
        assert(eps[i].address != eps[j].address);
    }
    lemma_addr_index(eps, a, i);
}

/// `old` and `new` hold the same endpoints, by ufrag, user and channel, and
/// no SRTP context went from keyed to unkeyed.
pub open spec fn keying_kept(old: Seq<Endpoint>, new: Seq<Endpoint>) -> bool {
    &&& new.len() == old.len()
    &&& forall|i: int|
        0 <= i < old.len() ==> {
            &&& (#[trigger] new[i]).ufrag == old[i].ufrag
            &&& new[i].user_id == old[i].user_id
            &&& new[i].channel_id == old[i].channel_id
            &&& new[i].address == old[i].address
            &&& (old[i].inbound_srtp.ready() ==> new[i].inbound_srtp.ready())
            &&& (old[i].outbound_srtp.ready() ==> new[i].outbound_srtp.ready())
        }
}

/// Endpoints kept in place keep their ufrag positions.
pub proof fn lemma_ufrag_index_kept(o: Seq<Endpoint>, n: Seq<Endpoint>, u: Seq<char>)
    requires
        keying_kept(o, n),
    ensures
        ufrag_index(n, u) == ufrag_index(o, u),
        0 <= ufrag_index(o, u) <= o.len(),
    decreases o.len(),
{
    if o.len() > 0 {
        assert(n[0].ufrag == o[0].ufrag);
        assert(keying_kept(o.drop_first(), n.drop_first())) by {
            assert forall|i: int| 0 <= i < o.len() - 1 implies (#[trigger] n.drop_first()[i]).ufrag == o.drop_first()[i].ufrag by {
                assert(n[i + 1].ufrag == o[i + 1].ufrag);
            }
            assert forall|i: int| 0 <= i < o.len() - 1 implies {
                &&& (#[trigger] n.drop_first()[i]).ufrag == o.drop_first()[i].ufrag
                &&& n.drop_first()[i].user_id == o.drop_first()[i].user_id
                &&& n.drop_first()[i].channel_id == o.drop_first()[i].channel_id
                &&& n.drop_first()[i].address == o.drop_first()[i].address
                &&& (o.drop_first()[i].inbound_srtp.ready() ==> n.drop_first()[i].inbound_srtp.ready())
                &&& (o.drop_first()[i].outbound_srtp.ready() ==> n.drop_first()[i].outbound_srtp.ready())
            } by {
                assert(n.drop_first()[i] == n[i + 1]);
                assert(o.drop_first()[i] == o[i + 1]);
            }
        }
        lemma_ufrag_index_kept(o.drop_first(), n.drop_first(), u);
    }
}

/// All media endpoints.
pub struct MediaPeerHub {
    pub endpoints: Vec<Endpoint>,
}

impl MediaPeerHub {
    /// Ufrags and latched addresses are unique.
    pub open spec fn wf(&self) -> bool {
        endpoints_wf(self.endpoints@)
    }

    /// No endpoints.
    pub fn new() -> (r: MediaPeerHub)
        ensures
            r.wf(),
            r.endpoints@.len() == 0,
    {
        MediaPeerHub { endpoints: Vec::new() }
    }

    fn find_ufrag(&self, ufrag: &str) -> (r: usize)
        ensures
            r <= self.endpoints@.len(),
            r == ufrag_index(self.endpoints@, ufrag@),
            r < self.endpoints@.len() ==> self.endpoints@[r as int].ufrag@ == ufrag@,
            forall|j: int| 0 <= j < r ==> (#[trigger] self.endpoints@[j]).ufrag@ != ufrag@,
    {
        let mut i: usize = 0;
        while i < self.endpoints.len()
            invariant
                0 <= i <= self.endpoints@.len(),
                forall|j: int| 0 <= j < i ==> (#[trigger] self.endpoints@[j]).ufrag@ != ufrag@,
            decreases self.endpoints@.len() - i,
        {
            if str_eq(self.endpoints[i].ufrag.as_str(), ufrag) {
                proof {
                    lemma_ufrag_index(self.endpoints@, ufrag@, i as int);
                }
                return i;
            }
            i = i + 1;
        }
        proof {
            lemma_ufrag_index(self.endpoints@, ufrag@, i as int);
        }
        i
    }

    fn find_addr(&self, addr: &PeerAddr) -> (r: usize)
        ensures
            r <= self.endpoints@.len(),
            r == addr_index(self.endpoints@, *addr),
            r < self.endpoints@.len() ==> self.endpoints@[r as int].address == Some(*addr),
            forall|j: int| 0 <= j < r ==> (#[trigger] self.endpoints@[j]).address != Some(*addr),
    {
        let mut i: usize = 0;
        while i < self.endpoints.len()
            invariant
                0 <= i <= self.endpoints@.len(),
                forall|j: int| 0 <= j < i ==> (#[trigger] self.endpoints@[j]).address != Some(*addr),
            decreases self.endpoints@.len() - i,
        {
            let hit = match self.endpoints[i].address {
                Some(a) => a.ip == addr.ip && a.port == addr.port,
                None => false,
            };
            if hit {
                proof {
                    lemma_addr_index(self.endpoints@, *addr, i as int);
                }
                return i;
            }
            i = i + 1;
        }
        proof {
            lemma_addr_index(self.endpoints@, *addr, i as int);
        }
        i
    }

    /// Registers a new unlatched endpoint seen at `now`; an endpoint with the
    /// same ufrag is replaced.
    pub fn insert_at(&mut self, ufrag: &str, ice_pwd: &str, user_id: &str, channel_id: &str, now: u64)
        requires
            old(self).wf(),
        ensures
            final(self).wf(),
            ufrag_index(final(self).endpoints@, ufrag@) < final(self).endpoints@.len(),
            ({
                let e = final(self).endpoints@[ufrag_index(final(self).endpoints@, ufrag@)];
                &&& e.ice_pwd@ == ice_pwd@
                &&& e.user_id@ == user_id@
                &&& e.channel_id@ == channel_id@
                &&& e.address is None
                &&& e.tracks@.len() == 0
                &&& !e.inbound_srtp.ready()
                &&& !e.outbound_srtp.ready()
            }),
            ufrag_index(old(self).endpoints@, ufrag@) < old(self).endpoints@.len() ==> final(self).endpoints@.len()
                == old(self).endpoints@.len(),
            ufrag_index(old(self).endpoints@, ufrag@) == old(self).endpoints@.len() ==> final(self).endpoints@.len()
                == old(self).endpoints@.len() + 1,
    {
        let i = self.find_ufrag(ufrag);
        let ep = Endpoint::new_at(ufrag.to_owned(), ice_pwd.to_owned(), user_id.to_owned(), channel_id.to_owned(), now);
        let ghost o = self.endpoints@;
        if i < self.endpoints.len() {
            self.endpoints.set(i, ep);
        } else {
            self.endpoints.push(ep);
        }
        proof {
            let n = self.endpoints@;
            assert forall|j: int| 0 <= j < i implies (#[trigger] n[j]).ufrag@ != ufrag@ by {
                assert(n[j] == o[j]);
            }
            lemma_ufrag_index(n, ufrag@, i as int);
            assert forall|a: int, b: int|
                0 <= a < n.len() && 0 <= b < n.len() && a != b implies (#[trigger] n[a]).ufrag@ != (#[trigger] n[b]).ufrag@ by {
                if a == i {
                    if b < o.len() {
                        assert(n[b] == o[b]);
                    }
                } else if b == i {
                    if a < o.len() {
                        assert(n[a] == o[a]);
                    }
                } else {
                    assert(n[a] == o[a]);
                    assert(n[b] == o[b]);
                }
            }
            assert forall|a: int, b: int|
                0 <= a < n.len() && 0 <= b < n.len() && a != b && (#[trigger] n[a]).address is Some implies n[a].address
                != (#[trigger] n[b]).address by {
                if a != i && b != i {
                    assert(n[a] == o[a]);
                    assert(n[b] == o[b]);
                } else if a != i {
                    assert(n[a] == o[a]);
                }
            }
        }
    }

    /// Registers a new endpoint, seen now by the wall clock.
    pub fn insert(&mut self, ufrag: &str, ice_pwd: &str, user_id: &str, channel_id: &str)
        requires
            old(self).wf(),
        ensures
            final(self).wf(),
            ufrag_index(final(self).endpoints@, ufrag@) < final(self).endpoints@.len(),
            ({
                let e = final(self).endpoints@[ufrag_index(final(self).endpoints@, ufrag@)];
                &&& e.ice_pwd@ == ice_pwd@
                &&& e.user_id@ == user_id@
                &&& e.channel_id@ == channel_id@
                &&& e.address is None
                &&& e.tracks@.len() == 0
                &&& !e.inbound_srtp.ready()
                &&& !e.outbound_srtp.ready()
            }),
    {
        let now = current_timestamp();
        self.insert_at(ufrag, ice_pwd, user_id, channel_id, now);
    }

    /// STUN latching: binds `addr` to the endpoint of `ufrag` and marks it
    /// seen at `now`. An address belongs to one endpoint: another endpoint
    /// latched to it is unlatched. False, and no change, for an unknown ufrag.
    pub fn latch_at(&mut self, ufrag: &str, addr: PeerAddr, now: u64) -> (r: bool)
        requires
            old(self).wf(),
        ensures
            final(self).wf(),
            r == (ufrag_index(old(self).endpoints@, ufrag@) < old(self).endpoints@.len()),
            !r ==> final(self).endpoints@ == old(self).endpoints@,
            r ==> addr_index(final(self).endpoints@, addr) == ufrag_index(old(self).endpoints@, ufrag@),
            r ==> final(self).endpoints@[ufrag_index(old(self).endpoints@, ufrag@)].last_seen == now,
            final(self).endpoints@.len() == old(self).endpoints@.len(),
            forall|j: int|
                0 <= j < old(self).endpoints@.len() ==> {
                    &&& (#[trigger] final(self).endpoints@[j]).ufrag == old(self).endpoints@[j].ufrag
                    &&& final(self).endpoints@[j].user_id == old(self).endpoints@[j].user_id
                    &&& final(self).endpoints@[j].channel_id == old(self).endpoints@[j].channel_id
                    &&& final(self).endpoints@[j].ice_pwd == old(self).endpoints@[j].ice_pwd
                    &&& final(self).endpoints@[j].inbound_srtp == old(self).endpoints@[j].inbound_srtp
                    &&& final(self).endpoints@[j].outbound_srtp == old(self).endpoints@[j].outbound_srtp
                },
    {
        let i = self.find_ufrag(ufrag);
        if i >= self.endpoints.len() {
            return false;
        }
        let mut k: usize = 0;
        while k < self.endpoints.len()
            invariant
                i < self.endpoints@.len(),
                0 <= k <= self.endpoints@.len(),
                self.endpoints@.len() == old(self).endpoints@.len(),
                endpoints_wf(self.endpoints@),
                forall|j: int| 0 <= j < k && j != i ==> (#[trigger] self.endpoints@[j]).address != Some(addr),
                forall|j: int|
                    0 <= j < old(self).endpoints@.len() ==> {
                        &&& (#[trigger] self.endpoints@[j]).ufrag == old(self).endpoints@[j].ufrag
                        &&& self.endpoints@[j].user_id == old(self).endpoints@[j].user_id
                        &&& self.endpoints@[j].channel_id == old(self).endpoints@[j].channel_id
                        &&& self.endpoints@[j].ice_pwd == old(self).endpoints@[j].ice_pwd
                        &&& self.endpoints@[j].inbound_srtp == old(self).endpoints@[j].inbound_srtp
                        &&& self.endpoints@[j].outbound_srtp == old(self).endpoints@[j].outbound_srtp
                    },
            decreases self.endpoints@.len() - k,
        {
            let hit = match self.endpoints[k].address {
                Some(a) => a.ip == addr.ip && a.port == addr.port,
                None => false,
            };
            if hit && k != i {
                let ghost before = self.endpoints@;
                self.endpoints[k].address = None;
                proof {
                    let n = self.endpoints@;
                    assert forall|a: int| 0 <= a < n.len() && a != k implies n[a] == before[a] by {}
                    assert forall|a: int, b: int|
                        0 <= a < n.len() && 0 <= b < n.len() && a != b && (#[trigger] n[a]).address is Some
                            implies n[a].address != (#[trigger] n[b]).address by {
                        if a != k && b != k {
                            assert(n[a] == before[a]);
                            assert(n[b] == before[b]);
                        } else if a != k {
                            assert(n[a] == before[a]);
                        }
                    }
                    assert forall|a: int, b: int|
                        0 <= a < n.len() && 0 <= b < n.len() && a != b implies (#[trigger] n[a]).ufrag@
                            != (#[trigger] n[b]).ufrag@ by {
                        assert(n[a].ufrag == before[a].ufrag);
                        assert(n[b].ufrag == before[b].ufrag);
                    }
                }
            }
            k = k + 1;
        }
        let ghost before = self.endpoints@;
        self.endpoints[i].address = Some(addr);
        self.endpoints[i].last_seen = now;
        proof {
            let n = self.endpoints@;
            assert forall|a: int| 0 <= a < n.len() && a != i implies n[a] == before[a] by {}
            assert forall|a: int, b: int|
                0 <= a < n.len() && 0 <= b < n.len() && a != b && (#[trigger] n[a]).address is Some implies n[a].address
                    != (#[trigger] n[b]).address by {
                if a != i && b != i {
                    assert(n[a] == before[a]);
                    assert(n[b] == before[b]);
                } else if a != i {
                    assert(n[a] == before[a]);
                }
            }
            assert forall|a: int, b: int|
                0 <= a < n.len() && 0 <= b < n.len() && a != b implies (#[trigger] n[a]).ufrag@ != (#[trigger] n[b]).ufrag@ by {
                assert(n[a].ufrag == before[a].ufrag);
                assert(n[b].ufrag == before[b].ufrag);
            }
            lemma_latched_lookup_exact(n, i as int);
        }
        true
    }

    /// STUN latching, seen now by the wall clock.
    pub fn latch(&mut self, ufrag: &str, addr: PeerAddr) -> (r: bool)
        requires
            old(self).wf(),
        ensures
            final(self).wf(),
            r == (ufrag_index(old(self).endpoints@, ufrag@) < old(self).endpoints@.len()),
            r ==> addr_index(final(self).endpoints@, addr) == ufrag_index(old(self).endpoints@, ufrag@),
            !r ==> final(self).endpoints@ == old(self).endpoints@,
            final(self).endpoints@.len() == old(self).endpoints@.len(),
            forall|j: int|
                0 <= j < old(self).endpoints@.len() ==> {
                    &&& (#[trigger] final(self).endpoints@[j]).ufrag == old(self).endpoints@[j].ufrag
                    &&& final(self).endpoints@[j].user_id == old(self).endpoints@[j].user_id
                    &&& final(self).endpoints@[j].channel_id == old(self).endpoints@[j].channel_id
                    &&& final(self).endpoints@[j].ice_pwd == old(self).endpoints@[j].ice_pwd
                    &&& final(self).endpoints@[j].inbound_srtp == old(self).endpoints@[j].inbound_srtp
                    &&& final(self).endpoints@[j].outbound_srtp == old(self).endpoints@[j].outbound_srtp
                },
    {
        let now = current_timestamp();
        self.latch_at(ufrag, addr, now)
    }

    /// The endpoint latched to `addr`, if any.
    pub fn get_by_addr(&self, addr: &PeerAddr) -> (r: Option<&Endpoint>)
        ensures
            match r {
                Some(e) => addr_index(self.endpoints@, *addr) < self.endpoints@.len() && *e
                    == self.endpoints@[addr_index(self.endpoints@, *addr)] && e.address == Some(*addr),
                None => forall|j: int|
                    0 <= j < self.endpoints@.len() ==> (#[trigger] self.endpoints@[j]).address != Some(*addr),
            },
    {
        let i = self.find_addr(addr);
        if i < self.endpoints.len() {
            Some(&self.endpoints[i])
        } else {
            None
        }
    }

    /// The endpoint of `ufrag`, if any.
    pub fn get_by_ufrag(&self, ufrag: &str) -> (r: Option<&Endpoint>)
        ensures
            match r {
                Some(e) => ufrag_index(self.endpoints@, ufrag@) < self.endpoints@.len() && *e
                    == self.endpoints@[ufrag_index(self.endpoints@, ufrag@)],
                None => ufrag_index(self.endpoints@, ufrag@) == self.endpoints@.len(),
            },
    {
        let i = self.find_ufrag(ufrag);
        if i < self.endpoints.len() {
            Some(&self.endpoints[i])
        } else {
            None
        }
    }

    /// Deletes the endpoint of `ufrag` together with its address binding.
    pub fn remove(&mut self, ufrag: &str)
        requires
            old(self).wf(),
        ensures
            final(self).wf(),
            ufrag_index(old(self).endpoints@, ufrag@) < old(self).endpoints@.len() ==> final(self).endpoints@
                == old(self).endpoints@.remove(ufrag_index(old(self).endpoints@, ufrag@)),
            ufrag_index(old(self).endpoints@, ufrag@) == old(self).endpoints@.len() ==> final(self).endpoints@
                == old(self).endpoints@,
            forall|j: int| 0 <= j < final(self).endpoints@.len() ==> (#[trigger] final(self).endpoints@[j]).ufrag@ != ufrag@,
            forall|j: int|
                0 <= j < final(self).endpoints@.len() ==> old(self).endpoints@.contains(
                    #[trigger] final(self).endpoints@[j],
                ),
    {
        let i = self.find_ufrag(ufrag);
        if i < self.endpoints.len() {
            let ghost o = self.endpoints@;
            self.endpoints.remove(i);
            proof {
                let n = self.endpoints@;
                assert forall|a: int| 0 <= a < n.len() implies n[a] == o[if a < i { a } else { a + 1 }] by {}
                assert forall|a: int, b: int|
                    0 <= a < n.len() && 0 <= b < n.len() && a != b implies (#[trigger] n[a]).ufrag@ != (#[trigger] n[b]).ufrag@ by {
                    let aa = if a < i { a } else { a + 1 };
                    let bb = if b < i { b } else { b + 1 };
                    assert(n[a] == o[aa]);
                    assert(n[b] == o[bb]);
                }
                assert forall|a: int, b: int|
                    0 <= a < n.len() && 0 <= b < n.len() && a != b && (#[trigger] n[a]).address is Some
                        implies n[a].address != (#[trigger] n[b]).address by {
                    let aa = if a < i { a } else { a + 1 };
                    let bb = if b < i { b } else { b + 1 };
                    assert(n[a] == o[aa]);
                    assert(n[b] == o[bb]);
                }
                assert forall|j: int| 0 <= j < n.len() implies (#[trigger] n[j]).ufrag@ != ufrag@ by {
                    let jj = if j < i { j } else { j + 1 };
                    assert(n[j] == o[jj]);
                    assert(o[i as int].ufrag@ == ufrag@);
                }
                assert forall|j: int| 0 <= j < n.len() implies o.contains(#[trigger] n[j]) by {
                    let jj = if j < i { j } else { j + 1 };
                    assert(n[j] == o[jj]);
                }
            }
        } else {
            proof {
                assert forall|j: int| 0 <= j < self.endpoints@.len() implies self.endpoints@.contains(
                    #[trigger] self.endpoints@[j],
                ) by {}
            }
        }
    }

    /// The endpoints of `channel_id`, in hub order.
    pub fn get_channel_endpoints(&self, channel_id: &str) -> (r: Vec<&Endpoint>)
        ensures
            forall|k: int| 0 <= k < r@.len() ==> (#[trigger] r@[k]).channel_id@ == channel_id@,
            r@.len() == self.endpoints@.filter(|e: Endpoint| e.channel_id@ == channel_id@).len(),
    {
        let mut out: Vec<&Endpoint> = Vec::new();
        let mut i: usize = 0;
        let ghost pred = |e: Endpoint| e.channel_id@ == channel_id@;
        proof {
            assert(self.endpoints@.take(0) =~= Seq::<Endpoint>::empty());
            reveal(Seq::filter);
        }
        while i < self.endpoints.len()
            invariant
                pred == (|e: Endpoint| e.channel_id@ == channel_id@),
                0 <= i <= self.endpoints@.len(),
                forall|k: int| 0 <= k < out@.len() ==> (#[trigger] out@[k]).channel_id@ == channel_id@,
                out@.len() == self.endpoints@.take(i as int).filter(pred).len(),
            decreases self.endpoints@.len() - i,
        {
            proof {
                reveal(Seq::filter);
                assert(self.endpoints@.take(i as int + 1).drop_last() =~= self.endpoints@.take(i as int));
                assert(self.endpoints@.take(i as int + 1).last() == self.endpoints@[i as int]);
            }
            if str_eq(self.endpoints[i].channel_id.as_str(), channel_id) {
                out.push(&self.endpoints[i]);
            }
            i = i + 1;
        }
        proof {
            assert(self.endpoints@.take(i as int) =~= self.endpoints@);
        }
        out
    }

    /// Every endpoint, in hub order.
    pub fn all_endpoints(&self) -> (r: Vec<&Endpoint>)
        ensures
            r@.len() == self.endpoints@.len(),
            forall|k: int| 0 <= k < r@.len() ==> *(#[trigger] r@[k]) == self.endpoints@[k],
    {
        let mut out: Vec<&Endpoint> = Vec::new();
        let mut i: usize = 0;
        while i < self.endpoints.len()
            invariant
                0 <= i <= self.endpoints@.len(),
                out@.len() == i,
                forall|k: int| 0 <= k < out@.len() ==> *(#[trigger] out@[k]) == self.endpoints@[k],
            decreases self.endpoints@.len() - i,
        {
            out.push(&self.endpoints[i]);
            i = i + 1;
        }
        out
    }

    /// Ufrags of endpoints silent for at least `timeout_ms`, by the wall clock.
    pub fn find_zombies(&self, timeout_ms: u64) -> (r: Vec<String>)
        ensures
            forall|u: Seq<char>| #[trigger] names(r@, u) ==> ufrag_index(self.endpoints@, u) < self.endpoints@.len(),
    {
        let now = current_timestamp();
        let r = self.find_zombies_at(timeout_ms, now);
        proof {
            assert forall|u: Seq<char>| #[trigger] names(r@, u) implies ufrag_index(self.endpoints@, u)
                < self.endpoints@.len() by {
                assert(is_zombie_ep(self.endpoints@, u, timeout_ms, now));
                let j = choose|j: int|
                    0 <= j < self.endpoints@.len() && (#[trigger] self.endpoints@[j]).ufrag@ == u && ep_silent(
                        self.endpoints@[j],
                        timeout_ms,
                        now,
                    );
                lemma_ufrag_index_found(self.endpoints@, u, j);
            }
        }
        r
    }

    /// Adds a track to the endpoint of `ufrag`, unless it knows the SSRC.
    pub fn add_track(&mut self, ufrag: &str, ssrc: u32, kind: TrackKind)
        requires
            old(self).wf(),
        ensures
            final(self).wf(),
            keying_kept(old(self).endpoints@, final(self).endpoints@),
            forall|j: int|
                0 <= j < old(self).endpoints@.len() ==> (#[trigger] final(self).endpoints@[j]).ice_pwd
                    == old(self).endpoints@[j].ice_pwd,
            ufrag_index(old(self).endpoints@, ufrag@) < old(self).endpoints@.len() && old(self).endpoints@[ufrag_index(
                old(self).endpoints@,
                ufrag@,
            )].tracks@.len() == 0 ==> final(self).endpoints@[ufrag_index(old(self).endpoints@, ufrag@)].tracks@
                == seq![Track { ssrc, kind }],
    {
        let i = self.find_ufrag(ufrag);
        if i < self.endpoints.len() {
            let ghost before = self.endpoints@;
            self.endpoints[i].add_track(ssrc, kind);
            proof {
                let n = self.endpoints@;
                assert forall|a: int| 0 <= a < n.len() && a != i implies n[a] == before[a] by {}
                assert(keying_kept(before, n));
                lemma_keying_kept_wf(before, n);
            }
        }
    }

    /// The number of endpoints.
    pub fn count(&self) -> (r: usize)
        ensures
            r == self.endpoints@.len(),
    {
        self.endpoints.len()
    }

    /// Ufrags of the endpoints silent for at least `timeout_ms` at `now`.
    pub fn find_zombies_at(&self, timeout_ms: u64, now: u64) -> (r: Vec<String>)
        ensures
            forall|u: Seq<char>|
                #![trigger names(r@, u)]
                #![trigger is_zombie_ep(self.endpoints@, u, timeout_ms, now)]
                names(r@, u) <==> is_zombie_ep(self.endpoints@, u, timeout_ms, now),
    {
        let mut out: Vec<String> = Vec::new();
        let mut i: usize = 0;
        while i < self.endpoints.len()
            invariant
                0 <= i <= self.endpoints@.len(),
                forall|u: Seq<char>|
                    #![trigger names(out@, u)]
                    #![trigger is_zombie_ep(self.endpoints@.take(i as int), u, timeout_ms, now)]
                    names(out@, u) <==> is_zombie_ep(self.endpoints@.take(i as int), u, timeout_ms, now),
            decreases self.endpoints@.len() - i,
        {
            let ghost before = out@;
            let ghost es = self.endpoints@;
            if now.saturating_sub(self.endpoints[i].last_seen) >= timeout_ms {
                out.push(self.endpoints[i].ufrag.clone());
            }
            proof {
                let t0 = es.take(i as int);
                let t1 = es.take(i as int + 1);
                assert forall|v: Seq<char>| names(out@, v) <==> is_zombie_ep(t1, v, timeout_ms, now) by {
                    if names(out@, v) {
                        let k = choose|k: int| 0 <= k < out@.len() && (#[trigger] out@[k])@ == v;
                        if k < before.len() {
                            assert(before[k] == out@[k]);
                            assert(names(before, v));
                            let j = choose|j: int|
                                0 <= j < t0.len() && (#[trigger] t0[j]).ufrag@ == v && ep_silent(t0[j], timeout_ms, now);
                            assert(t1[j] == t0[j]);
                        } else {
                            assert(t1[i as int] == es[i as int]);
                            assert(t1[i as int].ufrag@ == v);
                            assert(ep_silent(t1[i as int], timeout_ms, now));
                        }
                    }
                    if is_zombie_ep(t1, v, timeout_ms, now) {
                        let j = choose|j: int|
                            0 <= j < t1.len() && (#[trigger] t1[j]).ufrag@ == v && ep_silent(t1[j], timeout_ms, now);
                        if j < i {
                            assert(t0[j] == t1[j]);
                            assert(is_zombie_ep(t0, v, timeout_ms, now));
                            let k = choose|k: int| 0 <= k < before.len() && (#[trigger] before[k])@ == v;
                            assert(out@[k] == before[k]);
                        } else {
                            assert(t1[j] == es[i as int]);
                            assert(out@[out@.len() - 1]@ == v);
                        }
                    }
                }
            }
            i = i + 1;
        }
        proof {
            assert(self.endpoints@.take(i as int) =~= self.endpoints@);
        }
        out
    }

    /// Records traffic from the endpoint latched to `addr` at `now`.
    pub fn touch_at(&mut self, addr: &PeerAddr, now: u64)
        requires
            old(self).wf(),
        ensures
            final(self).wf(),
            keying_kept(old(self).endpoints@, final(self).endpoints@),
            addr_index(old(self).endpoints@, *addr) < old(self).endpoints@.len() ==> final(self).endpoints@[addr_index(
                old(self).endpoints@,
                *addr,
            )].last_seen == now,
            addr_index(old(self).endpoints@, *addr) == old(self).endpoints@.len() ==> final(self).endpoints@ == old(
                self,
            ).endpoints@,
    {
        let i = self.find_addr(addr);
        if i < self.endpoints.len() {
            let ghost before = self.endpoints@;
            self.endpoints[i].last_seen = now;
            proof {
                let n = self.endpoints@;
                assert forall|a: int| 0 <= a < n.len() && a != i implies n[a] == before[a] by {}
                assert forall|a: int, b: int|
                    0 <= a < n.len() && 0 <= b < n.len() && a != b && (#[trigger] n[a]).address is Some
                        implies n[a].address != (#[trigger] n[b]).address by {
                    assert(n[a].address == before[a].address);
                    assert(n[b].address == before[b].address);
                }
                assert forall|a: int, b: int|
                    0 <= a < n.len() && 0 <= b < n.len() && a != b implies (#[trigger] n[a]).ufrag@ != (#[trigger] n[b]).ufrag@ by {
                    assert(n[a].ufrag == before[a].ufrag);
                    assert(n[b].ufrag == before[b].ufrag);
                }
            }
        }
    }
}

/// `u` is the ufrag of an endpoint of `eps` silent for at least `timeout_ms` at `now`.
pub open spec fn is_zombie_ep(eps: Seq<Endpoint>, u: Seq<char>, timeout_ms: u64, now: u64) -> bool {
    exists|j: int| 0 <= j < eps.len() && (#[trigger] eps[j]).ufrag@ == u && ep_silent(eps[j], timeout_ms, now)
}

/// `e` has been silent for at least `timeout_ms` at `now`.
pub open spec fn ep_silent(e: Endpoint, timeout_ms: u64, now: u64) -> bool {
    (if now >= e.last_seen {
        now - e.last_seen
    } else {
        0
    }) >= timeout_ms
}

/// A datagram to send on the media socket.
pub struct Datagram {
    pub to: PeerAddr,
    pub bytes: Vec<u8>,
}

/// Keeping ufrags and addresses keeps the hub's invariant.
pub proof fn lemma_keying_kept_wf(o: Seq<Endpoint>, n: Seq<Endpoint>)
    requires
        endpoints_wf(o),
        keying_kept(o, n),
    ensures
        endpoints_wf(n),
{
    assert forall|a: int, b: int|
        0 <= a < n.len() && 0 <= b < n.len() && a != b implies (#[trigger] n[a]).ufrag@ != (#[trigger] n[b]).ufrag@ by {
        assert(n[a].ufrag == o[a].ufrag);
        assert(n[b].ufrag == o[b].ufrag);
    }
    assert forall|a: int, b: int|
        0 <= a < n.len() && 0 <= b < n.len() && a != b && (#[trigger] n[a]).address is Some implies n[a].address
            != (#[trigger] n[b]).address by {
        assert(n[a].address == o[a].address);
        assert(n[b].address == o[b].address);
    }
}

/// Endpoint `i` holds the floor of its channel.
pub open spec fn holds_floor_at(eps: Seq<Endpoint>, channels: ChannelHub, i: int) -> bool {
    &&& 0 <= i < eps.len()
    &&& has_channel(channels.channels@, eps[i].channel_id@)
    &&& channels.channels@[channel_index(channels.channels@, eps[i].channel_id@)].floor.is_holder(eps[i].user_id@)
}

/// The sender of a packet from `src` holds the floor of its channel.
pub open spec fn sender_holds_floor(eps: Seq<Endpoint>, channels: ChannelHub, src: PeerAddr) -> bool {
    holds_floor_at(eps, channels, addr_index(eps, src))
}

/// Endpoint `j` receives what sender `s` relays: another endpoint of the
/// same channel, latched, with a keyed outbound context.
pub open spec fn is_relay_target(eps: Seq<Endpoint>, s: int, j: int) -> bool {
    &&& 0 <= j < eps.len()
    &&& j != s
    &&& eps[j].channel_id@ == eps[s].channel_id@
    &&& eps[j].address is Some
    &&& eps[j].outbound_srtp.ready()
}

/// The relay targets of sender `s` among the first `n` endpoints, in order.
pub open spec fn relay_targets(eps: Seq<Endpoint>, s: int, n: int) -> Seq<int>
    decreases n,
{
    if n <= 0 {
        seq![]
    } else if is_relay_target(eps, s, n - 1) {
        relay_targets(eps, s, n - 1).push(n - 1)
    } else {
        relay_targets(eps, s, n - 1)
    }
}

/// Addresses of the targets `t` whose outcome in `ok` is `want`, in order.
pub open spec fn chosen_addrs(eps: Seq<Endpoint>, t: Seq<int>, ok: Seq<bool>, want: bool) -> Seq<PeerAddr>
    decreases t.len(),
{
    if t.len() == 0 || ok.len() == 0 {
        seq![]
    } else if ok.last() == want {
        chosen_addrs(eps, t.drop_last(), ok.drop_last(), want).push(eps[t.last()].address->0)
    } else {
        chosen_addrs(eps, t.drop_last(), ok.drop_last(), want)
    }
}

/// `sent` and `failed` split the relay targets of sender `s`, in order, by
/// the outcomes `ok` of protecting the cleartext for each.
pub open spec fn fanned(eps: Seq<Endpoint>, s: int, ok: Seq<bool>, sent: Seq<PeerAddr>, failed: Seq<PeerAddr>) -> bool {
    let t = relay_targets(eps, s, eps.len() as int);
    &&& ok.len() == t.len()
    &&& sent == chosen_addrs(eps, t, ok, true)
    &&& failed == chosen_addrs(eps, t, ok, false)
}

/// Where datagrams go, in order.
pub open spec fn destinations(ds: Seq<Datagram>) -> Seq<PeerAddr> {
    ds.map_values(|d: Datagram| d.to)
}

/// Relay targets depend only on channels, addresses and outbound keying.
proof fn lemma_relay_targets_same(a: Seq<Endpoint>, b: Seq<Endpoint>, s: int, n: int)
    requires
        a.len() == b.len(),
        0 <= s < a.len(),
        forall|k: int|
            0 <= k < a.len() ==> (#[trigger] a[k]).channel_id == b[k].channel_id && a[k].address == b[k].address
                && a[k].outbound_srtp.ready() == b[k].outbound_srtp.ready(),
    ensures
        relay_targets(a, s, n) == relay_targets(b, s, n),
        forall|t: Seq<int>, ok: Seq<bool>, w: bool|
            (forall|k: int| 0 <= k < t.len() ==> 0 <= #[trigger] t[k] < a.len()) ==> #[trigger] chosen_addrs(a, t, ok, w)
                == chosen_addrs(b, t, ok, w),
    decreases n,
{
    if n > 0 {
        lemma_relay_targets_same(a, b, s, n - 1);
        if 0 <= n - 1 < a.len() {
            assert(a[n - 1].channel_id == b[n - 1].channel_id);
        }
        assert(a[s].channel_id == b[s].channel_id);
    }
    assert forall|t: Seq<int>, ok: Seq<bool>, w: bool|
        (forall|k: int| 0 <= k < t.len() ==> 0 <= #[trigger] t[k] < a.len()) implies #[trigger] chosen_addrs(a, t, ok, w)
        == chosen_addrs(b, t, ok, w) by {
        lemma_chosen_same(a, b, t, ok, w);
    }
}

proof fn lemma_chosen_same(a: Seq<Endpoint>, b: Seq<Endpoint>, t: Seq<int>, ok: Seq<bool>, w: bool)
    requires
        a.len() == b.len(),
        forall|k: int| 0 <= k < a.len() ==> (#[trigger] a[k]).address == b[k].address,
        forall|k: int| 0 <= k < t.len() ==> 0 <= #[trigger] t[k] < a.len(),
    ensures
        chosen_addrs(a, t, ok, w) == chosen_addrs(b, t, ok, w),
    decreases t.len(),
{
    if t.len() > 0 && ok.len() > 0 {
        assert forall|k: int| 0 <= k < t.drop_last().len() implies 0 <= #[trigger] t.drop_last()[k] < a.len() by {
            assert(t.drop_last()[k] == t[k]);
        }
        lemma_chosen_same(a, b, t.drop_last(), ok.drop_last(), w);
        assert(a[t.last()].address == b[t.last()].address);
    }
}

/// Every relay target is an index below `n`.
proof fn lemma_relay_targets_bounded(eps: Seq<Endpoint>, s: int, n: int)
    ensures
        forall|k: int| 0 <= k < relay_targets(eps, s, n).len() ==> 0 <= #[trigger] relay_targets(eps, s, n)[k] < n
            && relay_targets(eps, s, n)[k] < eps.len(),
    decreases n,
{
    if n > 0 {
        lemma_relay_targets_bounded(eps, s, n - 1);
        let t = relay_targets(eps, s, n - 1);
        if is_relay_target(eps, s, n - 1) {
            assert forall|k: int| 0 <= k < t.push(n - 1).len() implies 0 <= #[trigger] t.push(n - 1)[k] < n
                && t.push(n - 1)[k] < eps.len() by {
                if k < t.len() {
                    assert(t.push(n - 1)[k] == t[k]);
                }
            }
        }
    }
}

impl MediaPeerHub {
    /// Fans the cleartext `plain` from endpoint `sender` out to its channel:
    /// nothing unless the sender holds the floor; otherwise, in endpoint
    /// order, each relay target is protected afresh and either gets one
    /// datagram to its address, or lands in the second list when its
    /// protection fails.
    pub fn fan_out(&mut self, channels: &ChannelHub, sender: usize, plain: &[u8]) -> (r: (Vec<Datagram>, Vec<PeerAddr>))
        requires
            old(self).wf(),
            sender < old(self).endpoints@.len(),
        ensures
            final(self).wf(),
            keying_kept(old(self).endpoints@, final(self).endpoints@),
            final(self).endpoints@[sender as int] == old(self).endpoints@[sender as int],
            !holds_floor_at(old(self).endpoints@, *channels, sender as int) ==> r.0@.len() == 0 && r.1@.len() == 0
                && final(self).endpoints@ == old(self).endpoints@,
            holds_floor_at(old(self).endpoints@, *channels, sender as int) ==> exists|ok: Seq<bool>|
                #[trigger] fanned(old(self).endpoints@, sender as int, ok, destinations(r.0@), r.1@),
    {
        let mut out: Vec<Datagram> = Vec::new();
        let mut failed: Vec<PeerAddr> = Vec::new();
        let ghost o = self.endpoints@;
        let channel_id = self.endpoints[sender].channel_id.clone();
        let user_id = self.endpoints[sender].user_id.clone();
        let granted = match channels.get(channel_id.as_str()) {
            Some(ch) => crate::protocol::floor::holds_floor(&ch.floor, user_id.as_str()),
            None => false,
        };
        proof {
            assert(channel_id@ == o[sender as int].channel_id@);
            assert(user_id@ == o[sender as int].user_id@);
        }
        if !granted {
            proof {
                assert(!holds_floor_at(o, *channels, sender as int));
            }
            return (out, failed);
        }
        proof {
            assert(holds_floor_at(o, *channels, sender as int));
        }
        let ghost s = sender as int;
        let ghost mut ok: Seq<bool> = seq![];
        let n = self.endpoints.len();
        let mut j: usize = 0;
        proof {
            assert(destinations(out@) =~= Seq::<PeerAddr>::empty());
        }
        while j < n
            invariant
                n == o.len(),
                s < o.len(),
                s == sender as int,
                channel_id@ == o[s].channel_id@,
                keying_kept(o, self.endpoints@),
                self.endpoints@[s] == o[s],
                forall|a: int| j <= a < n ==> self.endpoints@[a] == o[a],
                0 <= j <= n,
                ok.len() == relay_targets(o, s, j as int).len(),
                destinations(out@) == chosen_addrs(o, relay_targets(o, s, j as int), ok, true),
                failed@ == chosen_addrs(o, relay_targets(o, s, j as int), ok, false),
            decreases n - j,
        {
            let target = j != sender && str_eq(self.endpoints[j].channel_id.as_str(), channel_id.as_str())
                && self.endpoints[j].address.is_some() && self.endpoints[j].outbound_srtp.is_ready();
            let ghost t0 = relay_targets(o, s, j as int);
            proof {
                assert(target == is_relay_target(o, s, j as int));
            }
            let ghost ok0 = ok;
            if target {
                let a = match self.endpoints[j].address {
                    Some(a) => a,
                    None => PeerAddr { ip: 0, port: 0 },
                };
                let ghost before = self.endpoints@;
                let sealed = self.endpoints[j].outbound_srtp.encrypt(plain);
                proof {
                    let after = self.endpoints@;
                    assert forall|b: int| 0 <= b < n && b != j implies after[b] == before[b] by {}
                    assert(keying_kept(o, after));
                }
                let ghost prev_out = out@;
                match sealed {
                    Ok(c) => {
                        out.push(Datagram { to: a, bytes: c });
                        proof {
                            ok = ok.push(true);
                            assert(destinations(out@) =~= destinations(prev_out).push(a));
                        }
                    },
                    Err(_) => {
                        failed.push(a);
                        proof {
                            ok = ok.push(false);
                        }
                    },
                }
                proof {
                    let t1 = relay_targets(o, s, j as int + 1);
                    assert(t1 == t0.push(j as int));
                    assert(t1.drop_last() =~= t0);
                    assert(ok.drop_last() =~= ok0);
                    assert(t1.last() == j as int);
                    assert(o[j as int].address->0 == a);
                    assert(chosen_addrs(o, t1, ok, true) == (if ok.last() {
                        chosen_addrs(o, t0, ok0, true).push(a)
                    } else {
                        chosen_addrs(o, t0, ok0, true)
                    }));
                    assert(chosen_addrs(o, t1, ok, false) == (if !ok.last() {
                        chosen_addrs(o, t0, ok0, false).push(a)
                    } else {
                        chosen_addrs(o, t0, ok0, false)
                    }));
                }
            } else {
                proof {
                    assert(relay_targets(o, s, j as int + 1) == t0);
                }
            }
            j = j + 1;
        }
        proof {
            lemma_keying_kept_wf(o, self.endpoints@);
        }
        let r = (out, failed);
        proof {
            assert(fanned(o, s, ok, destinations(r.0@), r.1@));
        }
        r
    }

    /// The hot path for an RTP-range packet from `src` at `now`. An unknown
    /// source changes nothing and gets nothing. A known sender is marked seen
    /// at `now`; SRTCP (payload type 200..=207) is unprotected and dropped;
    /// without an inbound key, or when unprotecting fails, nothing is
    /// relayed; otherwise the cleartext is fanned out (see `fan_out`).
    pub fn relay_srtp_at(&mut self, channels: &ChannelHub, src: &PeerAddr, packet: &[u8], now: u64) -> (r: Vec<
        Datagram,
    >)
        requires
            old(self).wf(),
        ensures
            final(self).wf(),
            keying_kept(old(self).endpoints@, final(self).endpoints@),
            addr_index(old(self).endpoints@, *src) == old(self).endpoints@.len() ==> r@.len() == 0
                && final(self).endpoints@ == old(self).endpoints@,
            addr_index(old(self).endpoints@, *src) < old(self).endpoints@.len() ==> final(self).endpoints@[addr_index(
                old(self).endpoints@,
                *src,
            )].last_seen == now,
            packet@.len() >= 2 && 200 <= packet@[1] <= 207 ==> r@.len() == 0,
            addr_index(old(self).endpoints@, *src) < old(self).endpoints@.len() && !old(
                self,
            ).endpoints@[addr_index(old(self).endpoints@, *src)].inbound_srtp.ready() ==> r@.len() == 0,
            r@.len() > 0 ==> sender_holds_floor(old(self).endpoints@, *channels, *src),
            r@.len() > 0 ==> exists|ok: Seq<bool>, failed: Seq<PeerAddr>|
                #[trigger] fanned(old(self).endpoints@, addr_index(old(self).endpoints@, *src), ok, destinations(r@), failed),
    {
        let out: Vec<Datagram> = Vec::new();
        let i = self.find_addr(src);
        if i >= self.endpoints.len() {
            return out;
        }
        let ghost o = self.endpoints@;
        self.endpoints[i].last_seen = now;
        proof {
            assert(keying_kept(o, self.endpoints@));
            lemma_keying_kept_wf(o, self.endpoints@);
        }
        if packet.len() >= 2 && is_rtcp(packet[1]) {
            let ghost before = self.endpoints@;
            let _ = self.endpoints[i].inbound_srtp.decrypt_rtcp(packet);
            proof {
                assert(keying_kept(before, self.endpoints@));
                assert(keying_kept(o, self.endpoints@));
                lemma_keying_kept_wf(o, self.endpoints@);
            }
            return out;
        }
        if !self.endpoints[i].inbound_srtp.is_ready() {
            return out;
        }
        let ghost before = self.endpoints@;
        let decrypted = self.endpoints[i].inbound_srtp.decrypt(packet);
        let ghost mid = self.endpoints@;
        proof {
            assert forall|b: int| 0 <= b < mid.len() && b != i implies mid[b] == before[b] by {}
            assert(keying_kept(o, mid));
            lemma_keying_kept_wf(o, mid);
            assert forall|k: int|
                0 <= k < o.len() implies (#[trigger] o[k]).channel_id == mid[k].channel_id && o[k].address
                == mid[k].address && o[k].outbound_srtp.ready() == mid[k].outbound_srtp.ready() by {
                if k != i {
                    assert(mid[k] == before[k]);
                }
            }
            lemma_relay_targets_same(o, mid, i as int, o.len() as int);
            lemma_relay_targets_bounded(o, i as int, o.len() as int);
        }
        let plain = match decrypted {
            Ok(p) => p,
            Err(_) => {
                return out;
            },
        };
        let (sent, _failed) = self.fan_out(channels, i, plain.as_slice());
        proof {
            assert(mid[i as int].user_id == o[i as int].user_id);
            if sent@.len() > 0 {
                assert(holds_floor_at(mid, *channels, i as int));
                assert(holds_floor_at(o, *channels, i as int));
                let ok = choose|ok: Seq<bool>| #[trigger] fanned(mid, i as int, ok, destinations(sent@), _failed@);
                assert(fanned(o, i as int, ok, destinations(sent@), _failed@));
            }
            lemma_keying_kept_wf(o, self.endpoints@);
        }
        sent
    }
}

impl MediaPeerHub {
    /// Keys both SRTP directions of the endpoint latched to `addr` from
    /// exported DTLS keying material; `KeyNotInstalled` when no endpoint is
    /// latched there. No context anywhere goes from keyed to unkeyed.
    pub fn install_keys(&mut self, addr: &PeerAddr, material: &[u8]) -> (r: Result<(), SrtpError>)
        requires
            old(self).wf(),
        ensures
            final(self).wf(),
            keying_kept(old(self).endpoints@, final(self).endpoints@),
            addr_index(old(self).endpoints@, *addr) == old(self).endpoints@.len() ==> r matches Err(
                SrtpError::KeyNotInstalled,
            ),
            addr_index(old(self).endpoints@, *addr) < old(self).endpoints@.len() && material@.len()
                == crate::media::srtp::KEYING_MATERIAL_LEN ==> r is Ok,
            r is Ok ==> ({
                let i = addr_index(old(self).endpoints@, *addr);
                &&& i < final(self).endpoints@.len()
                &&& final(self).endpoints@[i].inbound_srtp.ready()
                &&& final(self).endpoints@[i].outbound_srtp.ready()
                &&& final(self).endpoints@[i].inbound_srtp.master() == Some(
                    (material@.subrange(0, 16), material@.subrange(32, 46)),
                )
                &&& final(self).endpoints@[i].outbound_srtp.master() == Some(
                    (material@.subrange(16, 32), material@.subrange(46, 60)),
                )
            }),
    {
        let i = self.find_addr(addr);
        if i >= self.endpoints.len() {
            return Err(SrtpError::KeyNotInstalled);
        }
        let ghost before = self.endpoints@;
        let ep = &mut self.endpoints[i];
        let r = install_keying_material(&mut ep.inbound_srtp, &mut ep.outbound_srtp, material);
        proof {
            let n = self.endpoints@;
            assert forall|a: int| 0 <= a < n.len() && a != i implies n[a] == before[a] by {}
            assert(keying_kept(before, n));
            lemma_keying_kept_wf(before, n);
        }
        r
    }
}

} // verus!
