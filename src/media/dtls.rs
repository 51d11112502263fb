//! DTLS records: what to do with each one, and the buffer of records that
//! arrive before STUN has latched their source address.

use vstd::prelude::*;

use crate::media::stun::PeerAddr;

verus! {

/// Where an incoming DTLS record goes.
#[derive(Debug, Clone, Copy, PartialEq, Eq, Structural)]
pub enum DtlsRoute {
    /// Into the handshake already running for its source.
    Inject,
    /// Into a new handshake worker, as its first input.
    StartHandshake,
    /// Into the pending buffer, until STUN latches the source.
    Pending,
}

/// Routing of a DTLS record: a running handshake takes it; else a latched
/// endpoint gets a new handshake; else it waits for STUN.
pub fn route_dtls(session_exists: bool, endpoint_latched: bool) -> (r: DtlsRoute)
    ensures
        session_exists ==> r == DtlsRoute::Inject,
        !session_exists && endpoint_latched ==> r == DtlsRoute::StartHandshake,
        !session_exists && !endpoint_latched ==> r == DtlsRoute::Pending,
{
    if session_exists {
        DtlsRoute::Inject
    } else if endpoint_latched {
        DtlsRoute::StartHandshake
    } else {
        DtlsRoute::Pending
    }
}

/// Records buffered per source address, in arrival order.
pub struct PendingDtls {
    pub addrs: Vec<PeerAddr>,
    pub packets: Vec<Vec<Vec<u8>>>,
}

/// The records buffered for `addr` in `addrs`/`packets`.
pub open spec fn pending_for(addrs: Seq<PeerAddr>, packets: Seq<Vec<Vec<u8>>>, addr: PeerAddr) -> Seq<Seq<u8>>
    decreases addrs.len(),
{
    if addrs.len() == 0 || packets.len() == 0 {
        Seq::empty()
    } else if addrs[0] == addr {
        packets[0]@.map_values(|p: Vec<u8>| p@)
    } else {
        pending_for(addrs.drop_first(), packets.drop_first(), addr)
    }
}

impl PendingDtls {
    /// One buffer per address, aligned with its address.
    pub open spec fn wf(&self) -> bool {
        &&& self.addrs@.len() == self.packets@.len()
        &&& forall|i: int, j: int|
            0 <= i < self.addrs@.len() && 0 <= j < self.addrs@.len() && i != j ==> self.addrs@[i]
                != self.addrs@[j]
    }

    /// The records buffered for `addr`, oldest first.
    pub open spec fn queued(&self, addr: PeerAddr) -> Seq<Seq<u8>> {
        pending_for(self.addrs@, self.packets@, addr)
    }

    /// Nothing buffered.
    pub fn new() -> (r: PendingDtls)
        ensures
            r.wf(),
            forall|a: PeerAddr| r.queued(a) == Seq::<Seq<u8>>::empty(),
    {
        PendingDtls { addrs: Vec::new(), packets: Vec::new() }
    }

    fn find(&self, addr: &PeerAddr) -> (r: usize)
        requires
            self.wf(),
        ensures
            r <= self.addrs@.len(),
            r < self.addrs@.len() ==> self.addrs@[r as int] == *addr && self.queued(*addr)
                == self.packets@[r as int]@.map_values(|p: Vec<u8>| p@),
            r == self.addrs@.len() ==> self.queued(*addr) == Seq::<Seq<u8>>::empty(),
            forall|j: int| 0 <= j < r ==> self.addrs@[j] != *addr,
    {
        let mut i: usize = 0;
        proof {
            assert(self.addrs@.skip(0) =~= self.addrs@);
            assert(self.packets@.skip(0) =~= self.packets@);
        }
        while i < self.addrs.len()
            invariant
                self.wf(),
                0 <= i <= self.addrs@.len(),
                forall|j: int| 0 <= j < i ==> self.addrs@[j] != *addr,
                self.queued(*addr) == pending_for(self.addrs@.skip(i as int), self.packets@.skip(i as int), *addr),
            decreases self.addrs@.len() - i,
        {
            let a = self.addrs[i];
            proof {
                assert(self.addrs@.skip(i as int).drop_first() =~= self.addrs@.skip(i as int + 1));
                assert(self.packets@.skip(i as int).drop_first() =~= self.packets@.skip(i as int + 1));
            }
            if a.ip == addr.ip && a.port == addr.port {
                return i;
            }
            i = i + 1;
        }
        i
    }

    /// Buffers `packet` behind the others of `addr`.
    pub fn enqueue_pending(&mut self, addr: PeerAddr, packet: Vec<u8>)
        requires
            old(self).wf(),
        ensures
            final(self).wf(),
            final(self).queued(addr) == old(self).queued(addr).push(packet@),
            forall|a: PeerAddr| a != addr ==> #[trigger] final(self).queued(a) == old(self).queued(a),
    {
        let i = self.find(&addr);
        if i < self.addrs.len() {
            let ghost before = self.packets@;
            self.packets[i].push(packet);
            proof {
                assert forall|a: PeerAddr| a != addr implies #[trigger] pending_for(self.addrs@, self.packets@, a)
                    == pending_for(self.addrs@, before, a) by {
                    lemma_pending_update(self.addrs@, self.packets@, before, a);
                }
                lemma_pending_at(self.addrs@, self.packets@, addr, i as int);
                assert(self.packets@[i as int]@.map_values(|p: Vec<u8>| p@) =~= before[i as int]@.map_values(
                    |p: Vec<u8>| p@,
                ).push(packet@));
            }
        } else {
            let mut q: Vec<Vec<u8>> = Vec::new();
            q.push(packet);
            let ghost oa = self.addrs@;
            let ghost op = self.packets@;
            self.addrs.push(addr);
            self.packets.push(q);
            proof {
                assert forall|a: PeerAddr| a != addr implies #[trigger] pending_for(self.addrs@, self.packets@, a)
                    == pending_for(oa, op, a) by {
                    lemma_pending_push(oa, op, addr, q, a);
                }
                lemma_pending_at(self.addrs@, self.packets@, addr, i as int);
                assert(self.packets@[i as int]@.map_values(|p: Vec<u8>| p@) =~= seq![packet@]);
                assert(Seq::<Seq<u8>>::empty().push(packet@) =~= seq![packet@]);
            }
        }
    }

    /// Takes every record buffered for `addr`, oldest first.
    pub fn drain_pending(&mut self, addr: &PeerAddr) -> (r: Vec<Vec<u8>>)
        requires
            old(self).wf(),
        ensures
            final(self).wf(),
            r@.map_values(|p: Vec<u8>| p@) == old(self).queued(*addr),
            final(self).queued(*addr) == Seq::<Seq<u8>>::empty(),
            forall|a: PeerAddr| a != *addr ==> #[trigger] final(self).queued(a) == old(self).queued(a),
    {
        let i = self.find(addr);
        if i < self.addrs.len() {
            let ghost oa = self.addrs@;
            let ghost op = self.packets@;
            self.addrs.remove(i);
            let q = self.packets.remove(i);
            proof {
                assert forall|a: PeerAddr| a != *addr implies #[trigger] pending_for(self.addrs@, self.packets@, a)
                    == pending_for(oa, op, a) by {
                    lemma_pending_remove(oa, op, i as int, a);
                }
                let na = self.addrs@;
                assert forall|x: int, y: int| 0 <= x < na.len() && 0 <= y < na.len() && x != y implies na[x]
                    != na[y] by {
                    let xx = if x < i { x } else { x + 1 };
                    let yy = if y < i { y } else { y + 1 };
                    assert(na[x] == oa[xx]);
                    assert(na[y] == oa[yy]);
                }
                assert forall|j: int| 0 <= j < na.len() implies na[j] != *addr by {
                    let jj = if j < i { j } else { j + 1 };
                    assert(na[j] == oa[jj]);
                }
                lemma_pending_absent(na, self.packets@, *addr);
            }
            q
        } else {
            Vec::new()
        }
    }
}

/// The buffer found at the address's slot is its queue.
proof fn lemma_pending_at(addrs: Seq<PeerAddr>, packets: Seq<Vec<Vec<u8>>>, addr: PeerAddr, i: int)
    requires
        addrs.len() == packets.len(),
        0 <= i < addrs.len(),
        addrs[i] == addr,
        forall|j: int| 0 <= j < i ==> addrs[j] != addr,
    ensures
        pending_for(addrs, packets, addr) == packets[i]@.map_values(|p: Vec<u8>| p@),
    decreases addrs.len(),
{
    if i > 0 {
        assert forall|j: int| 0 <= j < i - 1 implies addrs.drop_first()[j] != addr by {
            assert(addrs[j + 1] == addrs.drop_first()[j]);
        }
        lemma_pending_at(addrs.drop_first(), packets.drop_first(), addr, i - 1);
    }
}

/// An address with no slot has nothing queued.
proof fn lemma_pending_absent(addrs: Seq<PeerAddr>, packets: Seq<Vec<Vec<u8>>>, addr: PeerAddr)
    requires
        forall|j: int| 0 <= j < addrs.len() ==> addrs[j] != addr,
    ensures
        pending_for(addrs, packets, addr) == Seq::<Seq<u8>>::empty(),
    decreases addrs.len(),
{
    if addrs.len() > 0 && packets.len() > 0 {
        assert forall|j: int| 0 <= j < addrs.len() - 1 implies addrs.drop_first()[j] != addr by {
            assert(addrs[j + 1] == addrs.drop_first()[j]);
        }
        lemma_pending_absent(addrs.drop_first(), packets.drop_first(), addr);
    }
}

/// Changing buffers at other addresses' slots leaves an address's queue alone.
proof fn lemma_pending_update(addrs: Seq<PeerAddr>, p1: Seq<Vec<Vec<u8>>>, p2: Seq<Vec<Vec<u8>>>, a: PeerAddr)
    requires
        addrs.len() == p1.len(),
        addrs.len() == p2.len(),
        forall|j: int| 0 <= j < addrs.len() && addrs[j] == a ==> p1[j] == p2[j],
    ensures
        pending_for(addrs, p1, a) == pending_for(addrs, p2, a),
    decreases addrs.len(),
{
    if addrs.len() > 0 && addrs[0] != a {
        assert forall|j: int| 0 <= j < addrs.len() - 1 && addrs.drop_first()[j] == a implies p1.drop_first()[j]
            == p2.drop_first()[j] by {
            assert(addrs[j + 1] == addrs.drop_first()[j]);
        }
        lemma_pending_update(addrs.drop_first(), p1.drop_first(), p2.drop_first(), a);
    }
}

/// Appending a slot for another address leaves an address's queue alone.
proof fn lemma_pending_push(addrs: Seq<PeerAddr>, p: Seq<Vec<Vec<u8>>>, x: PeerAddr, q: Vec<Vec<u8>>, a: PeerAddr)
    requires
        addrs.len() == p.len(),
        x != a,
    ensures
        pending_for(addrs.push(x), p.push(q), a) == pending_for(addrs, p, a),
    decreases addrs.len(),
{
    assert(addrs.push(x)[0] == if addrs.len() == 0 { x } else { addrs[0] });
    assert(p.push(q)[0] == if p.len() == 0 { q } else { p[0] });
    if addrs.len() == 0 {
        assert(addrs.push(x).drop_first() =~= Seq::<PeerAddr>::empty());
        assert(p.push(q).drop_first() =~= Seq::<Vec<Vec<u8>>>::empty());
        assert(pending_for(Seq::<PeerAddr>::empty(), Seq::<Vec<Vec<u8>>>::empty(), a) == Seq::<Seq<u8>>::empty());
    } else {
        assert(addrs.push(x).drop_first() =~= addrs.drop_first().push(x));
        assert(p.push(q).drop_first() =~= p.drop_first().push(q));
        lemma_pending_push(addrs.drop_first(), p.drop_first(), x, q, a);
    }
}

/// Removing another address's slot leaves an address's queue alone.
proof fn lemma_pending_remove(addrs: Seq<PeerAddr>, p: Seq<Vec<Vec<u8>>>, i: int, a: PeerAddr)
    requires
        addrs.len() == p.len(),
        0 <= i < addrs.len(),
        addrs[i] != a,
    ensures
        pending_for(addrs.remove(i), p.remove(i), a) == pending_for(addrs, p, a),
    decreases addrs.len(),
{
    if i == 0 {
        assert(addrs.remove(0) =~= addrs.drop_first());
        assert(p.remove(0) =~= p.drop_first());
    } else if addrs[0] != a {
        assert(addrs.remove(i).drop_first() =~= addrs.drop_first().remove(i - 1));
        assert(p.remove(i).drop_first() =~= p.drop_first().remove(i - 1));
        lemma_pending_remove(addrs.drop_first(), p.drop_first(), i - 1, a);
    } else {
        assert(addrs.remove(i)[0] == addrs[0]);
        assert(p.remove(i)[0] == p[0]);
    }
}

} // verus!
