//! Per-channel floor control: who holds the right to speak, and who waits.

use vstd::prelude::*;

use crate::config;
use crate::utils::{current_timestamp, str_eq};

verus! {

/// Nature of a floor request.
#[derive(Debug, Clone, Copy, PartialEq, Eq, Structural)]
pub enum FloorIndicator {
    Normal,
    Broadcast,
    ImminentPeril,
    Emergency,
}

/// Whether someone holds the floor.
#[derive(Debug, Clone, Copy, PartialEq, Eq, Structural)]
pub enum FloorControlState {
    Idle,
    Taken,
}

impl FloorControlState {
    /// Lower-case name, as status views show it.
    pub fn as_str(&self) -> (r: &'static str)
        ensures
            *self == FloorControlState::Idle ==> r@ == "idle"@,
            *self == FloorControlState::Taken ==> r@ == "taken"@,
    {
        match self {
            FloorControlState::Idle => "idle",
            FloorControlState::Taken => "taken",
        }
    }
}

/// Status name of a floor state.
pub fn floor_state_str(state: &FloorControlState) -> (r: String)
    ensures
        *state == FloorControlState::Idle ==> r@ == "idle"@,
        *state == FloorControlState::Taken ==> r@ == "taken"@,
{
    state.as_str().to_owned()
}

/// A waiting floor request.
#[derive(Debug)]
pub struct FloorQueueEntry {
    pub user_id: String,
    pub priority: u8,
    pub indicator: FloorIndicator,
    pub queued_at: u64,
}

/// Floor state of one channel.
pub struct FloorControl {
    pub state: FloorControlState,
    /// The holder, if any.
    pub floor_taken_by: Option<String>,
    /// When the holder was granted the floor.
    pub floor_taken_at: Option<u64>,
    /// The holder's priority.
    pub floor_priority: u8,
    /// The holder's indicator.
    pub floor_indicator: FloorIndicator,
    /// Waiting requests, highest priority first, FIFO within a priority.
    pub queue: Vec<FloorQueueEntry>,
    /// Last liveness ping from the holder (the grant time until one comes).
    pub last_ping_at: u64,
}

/// `q` with every entry of `uid` taken out, the rest in order.
pub open spec fn without_user(q: Seq<FloorQueueEntry>, uid: Seq<char>) -> Seq<FloorQueueEntry>
    decreases q.len(),
{
    if q.len() == 0 {
        q
    } else if q[0].user_id@ == uid {
        without_user(q.drop_first(), uid)
    } else {
        seq![q[0]] + without_user(q.drop_first(), uid)
    }
}

/// The first position of `q` whose priority is strictly lower than `priority`,
/// or the end of `q`.
pub open spec fn insert_position(q: Seq<FloorQueueEntry>, priority: u8) -> int
    decreases q.len(),
{
    if q.len() == 0 {
        0
    } else if q[0].priority < priority {
        0
    } else {
        1 + insert_position(q.drop_first(), priority)
    }
}

/// `e` is the request of `uid` with the given priority, indicator and time.
pub open spec fn entry_is(
    e: FloorQueueEntry,
    uid: Seq<char>,
    priority: u8,
    indicator: FloorIndicator,
    at: u64,
) -> bool {
    e.user_id@ == uid && e.priority == priority && e.indicator == indicator && e.queued_at == at
}

/// `r` is `q` after enqueueing the request of `uid`: any earlier entry of `uid`
/// is dropped, and the new one stands before the first entry of strictly
/// lower priority.
pub open spec fn enqueued(
    q: Seq<FloorQueueEntry>,
    uid: Seq<char>,
    priority: u8,
    indicator: FloorIndicator,
    at: u64,
    r: Seq<FloorQueueEntry>,
) -> bool {
    let rest = without_user(q, uid);
    let pos = insert_position(rest, priority);
    r.len() == rest.len() + 1 && r == rest.insert(pos, r[pos]) && entry_is(
        r[pos],
        uid,
        priority,
        indicator,
        at,
    )
}

/// `uid` has an entry in `q`.
pub open spec fn in_queue(q: Seq<FloorQueueEntry>, uid: Seq<char>) -> bool {
    exists|i: int| 0 <= i < q.len() && (#[trigger] q[i]).user_id@ == uid
}

/// Priorities never rise along `q`.
pub open spec fn priority_ordered(q: Seq<FloorQueueEntry>) -> bool {
    forall|i: int, j: int| 0 <= i < j < q.len() ==> (#[trigger] q[i]).priority >= (#[trigger] q[j]).priority
}

/// Priorities never rise along `q`, and within one priority the request
/// times never fall.
pub open spec fn queue_ordered(q: Seq<FloorQueueEntry>) -> bool {
    forall|i: int, j: int|
        0 <= i < j < q.len() ==> {
            &&& (#[trigger] q[i]).priority >= (#[trigger] q[j]).priority
            &&& (q[i].priority == q[j].priority ==> q[i].queued_at <= q[j].queued_at)
        }
}

/// No user has two entries in `q`.
pub open spec fn unique_users(q: Seq<FloorQueueEntry>) -> bool {
    forall|i: int, j: int|
        0 <= i < q.len() && 0 <= j < q.len() && i != j ==> (#[trigger] q[i]).user_id@ != (#[trigger] q[j]).user_id@
}

/// Every request in `q` was made no later than `now`.
pub open spec fn queued_no_later_than(q: Seq<FloorQueueEntry>, now: u64) -> bool {
    forall|i: int| 0 <= i < q.len() ==> (#[trigger] q[i]).queued_at <= now
}

impl FloorControl {
    /// The holder's id, as characters.
    pub open spec fn holder(&self) -> Option<Seq<char>> {
        match self.floor_taken_by {
            Some(h) => Some(h@),
            None => None,
        }
    }

    /// `uid` holds the floor.
    pub open spec fn is_holder(&self, uid: Seq<char>) -> bool {
        self.state == FloorControlState::Taken && self.holder() == Some(uid)
    }

    /// The state invariant: Idle exactly when nobody holds the floor and no
    /// grant time is set; the queue is priority-ordered with one entry per
    /// user; the holder is not waiting in the queue.
    pub open spec fn wf(&self) -> bool {
        &&& (self.state == FloorControlState::Idle <==> self.floor_taken_by is None)
        &&& (self.state == FloorControlState::Idle <==> self.floor_taken_at is None)
        &&& priority_ordered(self.queue@)
        &&& unique_users(self.queue@)
        &&& (self.floor_taken_by matches Some(h) ==> !in_queue(self.queue@, h@))
    }

    /// Idle, with an empty queue.
    pub fn new() -> (r: Self)
        ensures
            r.state == FloorControlState::Idle,
            r.floor_taken_by is None,
            r.floor_taken_at is None,
            r.floor_priority == 0,
            r.floor_indicator == FloorIndicator::Normal,
            r.queue@.len() == 0,
            r.last_ping_at == 0,
            r.wf(),
    {
        FloorControl {
            state: FloorControlState::Idle,
            floor_taken_by: None,
            floor_taken_at: None,
            floor_priority: 0,
            floor_indicator: FloorIndicator::Normal,
            queue: Vec::new(),
            last_ping_at: 0,
        }
    }

    /// Forgets the holder; the queue is kept.
    pub fn clear_taken(&mut self)
        ensures
            final(self).state == FloorControlState::Idle,
            final(self).floor_taken_by is None,
            final(self).floor_taken_at is None,
            final(self).floor_priority == 0,
            final(self).floor_indicator == FloorIndicator::Normal,
            final(self).last_ping_at == 0,
            final(self).queue == old(self).queue,
            old(self).wf() ==> final(self).wf(),
    {
        self.state = FloorControlState::Idle;
        self.floor_taken_by = None;
        self.floor_taken_at = None;
        self.floor_priority = 0;
        self.floor_indicator = FloorIndicator::Normal;
        self.last_ping_at = 0;
    }

    /// Gives the floor to `user_id` at time `now`; the grant time also counts
    /// as the last ping. The queue is kept.
    pub fn grant_at(&mut self, user_id: String, priority: u8, indicator: FloorIndicator, now: u64)
        ensures
            final(self).state == FloorControlState::Taken,
            final(self).holder() == Some(user_id@),
            final(self).floor_taken_at == Some(now),
            final(self).floor_priority == priority,
            final(self).floor_indicator == indicator,
            final(self).last_ping_at == now,
            final(self).queue == old(self).queue,
            old(self).wf() && !in_queue(old(self).queue@, user_id@) ==> final(self).wf(),
    {
        self.state = FloorControlState::Taken;
        self.floor_taken_by = Some(user_id);
        self.floor_taken_at = Some(now);
        self.floor_priority = priority;
        self.floor_indicator = indicator;
        self.last_ping_at = now;
    }

    /// Gives the floor to `user_id` now, by the wall clock.
    pub fn grant(&mut self, user_id: String, priority: u8, indicator: FloorIndicator)
        ensures
            final(self).state == FloorControlState::Taken,
            final(self).holder() == Some(user_id@),
            final(self).floor_taken_at is Some,
            final(self).last_ping_at == final(self).floor_taken_at->0,
            final(self).floor_priority == priority,
            final(self).floor_indicator == indicator,
            final(self).queue == old(self).queue,
            old(self).wf() && !in_queue(old(self).queue@, user_id@) ==> final(self).wf(),
    {
        let now = current_timestamp();
        self.grant_at(user_id, priority, indicator, now);
    }

    /// Takes every entry of `user_id` out of the queue.
    pub fn remove_from_queue(&mut self, user_id: &str)
        ensures
            final(self).queue@ == without_user(old(self).queue@, user_id@),
            final(self).state == old(self).state,
            final(self).floor_taken_by == old(self).floor_taken_by,
            final(self).floor_taken_at == old(self).floor_taken_at,
            final(self).floor_priority == old(self).floor_priority,
            final(self).floor_indicator == old(self).floor_indicator,
            final(self).last_ping_at == old(self).last_ping_at,
            old(self).wf() ==> final(self).wf(),
    {
        let ghost q0 = self.queue@;
        let mut i: usize = 0;
        proof {
            assert(q0.skip(0) =~= q0);
            assert(q0.take(0) + without_user(q0, user_id@) =~= without_user(q0, user_id@));
        }
        while i < self.queue.len()
            invariant
                0 <= i <= self.queue@.len(),
                without_user(q0, user_id@) == self.queue@.take(i as int) + without_user(
                    self.queue@.skip(i as int),
                    user_id@,
                ),
                forall|j: int| 0 <= j < i ==> (#[trigger] self.queue@[j]).user_id@ != user_id@,
                self.state == old(self).state,
                self.floor_taken_by == old(self).floor_taken_by,
                self.floor_taken_at == old(self).floor_taken_at,
                self.floor_priority == old(self).floor_priority,
                self.floor_indicator == old(self).floor_indicator,
                self.last_ping_at == old(self).last_ping_at,
            decreases self.queue@.len() - i,
        {
            let ghost before = self.queue@;
            if str_eq(self.queue[i].user_id.as_str(), user_id) {
                self.queue.remove(i);
                proof {
                    assert(before.skip(i as int).drop_first() =~= self.queue@.skip(i as int));
                    assert(before.take(i as int) =~= self.queue@.take(i as int));
                }
            } else {
                proof {
                    assert(before.skip(i as int).drop_first() =~= before.skip(i as int + 1));
                    assert(before.take(i as int + 1) =~= before.take(i as int) + seq![before[i as int]]);
                }
                i = i + 1;
            }
        }
        proof {
            assert(self.queue@.skip(i as int) =~= Seq::<FloorQueueEntry>::empty());
            assert(self.queue@.take(i as int) =~= self.queue@);
            lemma_without_user_props(q0, user_id@);
        }
    }

    /// Enqueues the request of `user_id` made at `now`: an earlier entry of
    /// the same user is replaced, and the new entry goes before the first entry
    /// of strictly lower priority.
    pub fn enqueue_at(&mut self, user_id: String, priority: u8, indicator: FloorIndicator, now: u64)
        ensures
            enqueued(old(self).queue@, user_id@, priority, indicator, now, final(self).queue@),
            final(self).state == old(self).state,
            final(self).floor_taken_by == old(self).floor_taken_by,
            final(self).floor_taken_at == old(self).floor_taken_at,
            final(self).floor_priority == old(self).floor_priority,
            final(self).floor_indicator == old(self).floor_indicator,
            final(self).last_ping_at == old(self).last_ping_at,
            old(self).wf() && old(self).holder() != Some(user_id@) ==> final(self).wf(),
            queue_ordered(old(self).queue@) && queued_no_later_than(old(self).queue@, now)
                ==> queue_ordered(final(self).queue@),
    {
        self.remove_from_queue(user_id.as_str());
        let ghost rest = self.queue@;
        let mut pos: usize = 0;
        while pos < self.queue.len() && self.queue[pos].priority >= priority
            invariant
                0 <= pos <= self.queue@.len(),
                self.queue@ == rest,
                forall|j: int| 0 <= j < pos ==> (#[trigger] rest[j]).priority >= priority,
            decreases self.queue@.len() - pos,
        {
            pos = pos + 1;
        }
        proof {
            lemma_insert_position(rest, priority, pos as int);
        }
        let ghost uid = user_id@;
        let entry = FloorQueueEntry { user_id, priority, indicator, queued_at: now };
        self.queue.insert(pos, entry);
        proof {
            let r = self.queue@;
            assert(r == rest.insert(pos as int, r[pos as int]));
            lemma_without_user_props(old(self).queue@, uid);
            lemma_enqueued_props(old(self).queue@, uid, priority, indicator, now, r);
        }
    }

    /// Enqueues the request of `user_id` made now, by the wall clock.
    pub fn enqueue(&mut self, user_id: String, priority: u8, indicator: FloorIndicator)
        ensures
            exists|t: u64| enqueued(old(self).queue@, user_id@, priority, indicator, t, final(self).queue@),
            final(self).state == old(self).state,
            final(self).floor_taken_by == old(self).floor_taken_by,
            final(self).floor_taken_at == old(self).floor_taken_at,
            final(self).floor_priority == old(self).floor_priority,
            final(self).floor_indicator == old(self).floor_indicator,
            final(self).last_ping_at == old(self).last_ping_at,
            old(self).wf() && old(self).holder() != Some(user_id@) ==> final(self).wf(),
    {
        let now = current_timestamp();
        self.enqueue_at(user_id, priority, indicator, now);
    }

    /// Takes the head of the queue.
    pub fn dequeue_next(&mut self) -> (r: Option<FloorQueueEntry>)
        ensures
            old(self).queue@.len() == 0 ==> r is None && final(self).queue@ == old(self).queue@,
            old(self).queue@.len() > 0 ==> r == Some(old(self).queue@[0]) && final(self).queue@
                == old(self).queue@.drop_first(),
            final(self).state == old(self).state,
            final(self).floor_taken_by == old(self).floor_taken_by,
            final(self).floor_taken_at == old(self).floor_taken_at,
            final(self).floor_priority == old(self).floor_priority,
            final(self).floor_indicator == old(self).floor_indicator,
            final(self).last_ping_at == old(self).last_ping_at,
    {
        if self.queue.len() == 0 {
            None
        } else {
            let e = self.queue.remove(0);
            proof {
                assert(self.queue@ =~= old(self).queue@.drop_first());
            }
            Some(e)
        }
    }

    /// 1-based position of `user_id` in the queue, if it waits there.
    pub fn queue_position(&self, user_id: &str) -> (r: Option<usize>)
        ensures
            match r {
                Some(p) => 1 <= p <= self.queue@.len() && self.queue@[p - 1].user_id@ == user_id@
                    && forall|j: int| 0 <= j < p - 1 ==> (#[trigger] self.queue@[j]).user_id@ != user_id@,
                None => !in_queue(self.queue@, user_id@),
            },
    {
        let mut i: usize = 0;
        while i < self.queue.len()
            invariant
                0 <= i <= self.queue@.len(),
                forall|j: int| 0 <= j < i ==> (#[trigger] self.queue@[j]).user_id@ != user_id@,
            decreases self.queue@.len() - i,
        {
            if str_eq(self.queue[i].user_id.as_str(), user_id) {
                return Some(i + 1);
            }
            i = i + 1;
        }
        None
    }

    /// Whether a request would displace the holder: never on an idle floor;
    /// always for an emergency; otherwise only with a strictly higher priority.
    pub fn can_preempt(&self, req_priority: u8, req_indicator: &FloorIndicator) -> (r: bool)
        ensures
            r == (self.state == FloorControlState::Taken && (*req_indicator
                == FloorIndicator::Emergency || req_priority > self.floor_priority)),
    {
        if self.state != FloorControlState::Taken {
            return false;
        }
        match req_indicator {
            FloorIndicator::Emergency => true,
            _ => req_priority > self.floor_priority,
        }
    }

    /// Records a liveness ping at `now`.
    pub fn on_ping_at(&mut self, now: u64)
        ensures
            final(self).last_ping_at == now,
            final(self).state == old(self).state,
            final(self).floor_taken_by == old(self).floor_taken_by,
            final(self).floor_taken_at == old(self).floor_taken_at,
            final(self).floor_priority == old(self).floor_priority,
            final(self).floor_indicator == old(self).floor_indicator,
            final(self).queue == old(self).queue,
    {
        self.last_ping_at = now;
    }

    /// Records a liveness ping now, by the wall clock.
    pub fn on_ping(&mut self)
        ensures
            final(self).state == old(self).state,
            final(self).floor_taken_by == old(self).floor_taken_by,
            final(self).floor_taken_at == old(self).floor_taken_at,
            final(self).floor_priority == old(self).floor_priority,
            final(self).floor_indicator == old(self).floor_indicator,
            final(self).queue == old(self).queue,
    {
        let now = current_timestamp();
        self.on_ping_at(now);
    }

    /// The holder has been silent for the ping timeout or longer at `now`.
    pub open spec fn ping_timed_out(&self, now: u64) -> bool {
        self.state == FloorControlState::Taken && now >= self.last_ping_at
            && now - self.last_ping_at >= config::FLOOR_PING_TIMEOUT_MS
    }

    /// The holder has held the floor for the longest allowed time or longer at `now`.
    pub open spec fn max_taken_exceeded(&self, now: u64) -> bool {
        match self.floor_taken_at {
            Some(t) => now >= t && now - t >= config::FLOOR_MAX_TAKEN_MS,
            None => false,
        }
    }

    /// Ping timeout check at `now` (a clock behind the last ping counts as no silence).
    pub fn is_ping_timeout_at(&self, now: u64) -> (r: bool)
        ensures
            r == self.ping_timed_out(now),
    {
        if self.state != FloorControlState::Taken {
            return false;
        }
        now.saturating_sub(self.last_ping_at) >= config::FLOOR_PING_TIMEOUT_MS
    }

    /// Ping timeout check now, by the wall clock.
    pub fn is_ping_timeout(&self) -> (r: bool)
        ensures
            self.state == FloorControlState::Idle ==> !r,
            r ==> exists|t: u64| self.ping_timed_out(t),
    {
        let now = current_timestamp();
        self.is_ping_timeout_at(now)
    }

    /// Longest-hold check at `now`.
    pub fn is_max_taken_exceeded_at(&self, now: u64) -> (r: bool)
        ensures
            r == self.max_taken_exceeded(now),
    {
        match self.floor_taken_at {
            Some(taken_at) => now.saturating_sub(taken_at) >= config::FLOOR_MAX_TAKEN_MS,
            None => false,
        }
    }

    /// Longest-hold check now, by the wall clock.
    pub fn is_max_taken_exceeded(&self) -> (r: bool)
        ensures
            self.floor_taken_at is None ==> !r,
            r ==> exists|t: u64| self.max_taken_exceeded(t),
    {
        let now = current_timestamp();
        self.is_max_taken_exceeded_at(now)
    }
}

/// Every entry that `without_user` keeps comes from `q`, belongs to another
/// user, and the result is no longer than `q`.
pub proof fn lemma_without_user_from(q: Seq<FloorQueueEntry>, uid: Seq<char>)
    ensures
        without_user(q, uid).len() <= q.len(),
        forall|i: int|
            0 <= i < without_user(q, uid).len() ==> q.contains(#[trigger] without_user(q, uid)[i])
                && without_user(q, uid)[i].user_id@ != uid,
        !in_queue(without_user(q, uid), uid),
    decreases q.len(),
{
    if q.len() > 0 {
        let t = q.drop_first();
        lemma_without_user_from(t, uid);
        let w = without_user(t, uid);
        let r = without_user(q, uid);
        assert forall|i: int| 0 <= i < r.len() implies q.contains(#[trigger] r[i]) && r[i].user_id@ != uid by {
            if q[0].user_id@ != uid {
                if i == 0 {
                    assert(q[0] == r[0]);
                } else {
                    assert(r[i] == w[i - 1]);
                    let k = choose|k: int| 0 <= k < t.len() && t[k] == w[i - 1];
                    assert(q[k + 1] == t[k]);
                }
            } else {
                let k = choose|k: int| 0 <= k < t.len() && t[k] == w[i];
                assert(q[k + 1] == t[k]);
            }
        }
    }
}

/// `without_user` changes nothing for other users, and nothing at all when
/// `uid` does not wait.
pub proof fn lemma_without_user_others(q: Seq<FloorQueueEntry>, uid: Seq<char>)
    ensures
        !in_queue(q, uid) ==> without_user(q, uid) == q,
        forall|u: Seq<char>|
            #![trigger in_queue(without_user(q, uid), u)]
            #![trigger in_queue(q, u)]
            u != uid ==> (in_queue(without_user(q, uid), u) <==> in_queue(q, u)),
    decreases q.len(),
{
    if q.len() > 0 {
        let t = q.drop_first();
        lemma_without_user_others(t, uid);
        let w = without_user(t, uid);
        let r = without_user(q, uid);
        assert forall|u: Seq<char>| u != uid implies (in_queue(r, u) <==> in_queue(q, u)) by {
            if in_queue(q, u) {
                let k = choose|k: int| 0 <= k < q.len() && (#[trigger] q[k]).user_id@ == u;
                if k > 0 {
                    assert(t[k - 1] == q[k]);
                    assert(in_queue(t, u));
                    assert(in_queue(w, u));
                    let m = choose|m: int| 0 <= m < w.len() && (#[trigger] w[m]).user_id@ == u;
                    if q[0].user_id@ != uid {
                        assert(r[m + 1] == w[m]);
                    } else {
                        assert(r[m] == w[m]);
                    }
                } else {
                    assert(r[0] == q[0]);
                }
            }
            if in_queue(r, u) {
                let k = choose|k: int| 0 <= k < r.len() && (#[trigger] r[k]).user_id@ == u;
                if q[0].user_id@ != uid {
                    if k > 0 {
                        assert(w[k - 1] == r[k]);
                        assert(in_queue(w, u));
                        let m = choose|m: int| 0 <= m < t.len() && (#[trigger] t[m]).user_id@ == u;
                        assert(q[m + 1] == t[m]);
                    } else {
                        assert(q[0] == r[0]);
                    }
                } else {
                    assert(w[k] == r[k]);
                    assert(in_queue(w, u));
                    let m = choose|m: int| 0 <= m < t.len() && (#[trigger] t[m]).user_id@ == u;
                    assert(q[m + 1] == t[m]);
                }
            }
        }
        if !in_queue(q, uid) {
            assert(q[0].user_id@ != uid);
            assert forall|k: int| 0 <= k < t.len() implies (#[trigger] t[k]).user_id@ != uid by {
                assert(q[k + 1] == t[k]);
            }
            assert(r =~= q);
        }
    }
}

/// A relation that holds of every earlier/later pair of `q` still holds of
/// every such pair after `without_user`.
pub proof fn lemma_without_user_pairs(
    q: Seq<FloorQueueEntry>,
    uid: Seq<char>,
    rel: spec_fn(FloorQueueEntry, FloorQueueEntry) -> bool,
)
    requires
        forall|i: int, j: int| 0 <= i < j < q.len() ==> rel(#[trigger] q[i], #[trigger] q[j]),
    ensures
        forall|i: int, j: int|
            0 <= i < j < without_user(q, uid).len() ==> rel(
                #[trigger] without_user(q, uid)[i],
                #[trigger] without_user(q, uid)[j],
            ),
    decreases q.len(),
{
    if q.len() > 0 {
        let t = q.drop_first();
        assert forall|i: int, j: int| 0 <= i < j < t.len() implies rel(#[trigger] t[i], #[trigger] t[j]) by {
            assert(q[i + 1] == t[i]);
            assert(q[j + 1] == t[j]);
        }
        lemma_without_user_pairs(t, uid, rel);
        lemma_without_user_from(t, uid);
        let w = without_user(t, uid);
        let r = without_user(q, uid);
        if q[0].user_id@ != uid {
            assert forall|i: int, j: int| 0 <= i < j < r.len() implies rel(#[trigger] r[i], #[trigger] r[j]) by {
                assert(r[j] == w[j - 1]);
                if i == 0 {
                    assert(t.contains(w[j - 1]));
                    let k = choose|k: int| 0 <= k < t.len() && t[k] == w[j - 1];
                    assert(q[k + 1] == t[k]);
                } else {
                    assert(r[i] == w[i - 1]);
                }
            }
        }
    }
}

/// `without_user` keeps the queue's order and the uniqueness of its users.
pub proof fn lemma_without_user_props(q: Seq<FloorQueueEntry>, uid: Seq<char>)
    ensures
        !in_queue(without_user(q, uid), uid),
        without_user(q, uid).len() <= q.len(),
        forall|i: int|
            0 <= i < without_user(q, uid).len() ==> q.contains(#[trigger] without_user(q, uid)[i]),
        priority_ordered(q) ==> priority_ordered(without_user(q, uid)),
        queue_ordered(q) ==> queue_ordered(without_user(q, uid)),
        unique_users(q) ==> unique_users(without_user(q, uid)),
        !in_queue(q, uid) ==> without_user(q, uid) == q,
        forall|u: Seq<char>| u != uid ==> (in_queue(without_user(q, uid), u) <==> in_queue(q, u)),
{
    lemma_without_user_from(q, uid);
    lemma_without_user_others(q, uid);
    let w = without_user(q, uid);
    if priority_ordered(q) {
        let rel = |a: FloorQueueEntry, b: FloorQueueEntry| a.priority >= b.priority;
        assert forall|i: int, j: int| 0 <= i < j < q.len() implies rel(#[trigger] q[i], #[trigger] q[j]) by {}
        lemma_without_user_pairs(q, uid, rel);
        assert forall|i: int, j: int| 0 <= i < j < w.len() implies (#[trigger] w[i]).priority
            >= (#[trigger] w[j]).priority by {
            assert(rel(w[i], w[j]));
        }
    }
    if queue_ordered(q) {
        let rel = |a: FloorQueueEntry, b: FloorQueueEntry|
            a.priority >= b.priority && (a.priority == b.priority ==> a.queued_at <= b.queued_at);
        assert forall|i: int, j: int| 0 <= i < j < q.len() implies rel(#[trigger] q[i], #[trigger] q[j]) by {}
        lemma_without_user_pairs(q, uid, rel);
        assert forall|i: int, j: int| 0 <= i < j < w.len() implies {
            &&& (#[trigger] w[i]).priority >= (#[trigger] w[j]).priority
            &&& (w[i].priority == w[j].priority ==> w[i].queued_at <= w[j].queued_at)
        } by {
            assert(rel(w[i], w[j]));
        }
    }
    if unique_users(q) {
        let rel = |a: FloorQueueEntry, b: FloorQueueEntry| a.user_id@ != b.user_id@;
        assert forall|i: int, j: int| 0 <= i < j < q.len() implies rel(#[trigger] q[i], #[trigger] q[j]) by {}
        lemma_without_user_pairs(q, uid, rel);
        assert forall|i: int, j: int|
            0 <= i < w.len() && 0 <= j < w.len() && i != j implies (#[trigger] w[i]).user_id@
            != (#[trigger] w[j]).user_id@ by {
            if i < j {
                assert(rel(w[i], w[j]));
            } else {
                assert(rel(w[j], w[i]));
            }
        }
    }
}

/// `pos` is the insert position when every entry before it has priority at
/// least `priority` and the entry at it, if any, has less.
proof fn lemma_insert_position(q: Seq<FloorQueueEntry>, priority: u8, pos: int)
    requires
        0 <= pos <= q.len(),
        forall|j: int| 0 <= j < pos ==> (#[trigger] q[j]).priority >= priority,
        pos < q.len() ==> q[pos].priority < priority,
    ensures
        insert_position(q, priority) == pos,
    decreases q.len(),
{
    if q.len() > 0 && pos > 0 {
        let t = q.drop_first();
        assert forall|j: int| 0 <= j < pos - 1 implies (#[trigger] t[j]).priority >= priority by {
            assert(q[j + 1] == t[j]);
        }
        assert(q[0].priority >= priority);
        lemma_insert_position(t, priority, pos - 1);
    }
}

/// Entries before the insert position have priority at least `priority`;
/// the entries from it on have less.
pub proof fn lemma_insert_position_bounds(q: Seq<FloorQueueEntry>, priority: u8)
    ensures
        0 <= insert_position(q, priority) <= q.len(),
        forall|j: int| 0 <= j < insert_position(q, priority) ==> (#[trigger] q[j]).priority >= priority,
        priority_ordered(q) ==> forall|j: int|
            insert_position(q, priority) <= j < q.len() ==> (#[trigger] q[j]).priority < priority,
    decreases q.len(),
{
    if q.len() > 0 {
        let t = q.drop_first();
        lemma_insert_position_bounds(t, priority);
        if q[0].priority >= priority {
            assert forall|j: int| 0 <= j < insert_position(q, priority) implies (#[trigger] q[j]).priority
                >= priority by {
                if j > 0 {
                    assert(q[j] == t[j - 1]);
                }
            }
            if priority_ordered(q) {
                assert forall|i: int, j: int| 0 <= i < j < t.len() implies (#[trigger] t[i]).priority
                    >= (#[trigger] t[j]).priority by {
                    assert(q[i + 1] == t[i]);
                    assert(q[j + 1] == t[j]);
                }
                assert forall|j: int| insert_position(q, priority) <= j < q.len() implies (#[trigger] q[j]).priority
                    < priority by {
                    assert(q[j] == t[j - 1]);
                }
            }
        } else {
            if priority_ordered(q) {
                assert forall|j: int| insert_position(q, priority) <= j < q.len() implies (#[trigger] q[j]).priority
                    < priority by {
                    if j > 0 {
                        assert(q[0].priority >= q[j].priority);
                    }
                }
            }
        }
    }
}

/// What an enqueue keeps of the queue's invariants.
pub proof fn lemma_enqueued_props(
    q: Seq<FloorQueueEntry>,
    uid: Seq<char>,
    priority: u8,
    indicator: FloorIndicator,
    now: u64,
    r: Seq<FloorQueueEntry>,
)
    requires
        enqueued(q, uid, priority, indicator, now, r),
    ensures
        priority_ordered(q) ==> priority_ordered(r),
        queue_ordered(q) && queued_no_later_than(q, now) ==> queue_ordered(r),
        unique_users(q) ==> unique_users(r),
        in_queue(r, uid),
        forall|u: Seq<char>| u != uid ==> (in_queue(r, u) <==> in_queue(q, u)),
{
    let rest = without_user(q, uid);
    let pos = insert_position(rest, priority);
    lemma_without_user_props(q, uid);
    lemma_insert_position_bounds(rest, priority);
    assert(r[pos].user_id@ == uid);
    assert forall|k: int| 0 <= k < r.len() && k != pos implies #[trigger] r[k] == (if k < pos {
        rest[k]
    } else {
        rest[k - 1]
    }) by {}
    assert forall|u: Seq<char>| u != uid implies (in_queue(r, u) <==> in_queue(rest, u)) by {
        if in_queue(r, u) {
            let k = choose|k: int| 0 <= k < r.len() && (#[trigger] r[k]).user_id@ == u;
            if k < pos {
                assert(rest[k] == r[k]);
            } else if k > pos {
                assert(rest[k - 1] == r[k]);
            }
        }
        if in_queue(rest, u) {
            let k = choose|k: int| 0 <= k < rest.len() && (#[trigger] rest[k]).user_id@ == u;
            if k < pos {
                assert(r[k] == rest[k]);
            } else {
                assert(r[k + 1] == rest[k]);
            }
        }
    }
    if priority_ordered(q) {
        assert forall|i: int, j: int| 0 <= i < j < r.len() implies (#[trigger] r[i]).priority
            >= (#[trigger] r[j]).priority by {
            if i < pos && j > pos {
                assert(rest[i].priority >= rest[j - 1].priority);
            }
        }
    }
    if queue_ordered(q) && queued_no_later_than(q, now) {
        assert forall|i: int, j: int| 0 <= i < j < r.len() implies {
            &&& (#[trigger] r[i]).priority >= (#[trigger] r[j]).priority
            &&& (r[i].priority == r[j].priority ==> r[i].queued_at <= r[j].queued_at)
        } by {
            if i < pos && j > pos {
                assert(rest[i].priority >= rest[j - 1].priority);
            }
            if j == pos {
                assert(q.contains(rest[i]));
            }
        }
    }
    if unique_users(q) {
        assert forall|i: int, j: int|
            0 <= i < r.len() && 0 <= j < r.len() && i != j implies (#[trigger] r[i]).user_id@
            != (#[trigger] r[j]).user_id@ by {
            if i == pos {
                assert(!in_queue(rest, uid));
                if j < pos {
                    assert(rest[j] == r[j]);
                } else {
                    assert(rest[j - 1] == r[j]);
                }
            } else if j == pos {
                if i < pos {
                    assert(rest[i] == r[i]);
                } else {
                    assert(rest[i - 1] == r[i]);
                }
            } else {
                let ii = if i < pos { i } else { i - 1 };
                let jj = if j < pos { j } else { j - 1 };
                assert(rest[ii] == r[i]);
                assert(rest[jj] == r[j]);
            }
        }
    }
}

/// `without_user` of a concatenation is the concatenation of the parts.
proof fn lemma_without_user_append(a: Seq<FloorQueueEntry>, b: Seq<FloorQueueEntry>, uid: Seq<char>)
    ensures
        without_user(a + b, uid) == without_user(a, uid) + without_user(b, uid),
    decreases a.len(),
{
    if a.len() == 0 {
        assert(a + b =~= b);
        assert(without_user(a, uid) + without_user(b, uid) =~= without_user(b, uid));
    } else {
        lemma_without_user_append(a.drop_first(), b, uid);
        assert((a + b).drop_first() =~= a.drop_first() + b);
        assert((a + b)[0] == a[0]);
        if a[0].user_id@ != uid {
            assert(seq![a[0]] + (without_user(a.drop_first(), uid) + without_user(b, uid)) =~= (seq![a[0]]
                + without_user(a.drop_first(), uid)) + without_user(b, uid));
        }
    }
}

/// At most one user holds the floor of a channel.
pub proof fn lemma_single_holder(f: FloorControl, a: Seq<char>, b: Seq<char>)
    requires
        f.is_holder(a),
        f.is_holder(b),
    ensures
        a == b,
{
}

/// While the floor is taken, its holder has no entry in the queue.
pub proof fn lemma_holder_not_queued(f: FloorControl)
    requires
        f.wf(),
        f.state == FloorControlState::Taken,
    ensures
        f.floor_taken_by is Some,
        !in_queue(f.queue@, f.floor_taken_by->0@),
{
}

/// Enqueueing keeps the queue ordered by priority, highest first, and by
/// request time within one priority, when no waiting request is newer than
/// the one enqueued.
pub proof fn lemma_enqueue_keeps_order(
    q: Seq<FloorQueueEntry>,
    uid: Seq<char>,
    priority: u8,
    indicator: FloorIndicator,
    now: u64,
    r: Seq<FloorQueueEntry>,
)
    requires
        queue_ordered(q),
        queued_no_later_than(q, now),
        enqueued(q, uid, priority, indicator, now, r),
    ensures
        queue_ordered(r),
{
    lemma_enqueued_props(q, uid, priority, indicator, now, r);
}

/// Enqueueing the same user a second time leaves the queue's length as the
/// first enqueue left it, and the user then has exactly one entry, the
/// second request.
pub proof fn lemma_enqueue_twice_replaces(
    q0: Seq<FloorQueueEntry>,
    uid: Seq<char>,
    prio1: u8,
    ind1: FloorIndicator,
    t1: u64,
    q1: Seq<FloorQueueEntry>,
    prio2: u8,
    ind2: FloorIndicator,
    t2: u64,
    q2: Seq<FloorQueueEntry>,
)
    requires
        enqueued(q0, uid, prio1, ind1, t1, q1),
        enqueued(q1, uid, prio2, ind2, t2, q2),
    ensures
        q2.len() == q1.len(),
        exists|k: int|
            0 <= k < q2.len() && entry_is(q2[k], uid, prio2, ind2, t2) && forall|j: int|
                0 <= j < q2.len() && (#[trigger] q2[j]).user_id@ == uid ==> j == k,
{
    let rest0 = without_user(q0, uid);
    let pos0 = insert_position(rest0, prio1);
    lemma_without_user_props(q0, uid);
    lemma_insert_position_bounds(rest0, prio1);
    let e = q1[pos0];
    assert(q1 =~= rest0.take(pos0) + seq![e] + rest0.skip(pos0));
    lemma_without_user_append(rest0.take(pos0) + seq![e], rest0.skip(pos0), uid);
    lemma_without_user_append(rest0.take(pos0), seq![e], uid);
    assert forall|k: int| 0 <= k < rest0.take(pos0).len() implies (#[trigger] rest0.take(pos0)[k]).user_id@
        != uid by {
        assert(rest0.take(pos0)[k] == rest0[k]);
    }
    assert forall|k: int| 0 <= k < rest0.skip(pos0).len() implies (#[trigger] rest0.skip(pos0)[k]).user_id@
        != uid by {
        assert(rest0.skip(pos0)[k] == rest0[k + pos0]);
    }
    lemma_without_user_others(rest0.take(pos0), uid);
    lemma_without_user_others(rest0.skip(pos0), uid);
    assert(seq![e].drop_first() =~= Seq::<FloorQueueEntry>::empty());
    assert(seq![e][0] == e);
    assert(e.user_id@ == uid);
    assert(without_user(Seq::<FloorQueueEntry>::empty(), uid) == Seq::<FloorQueueEntry>::empty());
    assert(without_user(seq![e], uid) =~= Seq::<FloorQueueEntry>::empty());
    assert(without_user(q1, uid) =~= rest0);
    let rest1 = without_user(q1, uid);
    let pos1 = insert_position(rest1, prio2);
    lemma_without_user_props(q1, uid);
    lemma_insert_position_bounds(rest1, prio2);
    assert forall|j: int| 0 <= j < q2.len() && (#[trigger] q2[j]).user_id@ == uid implies j == pos1 by {
        if j < pos1 {
            assert(q2[j] == rest1[j]);
        } else if j > pos1 {
            assert(q2[j] == rest1[j - 1]);
        }
    }
}

/// The kind of revoke a reaper tick at `now` performs, if any: the longest
/// hold is checked first, then the holder's silence.
pub open spec fn timeout_cause(f: FloorControl, now: u64) -> Option<RevokeCause> {
    if f.state != FloorControlState::Taken {
        None
    } else if f.max_taken_exceeded(now) {
        Some(RevokeCause::MaxDuration)
    } else if f.ping_timed_out(now) {
        Some(RevokeCause::PingTimeout)
    } else {
        None
    }
}

/// Why a holder lost the floor.
#[derive(Debug, Clone, Copy, PartialEq, Eq, Structural)]
pub enum RevokeCause {
    Preempted,
    PingTimeout,
    MaxDuration,
    AdminRevoke,
}

/// On a taken floor, a last ping at least the ping timeout old makes the next
/// reaper tick revoke; a younger one does not, unless the longest hold is
/// exceeded.
pub proof fn lemma_ping_age_decides_revoke(f: FloorControl, now: u64)
    requires
        f.wf(),
        f.state == FloorControlState::Taken,
        f.last_ping_at <= now,
    ensures
        now - f.last_ping_at >= config::FLOOR_PING_TIMEOUT_MS ==> timeout_cause(f, now) is Some,
        now - f.last_ping_at < config::FLOOR_PING_TIMEOUT_MS && !f.max_taken_exceeded(now)
            ==> timeout_cause(f, now) is None,
{
}

} // verus!
