//! Channels: named push-to-talk rooms with a bounded member set and a floor.

use vstd::prelude::*;

use crate::error::LiveError;
use crate::hubs::floor::{FloorControl, FloorControlState};
use crate::utils::{current_timestamp, str_eq};

verus! {

/// How members of a channel may speak.
#[derive(Debug, Clone, Copy, PartialEq, Eq, Structural)]
pub enum ChannelMode {
    /// One speaker at a time, under floor control.
    PTT,
    /// Everybody at once, no floor control.
    Conference,
}

impl Default for ChannelMode {
    fn default() -> (r: Self)
        ensures
            r == ChannelMode::PTT,
    {
        ChannelMode::PTT
    }
}

/// Lower-case form of a string, as `str::to_lowercase` computes it.
pub uninterp spec fn lower_of(s: Seq<char>) -> Seq<char>;

/// Relies on `str::to_lowercase`: the Unicode lower-case mapping, which
/// depends on the characters alone.
#[verifier::external_body]
fn lowercase(s: &str) -> (r: String)
    ensures
        r@ == lower_of(s@),
{
    s.to_lowercase()
}

impl ChannelMode {
    /// The mode named by an already lower-cased string: `conference`, or
    /// PTT for anything else.
    pub fn from_lowercase(lower: &str) -> (r: ChannelMode)
        ensures
            r == (if lower@ == "conference"@ {
                ChannelMode::Conference
            } else {
                ChannelMode::PTT
            }),
    {
        if str_eq(lower, "conference") {
            ChannelMode::Conference
        } else {
            ChannelMode::PTT
        }
    }

    /// The mode named by `s` in any letter case; PTT when unknown.
    pub fn from_str_lossy(s: &str) -> (r: ChannelMode)
        ensures
            r == (if lower_of(s@) == "conference"@ {
                ChannelMode::Conference
            } else {
                ChannelMode::PTT
            }),
    {
        let lower = lowercase(s);
        ChannelMode::from_lowercase(lower.as_str())
    }

    /// The mode's lower-case name.
    pub fn as_str(&self) -> (r: &'static str)
        ensures
            *self == ChannelMode::PTT ==> r@ == "ptt"@,
            *self == ChannelMode::Conference ==> r@ == "conference"@,
    {
        match self {
            ChannelMode::PTT => "ptt",
            ChannelMode::Conference => "conference",
        }
    }
}

/// A push-to-talk room.
pub struct Channel {
    pub channel_id: String,
    /// Four-digit frequency label.
    pub freq: String,
    pub name: String,
    pub mode: ChannelMode,
    /// Largest number of members.
    pub capacity: usize,
    pub created_at: u64,
    /// Member user ids, each once.
    pub members: Vec<String>,
    pub floor: FloorControl,
}

/// `uid` is among `members`.
pub open spec fn has_member(members: Seq<String>, uid: Seq<char>) -> bool {
    exists|i: int| 0 <= i < members.len() && (#[trigger] members[i])@ == uid
}

/// No id occurs twice in `members`.
pub open spec fn distinct_members(members: Seq<String>) -> bool {
    forall|i: int, j: int|
        0 <= i < members.len() && 0 <= j < members.len() && i != j ==> (#[trigger] members[i])@
            != (#[trigger] members[j])@
}

/// `members` without `uid`, the rest in order.
pub open spec fn without_member(members: Seq<String>, uid: Seq<char>) -> Seq<String>
    decreases members.len(),
{
    if members.len() == 0 {
        members
    } else if members[0]@ == uid {
        without_member(members.drop_first(), uid)
    } else {
        seq![members[0]] + without_member(members.drop_first(), uid)
    }
}

/// What `without_member` keeps: other members, each from the input.
pub proof fn lemma_without_member(members: Seq<String>, uid: Seq<char>)
    ensures
        without_member(members, uid).len() <= members.len(),
        !has_member(without_member(members, uid), uid),
        forall|i: int|
            0 <= i < without_member(members, uid).len() ==> members.contains(
                #[trigger] without_member(members, uid)[i],
            ),
        forall|u: Seq<char>|
            #![trigger has_member(without_member(members, uid), u)]
            #![trigger has_member(members, u)]
            u != uid ==> (has_member(without_member(members, uid), u) <==> has_member(members, u)),
        distinct_members(members) ==> distinct_members(without_member(members, uid)),
    decreases members.len(),
{
    if members.len() > 0 {
        let t = members.drop_first();
        lemma_without_member(t, uid);
        let w = without_member(t, uid);
        let r = without_member(members, uid);
        assert forall|i: int| 0 <= i < r.len() implies members.contains(#[trigger] r[i]) by {
            if members[0]@ != uid {
                if i == 0 {
                    assert(members[0] == r[0]);
                } else {
                    assert(r[i] == w[i - 1]);
                    let k = choose|k: int| 0 <= k < t.len() && t[k] == w[i - 1];
                    assert(members[k + 1] == t[k]);
                }
            } else {
                let k = choose|k: int| 0 <= k < t.len() && t[k] == w[i];
                assert(members[k + 1] == t[k]);
            }
        }
        assert(!has_member(r, uid)) by {
            if has_member(r, uid) {
                let k = choose|k: int| 0 <= k < r.len() && (#[trigger] r[k])@ == uid;
                if members[0]@ != uid {
                    if k > 0 {
                        assert(r[k] == w[k - 1]);
                    }
                } else {
                    assert(r[k] == w[k]);
                }
            }
        }
        assert forall|u: Seq<char>| u != uid implies (has_member(r, u) <==> has_member(members, u)) by {
            if has_member(members, u) {
                let k = choose|k: int| 0 <= k < members.len() && (#[trigger] members[k])@ == u;
                if k > 0 {
                    assert(t[k - 1] == members[k]);
                    assert(has_member(t, u));
                    let m = choose|m: int| 0 <= m < w.len() && (#[trigger] w[m])@ == u;
                    if members[0]@ != uid {
                        assert(r[m + 1] == w[m]);
                    } else {
                        assert(r[m] == w[m]);
                    }
                } else {
                    assert(r[0] == members[0]);
                }
            }
            if has_member(r, u) {
                let k = choose|k: int| 0 <= k < r.len() && (#[trigger] r[k])@ == u;
                if members[0]@ != uid && k == 0 {
                    assert(members[0] == r[0]);
                } else {
                    let kk = if members[0]@ != uid { k - 1 } else { k };
                    assert(w[kk] == r[k]);
                    assert(has_member(w, u));
                    let m = choose|m: int| 0 <= m < t.len() && (#[trigger] t[m])@ == u;
                    assert(members[m + 1] == t[m]);
                }
            }
        }
        if distinct_members(members) {
            assert forall|i: int, j: int|
                0 <= i < t.len() && 0 <= j < t.len() && i != j implies (#[trigger] t[i])@ != (#[trigger] t[j])@ by {
                assert(members[i + 1] == t[i]);
                assert(members[j + 1] == t[j]);
            }
            if members[0]@ != uid {
                assert forall|i: int, j: int|
                    0 <= i < r.len() && 0 <= j < r.len() && i != j implies (#[trigger] r[i])@ != (#[trigger] r[j])@ by {
                    if i == 0 || j == 0 {
                        let o = if i == 0 { j } else { i };
                        assert(r[o] == w[o - 1]);
                        assert(has_member(w, r[o]@));
                        assert(has_member(t, r[o]@));
                        let m = choose|m: int| 0 <= m < t.len() && (#[trigger] t[m])@ == r[o]@;
                        assert(members[m + 1] == t[m]);
                    } else {
                        assert(r[i] == w[i - 1]);
                        assert(r[j] == w[j - 1]);
                    }
                }
            }
        }
    }
}

impl Channel {
    /// The channel invariant: distinct members, no more than the capacity,
    /// and a well-formed floor.
    pub open spec fn wf(&self) -> bool {
        &&& distinct_members(self.members@)
        &&& self.members@.len() <= self.capacity
        &&& self.floor.wf()
    }

    /// An empty channel created at `created_at`, its floor idle.
    pub fn new_at(
        channel_id: String,
        freq: String,
        name: String,
        mode: ChannelMode,
        capacity: usize,
        created_at: u64,
    ) -> (r: Channel)
        ensures
            r.wf(),
            r.channel_id@ == channel_id@,
            r.freq@ == freq@,
            r.name@ == name@,
            r.mode == mode,
            r.capacity == capacity,
            r.created_at == created_at,
            r.members@.len() == 0,
            r.floor.state == FloorControlState::Idle,
            r.floor.queue@.len() == 0,
    {
        Channel {
            channel_id,
            freq,
            name,
            mode,
            capacity,
            created_at,
            members: Vec::new(),
            floor: FloorControl::new(),
        }
    }

    /// An empty channel created now, by the wall clock.
    pub fn new(channel_id: String, freq: String, name: String, mode: ChannelMode, capacity: usize) -> (r: Channel)
        ensures
            r.wf(),
            r.channel_id@ == channel_id@,
            r.freq@ == freq@,
            r.name@ == name@,
            r.mode == mode,
            r.capacity == capacity,
            r.members@.len() == 0,
            r.floor.state == FloorControlState::Idle,
            r.floor.queue@.len() == 0,
    {
        let now = current_timestamp();
        Channel::new_at(channel_id, freq, name, mode, capacity, now)
    }

    /// Whether the floor control applies.
    pub fn is_ptt(&self) -> (r: bool)
        ensures
            r == (self.mode == ChannelMode::PTT),
    {
        self.mode == ChannelMode::PTT
    }

    /// Whether `user_id` is a member.
    pub fn is_member(&self, user_id: &str) -> (r: bool)
        ensures
            r == has_member(self.members@, user_id@),
    {
        let mut i: usize = 0;
        while i < self.members.len()
            invariant
                0 <= i <= self.members@.len(),
                forall|j: int| 0 <= j < i ==> (#[trigger] self.members@[j])@ != user_id@,
            decreases self.members@.len() - i,
        {
            if str_eq(self.members[i].as_str(), user_id) {
                return true;
            }
            i = i + 1;
        }
        false
    }

    /// Adds `user_id`: refused with `ChannelFull` when the channel holds its
    /// capacity, else with `AlreadyInChannel` when the user is a member;
    /// a refusal changes nothing.
    pub fn add_member(&mut self, user_id: &str) -> (r: Result<(), LiveError>)
        requires
            old(self).wf(),
        ensures
            final(self).wf(),
            final(self).channel_id == old(self).channel_id,
            final(self).capacity == old(self).capacity,
            final(self).floor == old(self).floor,
            final(self).freq == old(self).freq,
            final(self).name == old(self).name,
            final(self).mode == old(self).mode,
            final(self).created_at == old(self).created_at,
            r is Err ==> *final(self) == *old(self),
            old(self).members@.len() >= old(self).capacity ==> (r matches Err(LiveError::ChannelFull(id))
                && id@ == old(self).channel_id@) && final(self).members@ == old(self).members@,
            old(self).members@.len() < old(self).capacity && has_member(old(self).members@, user_id@)
                ==> (r matches Err(LiveError::AlreadyInChannel(id)) && id@ == old(self).channel_id@)
                && final(self).members@ == old(self).members@,
            old(self).members@.len() < old(self).capacity && !has_member(old(self).members@, user_id@)
                ==> r is Ok && final(self).members@.len() == old(self).members@.len() + 1
                && final(self).members@.drop_last() == old(self).members@
                && final(self).members@.last()@ == user_id@,
    {
        if self.members.len() >= self.capacity {
            return Err(LiveError::ChannelFull(self.channel_id.clone()));
        }
        if self.is_member(user_id) {
            return Err(LiveError::AlreadyInChannel(self.channel_id.clone()));
        }
        self.members.push(user_id.to_owned());
        proof {
            assert(self.members@.drop_last() =~= old(self).members@);
            let m = self.members@;
            assert forall|i: int, j: int|
                0 <= i < m.len() && 0 <= j < m.len() && i != j implies (#[trigger] m[i])@ != (#[trigger] m[j])@ by {
                if i == m.len() - 1 {
                    assert(old(self).members@[j] == m[j]);
                } else if j == m.len() - 1 {
                    assert(old(self).members@[i] == m[i]);
                } else {
                    assert(old(self).members@[i] == m[i]);
                    assert(old(self).members@[j] == m[j]);
                }
            }
        }
        Ok(())
    }

    /// Removes `user_id` from the members, if present.
    pub fn remove_member(&mut self, user_id: &str)
        requires
            old(self).wf(),
        ensures
            final(self).wf(),
            final(self).members@ == without_member(old(self).members@, user_id@),
            !has_member(final(self).members@, user_id@),
            final(self).channel_id == old(self).channel_id,
            final(self).capacity == old(self).capacity,
            final(self).floor == old(self).floor,
    {
        let ghost m0 = self.members@;
        let mut i: usize = 0;
        proof {
            assert(m0.skip(0) =~= m0);
            assert(m0.take(0) + without_member(m0, user_id@) =~= without_member(m0, user_id@));
        }
        while i < self.members.len()
            invariant
                0 <= i <= self.members@.len(),
                without_member(m0, user_id@) == self.members@.take(i as int) + without_member(
                    self.members@.skip(i as int),
                    user_id@,
                ),
                self.channel_id == old(self).channel_id,
                self.capacity == old(self).capacity,
                self.floor == old(self).floor,
            decreases self.members@.len() - i,
        {
            let ghost before = self.members@;
            if str_eq(self.members[i].as_str(), user_id) {
                self.members.remove(i);
                proof {
                    assert(before.skip(i as int).drop_first() =~= self.members@.skip(i as int));
                    assert(before.take(i as int) =~= self.members@.take(i as int));
                }
            } else {
                proof {
                    assert(before.skip(i as int).drop_first() =~= before.skip(i as int + 1));
                    assert(before.take(i as int + 1) =~= before.take(i as int) + seq![before[i as int]]);
                }
                i = i + 1;
            }
        }
        proof {
            assert(self.members@.skip(i as int) =~= Seq::<String>::empty());
            assert(self.members@.take(i as int) =~= self.members@);
            lemma_without_member(m0, user_id@);
        }
    }

    /// A copy of the member ids.
    pub fn get_members(&self) -> (r: Vec<String>)
        ensures
            r@ == self.members@,
    {
        let mut out: Vec<String> = Vec::new();
        let mut i: usize = 0;
        while i < self.members.len()
            invariant
                0 <= i <= self.members@.len(),
                out@ == self.members@.take(i as int),
            decreases self.members@.len() - i,
        {
            out.push(self.members[i].clone());
            proof {
                assert(out@ =~= self.members@.take(i as int + 1));
            }
            i = i + 1;
        }
        proof {
            assert(self.members@.take(i as int) =~= self.members@);
        }
        out
    }

    /// The number of members.
    pub fn member_count(&self) -> (r: usize)
        ensures
            r == self.members@.len(),
    {
        self.members.len()
    }
}

/// `id` names a channel of `chs`.
pub open spec fn has_channel(chs: Seq<Channel>, id: Seq<char>) -> bool {
    exists|i: int| 0 <= i < chs.len() && (#[trigger] chs[i]).channel_id@ == id
}

/// No two channels of `chs` share an id.
pub open spec fn unique_ids(chs: Seq<Channel>) -> bool {
    forall|i: int, j: int|
        0 <= i < chs.len() && 0 <= j < chs.len() && i != j ==> (#[trigger] chs[i]).channel_id@
            != (#[trigger] chs[j]).channel_id@
}

/// Position of the first channel named `id`, or the length when there is none.
pub open spec fn channel_index(chs: Seq<Channel>, id: Seq<char>) -> int
    decreases chs.len(),
{
    if chs.len() == 0 {
        0
    } else if chs[0].channel_id@ == id {
        0
    } else {
        1 + channel_index(chs.drop_first(), id)
    }
}

/// The channels after a create of `id` that leaves channel `c` under that
/// id: an existing channel's slot holds `c`, else `c` is appended.
pub open spec fn created(chs: Seq<Channel>, id: Seq<char>, c: Channel) -> Seq<Channel> {
    if has_channel(chs, id) {
        chs.update(channel_index(chs, id), c)
    } else {
        chs.push(c)
    }
}

/// The channels after a removal of `id`.
pub open spec fn removed(chs: Seq<Channel>, id: Seq<char>) -> Seq<Channel> {
    if has_channel(chs, id) {
        chs.remove(channel_index(chs, id))
    } else {
        chs
    }
}

/// The number of channels whose floor is taken.
pub open spec fn taken_count(chs: Seq<Channel>) -> nat
    decreases chs.len(),
{
    if chs.len() == 0 {
        0
    } else {
        (if chs[0].floor.state == FloorControlState::Taken { 1nat } else { 0nat }) + taken_count(
            chs.drop_first(),
        )
    }
}

/// There are no more taken floors than channels.
proof fn lemma_taken_count_bound(chs: Seq<Channel>)
    ensures
        taken_count(chs) <= chs.len(),
    decreases chs.len(),
{
    if chs.len() > 0 {
        lemma_taken_count_bound(chs.drop_first());
    }
}

/// `i` is the first channel named `id` when no earlier one is.
pub proof fn lemma_channel_index(chs: Seq<Channel>, id: Seq<char>, i: int)
    requires
        0 <= i <= chs.len(),
        forall|j: int| 0 <= j < i ==> (#[trigger] chs[j]).channel_id@ != id,
        i < chs.len() ==> chs[i].channel_id@ == id,
    ensures
        channel_index(chs, id) == i,
        i == chs.len() ==> !has_channel(chs, id),
        i < chs.len() ==> has_channel(chs, id),
    decreases chs.len(),
{
    if chs.len() > 0 && i > 0 {
        let t = chs.drop_first();
        assert forall|j: int| 0 <= j < i - 1 implies (#[trigger] t[j]).channel_id@ != id by {
            assert(chs[j + 1] == t[j]);
        }
        lemma_channel_index(t, id, i - 1);
        if i == chs.len() && has_channel(chs, id) {
            let k = choose|k: int| 0 <= k < chs.len() && (#[trigger] chs[k]).channel_id@ == id;
            assert(chs[k].channel_id@ != id);
        }
    }
    if i < chs.len() {
        assert(chs[i].channel_id@ == id);
    }
}

/// A present id sits at its index, and, the ids being unique, nowhere else.
pub proof fn lemma_channel_index_found(chs: Seq<Channel>, id: Seq<char>)
    requires
        has_channel(chs, id),
    ensures
        0 <= channel_index(chs, id) < chs.len(),
        chs[channel_index(chs, id)].channel_id@ == id,
    decreases chs.len(),
{
    if chs[0].channel_id@ != id {
        let t = chs.drop_first();
        let k = choose|k: int| 0 <= k < chs.len() && (#[trigger] chs[k]).channel_id@ == id;
        assert(t[k - 1] == chs[k]);
        lemma_channel_index_found(t, id);
    }
}

/// Creating a channel twice under one id leaves exactly one channel of that
/// id, and no more channels than the first create left.
pub proof fn lemma_create_twice_one_channel(chs: Seq<Channel>, id: Seq<char>, c1: Channel, c2: Channel)
    requires
        unique_ids(chs),
        c1.channel_id@ == id,
        c2.channel_id@ == id,
    ensures
        created(created(chs, id, c1), id, c2).len() == created(chs, id, c1).len(),
        unique_ids(created(created(chs, id, c1), id, c2)),
        has_channel(created(created(chs, id, c1), id, c2), id),
{
    let h1 = created(chs, id, c1);
    if has_channel(chs, id) {
        lemma_channel_index_found(chs, id);
        assert(h1[channel_index(chs, id)].channel_id@ == id);
    } else {
        assert(h1[chs.len() as int] == c1);
    }
    assert(has_channel(h1, id));
    assert(unique_ids(h1)) by {
        assert forall|i: int, j: int|
            0 <= i < h1.len() && 0 <= j < h1.len() && i != j implies (#[trigger] h1[i]).channel_id@
            != (#[trigger] h1[j]).channel_id@ by {
            if has_channel(chs, id) {
                let x = channel_index(chs, id);
                if i == x {
                    assert(chs[j].channel_id@ != chs[x].channel_id@);
                } else if j == x {
                    assert(chs[i].channel_id@ != chs[x].channel_id@);
                }
            } else {
                if i == chs.len() {
                    assert(chs[j].channel_id@ != id);
                } else if j == chs.len() {
                    assert(chs[i].channel_id@ != id);
                }
            }
        }
    }
    lemma_channel_index_found(h1, id);
    let h2 = created(h1, id, c2);
    let y = channel_index(h1, id);
    assert forall|i: int, j: int|
        0 <= i < h2.len() && 0 <= j < h2.len() && i != j implies (#[trigger] h2[i]).channel_id@
        != (#[trigger] h2[j]).channel_id@ by {
        if i == y {
            assert(h1[j].channel_id@ != h1[y].channel_id@);
        } else if j == y {
            assert(h1[i].channel_id@ != h1[y].channel_id@);
        }
    }
    assert(h2[y].channel_id@ == id);
}

/// Removing an id from channels with unique ids leaves none of that id: a
/// second removal finds nothing.
pub proof fn lemma_remove_once(chs: Seq<Channel>, id: Seq<char>)
    requires
        unique_ids(chs),
    ensures
        !has_channel(removed(chs, id), id),
        has_channel(chs, id) ==> removed(chs, id).len() == chs.len() - 1,
        removed(removed(chs, id), id) == removed(chs, id),
{
    if has_channel(chs, id) {
        lemma_channel_index_found(chs, id);
        let x = channel_index(chs, id);
        let r = chs.remove(x);
        if has_channel(r, id) {
            let k = choose|k: int| 0 <= k < r.len() && (#[trigger] r[k]).channel_id@ == id;
            if k < x {
                assert(r[k] == chs[k]);
            } else {
                assert(r[k] == chs[k + 1]);
            }
        }
    }
}

/// All channels, keyed by channel id.
pub struct ChannelHub {
    pub channels: Vec<Channel>,
}

impl ChannelHub {
    /// Ids are unique and every channel is well-formed.
    pub open spec fn wf(&self) -> bool {
        &&& unique_ids(self.channels@)
        &&& forall|i: int| 0 <= i < self.channels@.len() ==> (#[trigger] self.channels@[i]).wf()
    }

    /// No channels.
    pub fn new() -> (r: ChannelHub)
        ensures
            r.wf(),
            r.channels@.len() == 0,
    {
        ChannelHub { channels: Vec::new() }
    }

    fn find(&self, channel_id: &str) -> (r: usize)
        ensures
            r == channel_index(self.channels@, channel_id@),
            r < self.channels@.len() <==> has_channel(self.channels@, channel_id@),
            r <= self.channels@.len(),
    {
        let mut i: usize = 0;
        while i < self.channels.len()
            invariant
                0 <= i <= self.channels@.len(),
                forall|j: int| 0 <= j < i ==> (#[trigger] self.channels@[j]).channel_id@ != channel_id@,
            decreases self.channels@.len() - i,
        {
            if str_eq(self.channels[i].channel_id.as_str(), channel_id) {
                proof {
                    lemma_channel_index(self.channels@, channel_id@, i as int);
                }
                return i;
            }
            i = i + 1;
        }
        proof {
            lemma_channel_index(self.channels@, channel_id@, i as int);
        }
        i
    }

    /// The channel named `channel_id`, created empty with the given
    /// attributes if there is none; an existing channel is returned as it
    /// is, its attributes untouched.
    pub fn create(
        &mut self,
        channel_id: &str,
        freq: &str,
        name: &str,
        mode: ChannelMode,
        capacity: usize,
    ) -> (r: &mut Channel)
        requires
            old(self).wf(),
        ensures
            final(self).channels@ == created(old(self).channels@, channel_id@, *final(r)),
            has_channel(old(self).channels@, channel_id@) ==> *r == old(self).channels@[channel_index(
                old(self).channels@,
                channel_id@,
            )],
            !has_channel(old(self).channels@, channel_id@) ==> {
                &&& r.wf()
                &&& r.channel_id@ == channel_id@
                &&& r.freq@ == freq@
                &&& r.name@ == name@
                &&& r.mode == mode
                &&& r.capacity == capacity
                &&& r.members@.len() == 0
                &&& r.floor.state == FloorControlState::Idle
                &&& r.floor.queue@.len() == 0
            },
    {
        let i = self.find(channel_id);
        if i < self.channels.len() {
            &mut self.channels[i]
        } else {
            let ch = Channel::new(channel_id.to_owned(), freq.to_owned(), name.to_owned(), mode, capacity);
            self.channels.push(ch);
            &mut self.channels[i]
        }
    }

    /// The channel named `channel_id`, if any.
    pub fn get(&self, channel_id: &str) -> (r: Option<&Channel>)
        ensures
            match r {
                Some(c) => has_channel(self.channels@, channel_id@) && *c == self.channels@[channel_index(
                    self.channels@,
                    channel_id@,
                )],
                None => !has_channel(self.channels@, channel_id@),
            },
    {
        let i = self.find(channel_id);
        if i < self.channels.len() {
            Some(&self.channels[i])
        } else {
            None
        }
    }

    /// The channel named `channel_id`, if any, for changing.
    pub fn get_mut(&mut self, channel_id: &str) -> (r: Option<&mut Channel>)
        ensures
            !has_channel(old(self).channels@, channel_id@) ==> r is None && final(self).channels@ == old(
                self,
            ).channels@,
            has_channel(old(self).channels@, channel_id@) ==> r is Some && *r->0 == old(self).channels@[channel_index(
                old(self).channels@,
                channel_id@,
            )] && final(self).channels@ == old(self).channels@.update(
                channel_index(old(self).channels@, channel_id@),
                *final(r->0),
            ),
    {
        let i = self.find(channel_id);
        if i < self.channels.len() {
            Some(&mut self.channels[i])
        } else {
            None
        }
    }

    /// Deletes the channel named `channel_id`; true when there was one.
    pub fn remove(&mut self, channel_id: &str) -> (r: bool)
        requires
            old(self).wf(),
        ensures
            final(self).wf(),
            r == has_channel(old(self).channels@, channel_id@),
            final(self).channels@ == removed(old(self).channels@, channel_id@),
            !has_channel(final(self).channels@, channel_id@),
    {
        let i = self.find(channel_id);
        if i < self.channels.len() {
            self.channels.remove(i);
            proof {
                lemma_remove_once(old(self).channels@, channel_id@);
                let o = old(self).channels@;
                let n = self.channels@;
                assert forall|a: int, b: int|
                    0 <= a < n.len() && 0 <= b < n.len() && a != b implies (#[trigger] n[a]).channel_id@
                    != (#[trigger] n[b]).channel_id@ by {
                    let aa = if a < i { a } else { a + 1 };
                    let bb = if b < i { b } else { b + 1 };
                    assert(n[a] == o[aa]);
                    assert(n[b] == o[bb]);
                }
                assert forall|a: int| 0 <= a < n.len() implies (#[trigger] n[a]).wf() by {
                    let aa = if a < i { a } else { a + 1 };
                    assert(n[a] == o[aa]);
                }
            }
            true
        } else {
            false
        }
    }

    /// The number of channels.
    pub fn count(&self) -> (r: usize)
        ensures
            r == self.channels@.len(),
    {
        self.channels.len()
    }

    /// The number of channels whose floor is taken.
    pub fn count_floor_taken(&self) -> (r: usize)
        ensures
            r == taken_count(self.channels@),
    {
        let mut n: usize = 0;
        let len = self.channels.len();
        let mut i: usize = len;
        while i > 0
            invariant
                len == self.channels@.len(),
                0 <= i <= self.channels@.len(),
                n == taken_count(self.channels@.skip(i as int)),
                n <= self.channels@.len() - i,
            decreases i,
        {
            i = i - 1;
            proof {
                assert(self.channels@.skip(i as int).drop_first() =~= self.channels@.skip(i as int + 1));
            }
            proof {
                lemma_taken_count_bound(self.channels@.skip(i as int));
            }
            if self.channels[i].floor.state == FloorControlState::Taken {
                n = n + 1;
            }
        }
        proof {
            assert(self.channels@.skip(0) =~= self.channels@);
        }
        n
    }
}

} // verus!
