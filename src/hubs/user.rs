//! Identified signaling sessions, keyed by user id.

use vstd::prelude::*;

use crate::utils::{current_timestamp, str_eq};

verus! {

/// One identified session.
pub struct User {
    pub user_id: String,
    /// Floor priority, 0..=255 (default 100, emergency 255).
    pub priority: u8,
    /// Last time anything was heard from the session, in milliseconds.
    pub last_seen: u64,
}

/// Index of the user named `uid` in `us`, or the length when absent.
pub open spec fn user_index(us: Seq<User>, uid: Seq<char>) -> int
    decreases us.len(),
{
    if us.len() == 0 {
        0
    } else if us[0].user_id@ == uid {
        0
    } else {
        1 + user_index(us.drop_first(), uid)
    }
}

/// `uid` is registered in `us`.
pub open spec fn has_user(us: Seq<User>, uid: Seq<char>) -> bool {
    exists|i: int| 0 <= i < us.len() && (#[trigger] us[i]).user_id@ == uid
}

/// No user id occurs twice.
pub open spec fn unique_users(us: Seq<User>) -> bool {
    forall|i: int, j: int|
        0 <= i < us.len() && 0 <= j < us.len() && i != j ==> (#[trigger] us[i]).user_id@ != (#[trigger] us[j]).user_id@
}

/// The registered user ids.
pub open spec fn user_ids(us: Seq<User>) -> Set<Seq<char>> {
    Set::new(|u: Seq<char>| has_user(us, u))
}

/// `i` is where `uid` sits in `us` when no earlier user has that id.
proof fn lemma_user_index(us: Seq<User>, uid: Seq<char>, i: int)
    requires
        0 <= i <= us.len(),
        forall|j: int| 0 <= j < i ==> (#[trigger] us[j]).user_id@ != uid,
        i < us.len() ==> us[i].user_id@ == uid,
    ensures
        user_index(us, uid) == i,
        i == us.len() ==> !has_user(us, uid),
        i < us.len() ==> has_user(us, uid),
    decreases us.len(),
{
    if us.len() > 0 && i > 0 {
        let t = us.drop_first();
        assert forall|j: int| 0 <= j < i - 1 implies (#[trigger] t[j]).user_id@ != uid by {
            assert(us[j + 1] == t[j]);
        }
        lemma_user_index(t, uid, i - 1);
    }
    if i == us.len() && has_user(us, uid) {
        let k = choose|k: int| 0 <= k < us.len() && (#[trigger] us[k]).user_id@ == uid;
        assert(us[k].user_id@ != uid);
    }
    if i < us.len() {
        assert(us[i].user_id@ == uid);
    }
}

/// All identified sessions.
pub struct UserHub {
    pub users: Vec<User>,
}

impl UserHub {
    /// One entry per user id.
    pub open spec fn wf(&self) -> bool {
        unique_users(self.users@)
    }

    /// No users.
    pub fn new() -> (r: UserHub)
        ensures
            r.wf(),
            r.users@.len() == 0,
    {
        UserHub { users: Vec::new() }
    }

    fn find(&self, user_id: &str) -> (r: usize)
        ensures
            r == user_index(self.users@, user_id@),
            r <= self.users@.len(),
            r < self.users@.len() <==> has_user(self.users@, user_id@),
            r < self.users@.len() ==> self.users@[r as int].user_id@ == user_id@,
            forall|j: int| 0 <= j < r ==> (#[trigger] self.users@[j]).user_id@ != user_id@,
    {
        let mut i: usize = 0;
        while i < self.users.len()
            invariant
                0 <= i <= self.users@.len(),
                forall|j: int| 0 <= j < i ==> (#[trigger] self.users@[j]).user_id@ != user_id@,
            decreases self.users@.len() - i,
        {
            if str_eq(self.users[i].user_id.as_str(), user_id) {
                proof {
                    lemma_user_index(self.users@, user_id@, i as int);
                }
                return i;
            }
            i = i + 1;
        }
        proof {
            lemma_user_index(self.users@, user_id@, i as int);
        }
        i
    }

    /// Registers `user_id` with `priority`, seen at `now`; a user already
    /// registered under that id is replaced.
    pub fn register_at(&mut self, user_id: &str, priority: u8, now: u64)
        requires
            old(self).wf(),
        ensures
            final(self).wf(),
            user_ids(final(self).users@) == user_ids(old(self).users@).insert(user_id@),
            has_user(old(self).users@, user_id@) ==> final(self).users@.len() == old(self).users@.len(),
            !has_user(old(self).users@, user_id@) ==> final(self).users@.len() == old(self).users@.len() + 1,
            final(self).users@[user_index(final(self).users@, user_id@)].priority == priority,
            final(self).users@[user_index(final(self).users@, user_id@)].last_seen == now,
    {
        let i = self.find(user_id);
        let u = User { user_id: user_id.to_owned(), priority, last_seen: now };
        if i < self.users.len() {
            self.users.set(i, u);
            proof {
                let o = old(self).users@;
                let n = self.users@;
                assert forall|a: int, b: int|
                    0 <= a < n.len() && 0 <= b < n.len() && a != b implies (#[trigger] n[a]).user_id@
                    != (#[trigger] n[b]).user_id@ by {
                    if a == i {
                        assert(o[b].user_id@ != o[a].user_id@);
                    } else if b == i {
                        assert(o[a].user_id@ != o[b].user_id@);
                    }
                }
                assert forall|j: int| 0 <= j < i implies (#[trigger] n[j]).user_id@ != user_id@ by {
                    assert(n[j] == o[j]);
                }
                lemma_user_index(n, user_id@, i as int);
                assert forall|v: Seq<char>| has_user(n, v) <==> (has_user(o, v) || v == user_id@) by {
                    if has_user(n, v) {
                        let k = choose|k: int| 0 <= k < n.len() && (#[trigger] n[k]).user_id@ == v;
                        if k != i {
                            assert(o[k] == n[k]);
                        }
                    }
                    if has_user(o, v) {
                        let k = choose|k: int| 0 <= k < o.len() && (#[trigger] o[k]).user_id@ == v;
                        if k != i {
                            assert(o[k] == n[k]);
                        } else {
                            assert(n[k].user_id@ == v);
                        }
                    }
                    if v == user_id@ {
                        assert(n[i as int].user_id@ == v);
                    }
                }
                assert(user_ids(n) =~= user_ids(o).insert(user_id@));
            }
        } else {
            self.users.push(u);
            proof {
                let o = old(self).users@;
                let n = self.users@;
                assert forall|a: int, b: int|
                    0 <= a < n.len() && 0 <= b < n.len() && a != b implies (#[trigger] n[a]).user_id@
                    != (#[trigger] n[b]).user_id@ by {
                    if a == o.len() {
                        assert(n[b] == o[b]);
                    } else if b == o.len() {
                        assert(n[a] == o[a]);
                    } else {
                        assert(n[a] == o[a]);
                        assert(n[b] == o[b]);
                    }
                }
                assert forall|j: int| 0 <= j < i implies (#[trigger] n[j]).user_id@ != user_id@ by {
                    assert(n[j] == o[j]);
                }
                lemma_user_index(n, user_id@, i as int);
                assert forall|v: Seq<char>| has_user(n, v) <==> (has_user(o, v) || v == user_id@) by {
                    if has_user(n, v) {
                        let k = choose|k: int| 0 <= k < n.len() && (#[trigger] n[k]).user_id@ == v;
                        if k < o.len() {
                            assert(o[k] == n[k]);
                        }
                    }
                    if has_user(o, v) {
                        let k = choose|k: int| 0 <= k < o.len() && (#[trigger] o[k]).user_id@ == v;
                        assert(o[k] == n[k]);
                    }
                    if v == user_id@ {
                        assert(n[i as int].user_id@ == v);
                    }
                }
                assert(user_ids(n) =~= user_ids(o).insert(user_id@));
            }
        }
    }

    /// Registers `user_id` with `priority`, seen now by the wall clock.
    pub fn register(&mut self, user_id: &str, priority: u8)
        requires
            old(self).wf(),
        ensures
            final(self).wf(),
            user_ids(final(self).users@) == user_ids(old(self).users@).insert(user_id@),
            has_user(old(self).users@, user_id@) ==> final(self).users@.len() == old(self).users@.len(),
            !has_user(old(self).users@, user_id@) ==> final(self).users@.len() == old(self).users@.len() + 1,
            final(self).users@[user_index(final(self).users@, user_id@)].priority == priority,
    {
        let now = current_timestamp();
        self.register_at(user_id, priority, now);
    }

    /// Removes `user_id`; nothing happens when it is not registered.
    pub fn unregister(&mut self, user_id: &str)
        requires
            old(self).wf(),
        ensures
            final(self).wf(),
            user_ids(final(self).users@) == user_ids(old(self).users@).remove(user_id@),
            has_user(old(self).users@, user_id@) ==> final(self).users@.len() == old(self).users@.len() - 1,
            !has_user(old(self).users@, user_id@) ==> final(self).users@ == old(self).users@,
    {
        let i = self.find(user_id);
        if i < self.users.len() {
            self.users.remove(i);
            proof {
                let o = old(self).users@;
                let n = self.users@;
                assert forall|a: int, b: int|
                    0 <= a < n.len() && 0 <= b < n.len() && a != b implies (#[trigger] n[a]).user_id@
                    != (#[trigger] n[b]).user_id@ by {
                    let aa = if a < i { a } else { a + 1 };
                    let bb = if b < i { b } else { b + 1 };
                    assert(n[a] == o[aa]);
                    assert(n[b] == o[bb]);
                }
                assert forall|v: Seq<char>| has_user(n, v) <==> (has_user(o, v) && v != user_id@) by {
                    if has_user(n, v) {
                        let k = choose|k: int| 0 <= k < n.len() && (#[trigger] n[k]).user_id@ == v;
                        let kk = if k < i { k } else { k + 1 };
                        assert(n[k] == o[kk]);
                        assert(o[i as int].user_id@ != o[kk].user_id@);
                    }
                    if has_user(o, v) && v != user_id@ {
                        let k = choose|k: int| 0 <= k < o.len() && (#[trigger] o[k]).user_id@ == v;
                        if k < i {
                            assert(n[k] == o[k]);
                        } else {
                            assert(n[k - 1] == o[k]);
                        }
                    }
                }
                assert(user_ids(n) =~= user_ids(o).remove(user_id@));
            }
        } else {
            proof {
                assert(user_ids(old(self).users@) =~= user_ids(old(self).users@).remove(user_id@));
            }
        }
    }

    /// Whether `user_id` is registered.
    pub fn contains(&self, user_id: &str) -> (r: bool)
        ensures
            r == has_user(self.users@, user_id@),
    {
        self.find(user_id) < self.users.len()
    }

    /// The user registered as `user_id`, if any.
    pub fn get(&self, user_id: &str) -> (r: Option<&User>)
        ensures
            match r {
                Some(u) => has_user(self.users@, user_id@) && *u == self.users@[user_index(self.users@, user_id@)],
                None => !has_user(self.users@, user_id@),
            },
    {
        let i = self.find(user_id);
        if i < self.users.len() {
            Some(&self.users[i])
        } else {
            None
        }
    }

    /// Every registered user, in hub order.
    pub fn all_users(&self) -> (r: Vec<&User>)
        ensures
            r@.len() == self.users@.len(),
            forall|k: int| 0 <= k < r@.len() ==> *(#[trigger] r@[k]) == self.users@[k],
    {
        let mut out: Vec<&User> = Vec::new();
        let mut i: usize = 0;
        while i < self.users.len()
            invariant
                0 <= i <= self.users@.len(),
                out@.len() == i,
                forall|k: int| 0 <= k < out@.len() ==> *(#[trigger] out@[k]) == self.users@[k],
            decreases self.users@.len() - i,
        {
            out.push(&self.users[i]);
            i = i + 1;
        }
        out
    }

    /// The priority of `user_id`, if registered.
    pub fn get_priority(&self, user_id: &str) -> (r: Option<u8>)
        ensures
            match r {
                Some(p) => has_user(self.users@, user_id@) && p == self.users@[user_index(
                    self.users@,
                    user_id@,
                )].priority,
                None => !has_user(self.users@, user_id@),
            },
    {
        let i = self.find(user_id);
        if i < self.users.len() {
            Some(self.users[i].priority)
        } else {
            None
        }
    }

    /// Records that `user_id` was heard from at `now`.
    pub fn touch_at(&mut self, user_id: &str, now: u64)
        requires
            old(self).wf(),
        ensures
            final(self).wf(),
            user_ids(final(self).users@) == user_ids(old(self).users@),
            final(self).users@.len() == old(self).users@.len(),
            has_user(old(self).users@, user_id@) ==> final(self).users@[user_index(
                old(self).users@,
                user_id@,
            )].last_seen == now,
    {
        let i = self.find(user_id);
        if i < self.users.len() {
            let ghost o = self.users@;
            let u = User { user_id: self.users[i].user_id.clone(), priority: self.users[i].priority, last_seen: now };
            self.users.set(i, u);
            proof {
                let n = self.users@;
                assert forall|a: int| 0 <= a < n.len() implies (#[trigger] n[a]).user_id@ == o[a].user_id@ by {}
                assert forall|v: Seq<char>| has_user(n, v) <==> has_user(o, v) by {
                    if has_user(n, v) {
                        let k = choose|k: int| 0 <= k < n.len() && (#[trigger] n[k]).user_id@ == v;
                        assert(o[k].user_id@ == v);
                    }
                    if has_user(o, v) {
                        let k = choose|k: int| 0 <= k < o.len() && (#[trigger] o[k]).user_id@ == v;
                        assert(n[k].user_id@ == v);
                    }
                }
                assert(user_ids(n) =~= user_ids(o));
            }
        }
    }

    /// The number of registered users.
    pub fn count(&self) -> (r: usize)
        ensures
            r == self.users@.len(),
    {
        self.users.len()
    }

    /// Ids of the users silent for at least `timeout_ms` at `now` (a last
    /// contact after `now` counts as no silence).
    pub fn find_zombies_at(&self, timeout_ms: u64, now: u64) -> (r: Vec<String>)
        ensures
            forall|u: Seq<char>|
                #![trigger names(r@, u)]
                #![trigger is_zombie(self.users@, u, timeout_ms, now)]
                names(r@, u) <==> is_zombie(self.users@, u, timeout_ms, now),
    {
        let mut out: Vec<String> = Vec::new();
        let mut i: usize = 0;
        while i < self.users.len()
            invariant
                0 <= i <= self.users@.len(),
                forall|u: Seq<char>|
                    #![trigger names(out@, u)]
                    #![trigger is_zombie(self.users@.take(i as int), u, timeout_ms, now)]
                    names(out@, u) <==> is_zombie(self.users@.take(i as int), u, timeout_ms, now),
            decreases self.users@.len() - i,
        {
            let ghost before = out@;
            let ghost us = self.users@;
            let u = &self.users[i];
            let z = now.saturating_sub(u.last_seen) >= timeout_ms;
            if z {
                out.push(u.user_id.clone());
            }
            proof {
                let t0 = us.take(i as int);
                let t1 = us.take(i as int + 1);
                assert forall|v: Seq<char>| names(out@, v) <==> is_zombie(t1, v, timeout_ms, now) by {
                    if names(out@, v) {
                        let k = choose|k: int| 0 <= k < out@.len() && (#[trigger] out@[k])@ == v;
                        if k < before.len() {
                            assert(before[k] == out@[k]);
                            assert(names(before, v));
                            let j = choose|j: int|
                                0 <= j < t0.len() && (#[trigger] t0[j]).user_id@ == v && silent(t0[j], timeout_ms, now);
                            assert(t1[j] == t0[j]);
                        } else {
                            assert(t1[i as int] == us[i as int]);
                            assert(t1[i as int].user_id@ == v);
                            assert(silent(t1[i as int], timeout_ms, now));
                        }
                    }
                    if is_zombie(t1, v, timeout_ms, now) {
                        let j = choose|j: int|
                            0 <= j < t1.len() && (#[trigger] t1[j]).user_id@ == v && silent(t1[j], timeout_ms, now);
                        if j < i {
                            assert(t0[j] == t1[j]);
                            assert(is_zombie(t0, v, timeout_ms, now));
                            let k = choose|k: int| 0 <= k < before.len() && (#[trigger] before[k])@ == v;
                            assert(out@[k] == before[k]);
                        } else {
                            assert(t1[j] == us[i as int]);
                            assert(out@[out@.len() - 1]@ == v);
                        }
                    }
                }
            }
            i = i + 1;
        }
        proof {
            assert(self.users@.take(i as int) =~= self.users@);
        }
        out
    }

    /// Ids of users silent for at least `timeout_ms`, by the wall clock.
    pub fn find_zombies(&self, timeout_ms: u64) -> (r: Vec<String>)
        ensures
            forall|u: Seq<char>| #[trigger] names(r@, u) ==> has_user(self.users@, u),
    {
        let now = current_timestamp();
        let r = self.find_zombies_at(timeout_ms, now);
        proof {
            assert forall|u: Seq<char>| #[trigger] names(r@, u) implies has_user(self.users@, u) by {
                assert(is_zombie(self.users@, u, timeout_ms, now));
            }
        }
        r
    }

    /// The members who receive a broadcast: every registered member but
    /// `exclude`.
    pub fn broadcast_targets(&self, members: &Vec<String>, exclude: Option<&str>) -> (r: Vec<String>)
        ensures
            forall|u: Seq<char>|
                #![trigger names(r@, u)]
                #![trigger names(members@, u)]
                names(r@, u) <==> (names(members@, u) && has_user(self.users@, u) && !excluded(exclude, u)),
    {
        let mut out: Vec<String> = Vec::new();
        let mut i: usize = 0;
        while i < members.len()
            invariant
                0 <= i <= members@.len(),
                forall|u: Seq<char>|
                    #![trigger names(out@, u)]
                    #![trigger names(members@.take(i as int), u)]
                    names(out@, u) <==> (names(members@.take(i as int), u) && has_user(self.users@, u)
                        && !excluded(exclude, u)),
            decreases members@.len() - i,
        {
            let m = &members[i];
            let ex = match exclude {
                Some(x) => str_eq(x, m.as_str()),
                None => false,
            };
            let ghost before = out@;
            if !ex && self.contains(m.as_str()) {
                out.push(m.clone());
            }
            proof {
                let t0 = members@.take(i as int);
                let t1 = members@.take(i as int + 1);
                assert forall|u: Seq<char>|
                    names(out@, u) <==> (names(t1, u) && has_user(self.users@, u) && !excluded(exclude, u)) by {
                    if names(out@, u) {
                        let k = choose|k: int| 0 <= k < out@.len() && (#[trigger] out@[k])@ == u;
                        if k < before.len() {
                            assert(before[k] == out@[k]);
                            assert(names(before, u));
                            let j = choose|j: int| 0 <= j < t0.len() && (#[trigger] t0[j])@ == u;
                            assert(t1[j] == t0[j]);
                        } else {
                            assert(t1[i as int]@ == u);
                        }
                    }
                    if names(t1, u) && has_user(self.users@, u) && !excluded(exclude, u) {
                        let j = choose|j: int| 0 <= j < t1.len() && (#[trigger] t1[j])@ == u;
                        if j < i {
                            assert(t0[j] == t1[j]);
                            assert(names(t0, u));
                            let k = choose|k: int| 0 <= k < before.len() && (#[trigger] before[k])@ == u;
                            assert(out@[k] == before[k]);
                        } else {
                            assert(out@[out@.len() - 1]@ == u);
                        }
                    }
                }
            }
            i = i + 1;
        }
        proof {
            assert(members@.take(i as int) =~= members@);
        }
        out
    }
}

/// `u` is among the ids in `s`.
pub open spec fn names(s: Seq<String>, u: Seq<char>) -> bool {
    exists|i: int| 0 <= i < s.len() && (#[trigger] s[i])@ == u
}

/// `exclude` names `u`.
pub open spec fn excluded(exclude: Option<&str>, u: Seq<char>) -> bool {
    match exclude {
        Some(x) => x@ == u,
        None => false,
    }
}

/// `user` has been silent for at least `timeout_ms` at `now`.
pub open spec fn silent(user: User, timeout_ms: u64, now: u64) -> bool {
    (if now >= user.last_seen {
        now - user.last_seen
    } else {
        0
    }) >= timeout_ms
}

/// `u` is a user of `us` silent for at least `timeout_ms` at `now`.
pub open spec fn is_zombie(us: Seq<User>, u: Seq<char>, timeout_ms: u64, now: u64) -> bool {
    exists|j: int| 0 <= j < us.len() && (#[trigger] us[j]).user_id@ == u && silent(us[j], timeout_ms, now)
}

/// Registering a new user and then unregistering it gives back the user
/// set and the count as they were; unregistering again changes nothing.
pub proof fn lemma_register_unregister(
    before: Seq<User>,
    registered: Seq<User>,
    after: Seq<User>,
    again: Seq<User>,
    uid: Seq<char>,
)
    requires
        !has_user(before, uid),
        user_ids(registered) == user_ids(before).insert(uid),
        registered.len() == before.len() + 1,
        has_user(registered, uid) ==> after.len() == registered.len() - 1,
        user_ids(after) == user_ids(registered).remove(uid),
        !has_user(after, uid) ==> again == after,
    ensures
        user_ids(after) == user_ids(before),
        after.len() == before.len(),
        again == after,
{
    assert(user_ids(registered).contains(uid));
    assert(has_user(registered, uid));
    assert(user_ids(before).insert(uid).remove(uid) =~= user_ids(before)) by {
        assert(!user_ids(before).contains(uid));
    }
    assert(!user_ids(after).contains(uid));
}

} // verus!
