//! Per-player lifecycle tracking.
//!
//! A tracker owns one record per player, accumulates active solving time
//! across presence toggles, replaces records that have gone stale across a
//! day boundary in the reference timezone, and decides exactly one
//! completion notification per player per day.

use vstd::prelude::*;
use crate::clock::{day_in_reference_tz, local_day_of, UTC_MS_MAX};

verus! {

/// One tracked game: timing and completion bookkeeping for a player.
#[derive(Clone, Copy, Debug, PartialEq, Eq, Structural)]
pub struct GameState {
    pub user_id: u64,
    /// Monotonic-clock instant, in ms, when the current attempt started.
    pub last_start_ms: u64,
    /// Active solving time accumulated from finished attempts, in ms.
    pub total_active_ms: u64,
    /// The completion notification already sent, if any.
    pub completion_msg_id: Option<u64>,
    /// Wall-clock creation instant, in ms since the Unix epoch (UTC).
    pub created_utc_ms: i64,
    pub completed: bool,
    pub channel_id: Option<u64>,
}

impl GameState {
    /// The creation instant is a representable wall-clock time, and the
    /// accumulated total never outruns the monotonic clock (each fold
    /// adds `now - last_start` and moves `last_start` up to `now`).
    pub open spec fn wf(self) -> bool {
        &&& 0 <= self.created_utc_ms <= UTC_MS_MAX
        &&& self.total_active_ms <= self.last_start_ms
    }

    /// A fresh record: the attempt clock starts now, nothing accumulated,
    /// not completed, no notification sent.
    pub open spec fn spec_fresh(user_id: u64, now_mono_ms: u64, now_utc_ms: i64) -> GameState {
        GameState {
            user_id,
            last_start_ms: now_mono_ms,
            total_active_ms: 0,
            completion_msg_id: None,
            created_utc_ms: now_utc_ms,
            completed: false,
            channel_id: None,
        }
    }

    pub fn new(user_id: u64, now_mono_ms: u64, now_utc_ms: i64) -> (r: GameState)
        requires
            0 <= now_utc_ms <= UTC_MS_MAX,
        ensures
            r == GameState::spec_fresh(user_id, now_mono_ms, now_utc_ms),
            r.wf(),
    {
        GameState {
            user_id,
            last_start_ms: now_mono_ms,
            total_active_ms: 0,
            completion_msg_id: None,
            created_utc_ms: now_utc_ms,
            completed: false,
            channel_id: None,
        }
    }

    /// Whether this record was created on the current calendar day in the
    /// reference timezone; a record from an earlier day is stale.
    pub fn is_current(&self, now_utc_ms: i64) -> (r: bool)
        requires
            self.wf(),
            0 <= now_utc_ms <= UTC_MS_MAX,
        ensures
            r == (local_day_of(self.created_utc_ms) == local_day_of(now_utc_ms)),
    {
        day_in_reference_tz(self.created_utc_ms) == day_in_reference_tz(now_utc_ms)
    }

    /// The record after folding the running attempt into the total at
    /// monotonic instant `now_mono_ms`.
    pub open spec fn spec_folded(self, now_mono_ms: u64) -> GameState {
        GameState {
            last_start_ms: now_mono_ms,
            total_active_ms: (self.total_active_ms + (now_mono_ms - self.last_start_ms)) as u64,
            ..self
        }
    }

    /// Folds the elapsed attempt into the accumulated total and restarts
    /// the attempt clock: the total grows by exactly `now - last_start`.
    pub fn update_active_time(&mut self, now_mono_ms: u64)
        requires
            old(self).wf(),
            old(self).last_start_ms <= now_mono_ms,
        ensures
            *final(self) == old(self).spec_folded(now_mono_ms),
            final(self).wf(),
    {
        self.total_active_ms = self.total_active_ms + (now_mono_ms - self.last_start_ms);
        self.last_start_ms = now_mono_ms;
    }
}

/// Folding an attempt never loses accumulated time: the total grows by
/// exactly the elapsed attempt, `now - last_start`, and never shrinks.
pub proof fn lemma_fold_accumulates(st: GameState, now_mono_ms: u64)
    requires
        st.wf(),
        st.last_start_ms <= now_mono_ms,
    ensures
        st.spec_folded(now_mono_ms).total_active_ms == st.total_active_ms + (now_mono_ms
            - st.last_start_ms),
        st.spec_folded(now_mono_ms).total_active_ms >= st.total_active_ms,
        st.spec_folded(now_mono_ms).wf(),
{
}

/// The notification requested by a completion: send a fresh message, or
/// edit the one sent earlier, carrying the final accumulated duration.
#[derive(Clone, Copy, Debug, PartialEq, Eq, Structural)]
pub enum NotifyAction {
    Send { total_active_ms: u64 },
    Edit { message_id: u64, total_active_ms: u64 },
}

/// The map of tracked games, one record per player identity.
pub struct GameStateTracker {
    pub entries: Vec<(u64, GameState)>,
}

impl GameStateTracker {
    /// Player identities are unique and every record is well-formed.
    pub open spec fn wf(self) -> bool {
        &&& forall|i: int, j: int|
            0 <= i < j < self.entries@.len() ==> self.entries@[i].0 != self.entries@[j].0
        &&& forall|i: int| 0 <= i < self.entries@.len() ==> (#[trigger] self.entries@[i]).1.wf()
        &&& forall|i: int|
            0 <= i < self.entries@.len() ==> (#[trigger] self.entries@[i]).1.user_id
                == self.entries@[i].0
    }

    /// Whether a record is tracked for this player.
    pub open spec fn contains_key(self, user: u64) -> bool {
        exists|i: int| 0 <= i < self.entries@.len() && (#[trigger] self.entries@[i]).0 == user
    }

    /// The index of this player's record.
    pub open spec fn index_of(self, user: u64) -> int {
        choose|i: int| 0 <= i < self.entries@.len() && (#[trigger] self.entries@[i]).0 == user
    }

    /// The record tracked for this player.
    pub open spec fn lookup(self, user: u64) -> GameState {
        self.entries@[self.index_of(user)].1
    }

    /// An empty tracker.
    pub fn new() -> (r: GameStateTracker)
        ensures
            r.wf(),
            r.entries@.len() == 0,
            forall|u: u64| !r.contains_key(u),
    {
        GameStateTracker { entries: Vec::new() }
    }

    /// Finds the position of a player's record.
    fn find(&self, user: u64) -> (r: Option<usize>)
        requires
            self.wf(),
        ensures
            r is Some <==> self.contains_key(user),
            r matches Some(i) ==> 0 <= i < self.entries@.len() && self.entries@[i as int].0 == user
                && i == self.index_of(user),
    {
        let n = self.entries.len();
        let mut k: usize = 0;
        while k < n
            invariant
                n == self.entries@.len(),
                0 <= k <= n,
                forall|i: int| 0 <= i < k ==> (#[trigger] self.entries@[i]).0 != user,
                self.wf(),
            decreases n - k,
        {
            if self.entries[k].0 == user {
                return Some(k);
            }
            k = k + 1;
        }
        None
    }

    /// The tracked players, in insertion order.
    pub fn users(&self) -> (r: Vec<u64>)
        requires
            self.wf(),
        ensures
            r@.len() == self.entries@.len(),
            forall|i: int| 0 <= i < r@.len() ==> r@[i] == (#[trigger] self.entries@[i]).0,
            forall|u: u64| r@.contains(u) <==> self.contains_key(u),
    {
        let n = self.entries.len();
        let mut r: Vec<u64> = Vec::new();
        let mut k: usize = 0;
        while k < n
            invariant
                n == self.entries@.len(),
                0 <= k <= n,
                r@.len() == k,
                forall|i: int| 0 <= i < k ==> r@[i] == (#[trigger] self.entries@[i]).0,
            decreases n - k,
        {
            let u = self.entries[k].0;
            r.push(u);
            k = k + 1;
        }
        proof {
            assert forall|u: u64| r@.contains(u) <==> self.contains_key(u) by {
                if r@.contains(u) {
                    let i = choose|i: int| 0 <= i < r@.len() && r@[i] == u;
                    assert(self.entries@[i].0 == u);
                }
                if self.contains_key(u) {
                    let i = self.index_of(u);
                    assert(r@[i] == u);
                }
            }
        }
        r
    }

    /// A copy of the record tracked for this player, if any.
    pub fn get(&self, user: u64) -> (r: Option<GameState>)
        requires
            self.wf(),
        ensures
            r is Some <==> self.contains_key(user),
            r matches Some(st) ==> st == self.lookup(user),
    {
        match self.find(user) {
            Some(i) => Some(self.entries[i].1),
            None => None,
        }
    }

    /// Whether an attachment event should run completion verification for
    /// this player: a record exists, is from the current day, and is not
    /// yet completed.
    pub fn needs_verification(&self, user: u64, now_utc_ms: i64) -> (r: bool)
        requires
            self.wf(),
            0 <= now_utc_ms <= UTC_MS_MAX,
        ensures
            r == (self.contains_key(user) && local_day_of(self.lookup(user).created_utc_ms)
                == local_day_of(now_utc_ms) && !self.lookup(user).completed),
    {
        match self.find(user) {
            Some(i) => {
                let st = &self.entries[i].1;
                !st.completed && st.is_current(now_utc_ms)
            },
            None => false,
        }
    }

    /// Applies a presence change.
    ///
    /// Starting to play creates a record when none exists, replaces a
    /// stale record wholesale — discarding its accumulated time — and
    /// leaves a current record untouched. Stopping play folds the elapsed
    /// attempt into the total of a current, uncompleted record and stops
    /// the clock; a completed or stale record is left untouched.
    pub fn handle_presence(&mut self, user: u64, playing: bool, now_mono_ms: u64, now_utc_ms: i64)
        requires
            old(self).wf(),
            0 <= now_utc_ms <= UTC_MS_MAX,
            forall|i: int|
                0 <= i < old(self).entries@.len() ==> (#[trigger] old(
                    self,
                ).entries@[i]).1.last_start_ms <= now_mono_ms,
        ensures
            final(self).wf(),
            final(self).contains_key(user) == (playing || old(self).contains_key(user)),
            forall|u: u64|
                u != user ==> (#[trigger] final(self).contains_key(u)) == old(self).contains_key(u),
            forall|u: u64|
                u != user && old(self).contains_key(u) ==> (#[trigger] final(self).lookup(u))
                    == old(self).lookup(u),
            playing && !old(self).contains_key(user) ==> final(self).lookup(user)
                == GameState::spec_fresh(user, now_mono_ms, now_utc_ms),
            playing && old(self).contains_key(user) && local_day_of(
                old(self).lookup(user).created_utc_ms,
            ) != local_day_of(now_utc_ms) ==> final(self).lookup(user) == GameState::spec_fresh(
                user,
                now_mono_ms,
                now_utc_ms,
            ),
            playing && old(self).contains_key(user) && local_day_of(
                old(self).lookup(user).created_utc_ms,
            ) == local_day_of(now_utc_ms) ==> final(self).lookup(user) == old(self).lookup(user),
            !playing && old(self).contains_key(user) && !old(self).lookup(user).completed
                && local_day_of(old(self).lookup(user).created_utc_ms) == local_day_of(now_utc_ms)
                ==> final(self).lookup(user) == old(self).lookup(user).spec_folded(now_mono_ms),
            !playing && old(self).contains_key(user) && (old(self).lookup(user).completed
                || local_day_of(old(self).lookup(user).created_utc_ms) != local_day_of(now_utc_ms))
                ==> final(self).lookup(user) == old(self).lookup(user),
            !playing && !old(self).contains_key(user) ==> *final(self) == *old(self),
    {
        let found = self.find(user);
        match found {
            None => {
                if playing {
                    let st = GameState::new(user, now_mono_ms, now_utc_ms);
                    self.entries.push((user, st));
                    proof {
                        let pre = *old(self);
                        let n = pre.entries@.len() as int;
                        assert(self.entries@[n].0 == user);
                        assert forall|i: int, j: int|
                            0 <= i < j < self.entries@.len() implies self.entries@[i].0
                            != self.entries@[j].0 by {
                            if j == n {
                                if pre.entries@[i].0 == user {
                                    assert(pre.contains_key(user));
                                }
                            } else {
                                assert(pre.entries@[i].0 != pre.entries@[j].0);
                            }
                        }
                        assert(self.wf());
                        lemma_unique_lookup(*self, user, n);
                        assert forall|u: u64|
                            u != user && pre.contains_key(u) implies (#[trigger] self.lookup(u))
                            == pre.lookup(u) by {
                            let i = pre.index_of(u);
                            assert(pre.entries@[i].0 == u);
                            assert(self.entries@[i].0 == u);
                            lemma_unique_lookup(*self, u, i);
                        }
                        assert forall|u: u64|
                            u != user implies (#[trigger] self.contains_key(u))
                            == pre.contains_key(u) by {
                            if self.contains_key(u) {
                                let i = self.index_of(u);
                                assert(self.entries@[i].0 == u);
                                assert(pre.entries@[i].0 == u);
                            }
                            if pre.contains_key(u) {
                                let i = pre.index_of(u);
                                assert(self.entries@[i].0 == u);
                            }
                        }
                    }
                }
            },
            Some(i) => {
                proof {
                    lemma_unique_lookup(*old(self), user, i as int);
                }
                let stale = !self.entries[i].1.is_current(now_utc_ms);
                if playing {
                    if stale {
                        let st = GameState::new(user, now_mono_ms, now_utc_ms);
                        self.entries[i] = (user, st);
                    }
                } else {
                    let completed = self.entries[i].1.completed;
                    if !completed && !stale {
                        let mut st = self.entries[i].1;
                        st.update_active_time(now_mono_ms);
                        self.entries[i] = (user, st);
                    }
                }
                proof {
                    lemma_update_preserves(*old(self), *self, user, i as int);
                }
            },
        }
    }

    /// Applies the outcome of a completion verification for one player.
    ///
    /// When a current, uncompleted record exists and the verification
    /// succeeded, the record is marked completed, the elapsed attempt is
    /// folded into its total, and the returned action says whether to send
    /// a fresh notification or edit the one referenced by the record. In
    /// every other case — no record, a stale record, an already-completed
    /// record, or a failed verification — nothing changes and no
    /// notification is requested.
    pub fn handle_verified(
        &mut self,
        user: u64,
        verified: bool,
        now_mono_ms: u64,
        now_utc_ms: i64,
        channel_id: u64,
    ) -> (r: Option<NotifyAction>)
        requires
            old(self).wf(),
            0 <= now_utc_ms <= UTC_MS_MAX,
            forall|i: int|
                0 <= i < old(self).entries@.len() ==> (#[trigger] old(
                    self,
                ).entries@[i]).1.last_start_ms <= now_mono_ms,
        ensures
            final(self).wf(),
            r is Some <==> (verified && old(self).contains_key(user) && !old(self).lookup(
                user,
            ).completed && local_day_of(old(self).lookup(user).created_utc_ms) == local_day_of(
                now_utc_ms,
            )),
            r is None ==> *final(self) == *old(self),
            forall|u: u64|
                (#[trigger] final(self).contains_key(u)) == old(self).contains_key(u),
            forall|u: u64|
                u != user && old(self).contains_key(u) ==> (#[trigger] final(self).lookup(u))
                    == old(self).lookup(u),
            r matches Some(act) ==> {
                let folded = old(self).lookup(user).spec_folded(now_mono_ms);
                &&& final(self).lookup(user) == (GameState {
                    completed: true,
                    channel_id: Some(channel_id),
                    ..folded
                })
                &&& act == match old(self).lookup(user).completion_msg_id {
                    Some(mid) => NotifyAction::Edit {
                        message_id: mid,
                        total_active_ms: folded.total_active_ms,
                    },
                    None => NotifyAction::Send { total_active_ms: folded.total_active_ms },
                }
            },
    {
        let found = self.find(user);
        match found {
            None => None,
            Some(i) => {
                proof {
                    lemma_unique_lookup(*old(self), user, i as int);
                }
                let st = self.entries[i].1;
                if !verified || st.completed || !st.is_current(now_utc_ms) {
                    return None;
                }
                let mut st = st;
                st.update_active_time(now_mono_ms);
                st.completed = true;
                st.channel_id = Some(channel_id);
                let action = match st.completion_msg_id {
                    Some(mid) => NotifyAction::Edit {
                        message_id: mid,
                        total_active_ms: st.total_active_ms,
                    },
                    None => NotifyAction::Send { total_active_ms: st.total_active_ms },
                };
                self.entries[i] = (user, st);
                proof {
                    lemma_update_preserves(*old(self), *self, user, i as int);
                }
                Some(action)
            },
        }
    }

    /// Records the identity of the notification message just sent for
    /// this player, so that a later completion edits it in place.
    pub fn record_notification(&mut self, user: u64, message_id: u64)
        requires
            old(self).wf(),
        ensures
            final(self).wf(),
            forall|u: u64|
                (#[trigger] final(self).contains_key(u)) == old(self).contains_key(u),
            forall|u: u64|
                u != user && old(self).contains_key(u) ==> (#[trigger] final(self).lookup(u))
                    == old(self).lookup(u),
            old(self).contains_key(user) ==> final(self).lookup(user) == (GameState {
                completion_msg_id: Some(message_id),
                ..old(self).lookup(user)
            }),
            !old(self).contains_key(user) ==> *final(self) == *old(self),
    {
        let found = self.find(user);
        match found {
            None => (),
            Some(i) => {
                proof {
                    lemma_unique_lookup(*old(self), user, i as int);
                }
                let mut st = self.entries[i].1;
                st.completion_msg_id = Some(message_id);
                self.entries[i] = (user, st);
                proof {
                    lemma_update_preserves(*old(self), *self, user, i as int);
                }
            },
        }
    }
}

/// In a tracker with unique keys, any index holding `user` is the index
/// that `index_of` denotes.
proof fn lemma_unique_lookup(t: GameStateTracker, user: u64, i: int)
    requires
        t.wf(),
        0 <= i < t.entries@.len(),
        t.entries@[i].0 == user,
    ensures
        t.contains_key(user),
        t.index_of(user) == i,
        t.lookup(user) == t.entries@[i].1,
{
    assert(t.contains_key(user));
    let j = t.index_of(user);
    if i < j {
        assert(t.entries@[i].0 != t.entries@[j].0);
    } else if j < i {
        assert(t.entries@[j].0 != t.entries@[i].0);
    }
}

/// Updating one entry in place, keeping its key, preserves every other
/// player's record and the tracker's membership.
proof fn lemma_update_preserves(pre: GameStateTracker, post: GameStateTracker, user: u64, i: int)
    requires
        pre.wf(),
        0 <= i < pre.entries@.len(),
        pre.entries@[i].0 == user,
        post.entries@.len() == pre.entries@.len(),
        post.entries@[i].0 == user,
        forall|j: int| 0 <= j < pre.entries@.len() && j != i ==> post.entries@[j] == pre.entries@[j],
    ensures
        forall|u: u64| (#[trigger] post.contains_key(u)) == pre.contains_key(u),
        forall|u: u64|
            u != user && pre.contains_key(u) ==> (#[trigger] post.lookup(u)) == pre.lookup(u),
        post.contains_key(user),
        post.lookup(user) == post.entries@[i].1,
        post.entries@[i].1.wf() && post.entries@[i].1.user_id == user ==> post.wf(),
{
    assert forall|u: u64| (#[trigger] post.contains_key(u)) == pre.contains_key(u) by {
        if pre.contains_key(u) {
            let k = pre.index_of(u);
            assert(post.entries@[k].0 == u);
        }
        if post.contains_key(u) {
            let k = choose|k: int|
                0 <= k < post.entries@.len() && (#[trigger] post.entries@[k]).0 == u;
            assert(pre.entries@[k].0 == u || k == i);
        }
    }
    assert forall|u: u64|
        u != user && pre.contains_key(u) implies (#[trigger] post.lookup(u)) == pre.lookup(u) by {
        let k = pre.index_of(u);
        assert(pre.entries@[k].0 == u);
        if k == i {
            assert(false);
        }
        assert(post.entries@[k].0 == u);
        let k2 = post.index_of(u);
        assert(0 <= k2 < post.entries@.len() && post.entries@[k2].0 == u);
        if k2 != k {
            if k2 == i {
                assert(false);
            }
            assert(pre.entries@[k2].0 == u);
            if k < k2 {
                assert(pre.entries@[k].0 != pre.entries@[k2].0);
            } else {
                assert(pre.entries@[k2].0 != pre.entries@[k].0);
            }
        }
    }
    assert(post.contains_key(user));
    assert forall|a: int, b: int|
        0 <= a < b < post.entries@.len() implies post.entries@[a].0 != post.entries@[b].0 by {
        if a != i && b != i {
            assert(pre.entries@[a].0 != pre.entries@[b].0);
        } else if a == i {
            assert(pre.entries@[b].0 == post.entries@[b].0);
            assert(pre.entries@[i].0 == user);
            assert(pre.entries@[i].0 != pre.entries@[b].0);
        } else {
            assert(pre.entries@[a].0 == post.entries@[a].0);
            assert(pre.entries@[a].0 != pre.entries@[i].0);
        }
    }
    let j2 = post.index_of(user);
    if j2 < i {
        assert(post.entries@[j2].0 != post.entries@[i].0);
    } else if i < j2 {
        assert(post.entries@[i].0 != post.entries@[j2].0);
    }
}

} // verus!
