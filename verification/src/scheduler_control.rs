//! Who controls the rigs: the connected users, or the scheduler.
use vstd::prelude::*;

use crate::id_table::{lemma_id_entry, IdTable};

verus! {

/// How many users are connected, and how many have released control.
#[derive(Clone, Copy, Debug, PartialEq, Eq, Structural)]
pub struct SchedulerControlSummary {
    pub connected_sessions: usize,
    pub released_sessions: usize,
    /// Somebody is connected, and everybody has released control.
    pub all_released: bool,
    /// The asking user has released control.
    pub current_session_released: bool,
}

/// A question for the summary.
#[derive(Debug)]
pub struct SchedulerControlQuery {
    pub session_id: Option<u128>,
}

/// A user's wish to release or to take control.
#[derive(Debug)]
pub struct SchedulerControlUpdate {
    pub session_id: u128,
    pub released: bool,
    pub remote: Option<String>,
}

/// The connected users, each with whether it has released control.
#[derive(Debug)]
pub struct SchedulerControlManager {
    pub sessions: IdTable<bool>,
}

impl View for SchedulerControlManager {
    type V = Map<u128, bool>;

    open spec fn view(&self) -> Map<u128, bool> {
        self.sessions@
    }
}

/// The users that have released control.
pub open spec fn released_ids(sessions: Map<u128, bool>) -> Set<u128> {
    sessions.dom().filter(|id: u128| sessions[id])
}

/// Everybody that is connected has released control.
pub open spec fn none_holds(sessions: Map<u128, bool>) -> bool {
    forall|id: u128| #[trigger] sessions.contains_key(id) ==> sessions[id]
}

/// Whether a user has released control.
pub open spec fn has_released(sessions: Map<u128, bool>, session_id: Option<u128>) -> bool {
    match session_id {
        Some(id) => sessions.contains_key(id) && sessions[id],
        None => false,
    }
}

impl SchedulerControlManager {
    /// No user is listed twice.
    pub open spec fn wf(&self) -> bool {
        self.sessions.wf()
    }

    /// Nobody is connected.
    pub fn new() -> (res: Self)
        ensures
            res.wf(),
            res@ == Map::<u128, bool>::empty(),
    {
        SchedulerControlManager { sessions: IdTable::new() }
    }

    /// A user has connected, and has not released control yet.
    pub fn register_session(&mut self, session_id: u128)
        requires
            old(self).wf(),
        ensures
            final(self).wf(),
            final(self)@ == old(self)@.insert(session_id, false),
    {
        self.sessions.insert(session_id, false);
    }

    /// A user has left.
    pub fn unregister_session(&mut self, session_id: u128)
        requires
            old(self).wf(),
        ensures
            final(self).wf(),
            final(self)@ == old(self)@.remove(session_id),
    {
        let removed = self.sessions.remove(session_id);
    }

    /// A user releases or takes control.
    pub fn set_released(&mut self, session_id: u128, released: bool) -> (res:
        SchedulerControlSummary)
        requires
            old(self).wf(),
        ensures
            final(self).wf(),
            final(self)@ == old(self)@.insert(session_id, released),
            final(self).is_summary(Some(session_id), res),
    {
        self.sessions.insert(session_id, released);
        self.summary(Some(session_id))
    }

    /// Whether a summary is the one that the user is given.
    pub open spec fn is_summary(
        &self,
        session_id: Option<u128>,
        summary: SchedulerControlSummary,
    ) -> bool {
        &&& self@.dom().finite()
        &&& summary.connected_sessions == self@.dom().len()
        &&& summary.released_sessions == released_ids(self@).len()
        &&& summary.all_released == (self@.dom().len() > 0 && none_holds(self@))
        &&& summary.current_session_released == has_released(self@, session_id)
    }

    /// How many users are connected, and how many have released control.
    pub fn summary(&self, session_id: Option<u128>) -> (res: SchedulerControlSummary)
        requires
            self.wf(),
        ensures
            self.is_summary(session_id, res),
    {
        let n: usize = self.sessions.entries.len();
        let ghost mut seen: Set<u128> = Set::empty();
        let ghost mut free: Set<u128> = Set::empty();
        let mut released: usize = 0;
        let mut i: usize = 0;
        while i < n
            invariant
                i <= n,
                n == self.sessions.entries@.len(),
                self.wf(),
                released <= i,
                seen.finite(),
                free.finite(),
                seen.len() == i,
                free.len() == released,
                forall|id: u128| #[trigger]
                    seen.contains(id) ==> exists|j: int|
                        0 <= j < i && (#[trigger] self.sessions.entries@[j]).0 == id,
                forall|j: int|
                    0 <= j < i ==> seen.contains((#[trigger] self.sessions.entries@[j]).0),
                forall|id: u128| #[trigger]
                    free.contains(id) ==> seen.contains(id) && self@[id],
                forall|id: u128| #[trigger] seen.contains(id) && self@[id] ==> free.contains(id),
            decreases n - i,
        {
            let entry = &self.sessions.entries[i];
            proof {
                lemma_id_entry(self.sessions.entries@, i as int);
                let id = entry.0;
                assert(!seen.contains(id)) by {
                    if seen.contains(id) {
                        let j = choose|j: int|
                            0 <= j < i && (#[trigger] self.sessions.entries@[j]).0 == id;
                        assert(self.sessions.entries@[j].0 != self.sessions.entries@[i as int].0);
                    }
                }
                seen = seen.insert(id);
                if entry.1 {
                    free = free.insert(id);
                }
            }
            if entry.1 {
                released = released + 1;
            }
            i = i + 1;
        }
        proof {
            assert forall|id: u128| self@.contains_key(id) implies seen.contains(id) by {
                let j = crate::id_table::id_index(self.sessions.entries@, id);
                assert(self.sessions.entries@[j].0 == id);
            }
            assert forall|id: u128| seen.contains(id) implies self@.contains_key(id) by {
                let j = choose|j: int|
                    0 <= j < n && (#[trigger] self.sessions.entries@[j]).0 == id;
                lemma_id_entry(self.sessions.entries@, j);
            }
            assert(seen =~= self@.dom());
            assert(free =~= released_ids(self@));
            if released == n {
                vstd::set_lib::lemma_subset_equality(free, seen);
                assert forall|id: u128| self@.contains_key(id) implies self@[id] by {
                    assert(free.contains(id));
                }
            } else {
                if none_holds(self@) {
                    assert(free =~= seen);
                }
            }
        }
        let current: bool = match session_id {
            Some(id) => match self.sessions.get(id) {
                Some(r) => *r,
                None => false,
            },
            None => false,
        };
        SchedulerControlSummary {
            connected_sessions: n,
            released_sessions: released,
            all_released: n > 0 && released == n,
            current_session_released: current,
        }
    }

    /// Whether the scheduler may work: no connected user holds control.
    pub fn scheduler_allowed(&self) -> (res: bool)
        requires
            self.wf(),
        ensures
            res == none_holds(self@),
    {
        let summary = self.summary(None);
        proof {
            self.lemma_nobody(summary);
        }
        summary.connected_sessions == 0 || summary.all_released
    }

    /// Whether a connected user holds control. It does exactly when the scheduler may not work.
    pub fn has_active_user_control(&self) -> (res: bool)
        requires
            self.wf(),
        ensures
            res == !none_holds(self@),
    {
        let summary = self.summary(None);
        proof {
            self.lemma_nobody(summary);
        }
        summary.connected_sessions > 0 && !summary.all_released
    }

    proof fn lemma_nobody(&self, summary: SchedulerControlSummary)
        requires
            self.wf(),
            self.is_summary(None, summary),
        ensures
            summary.connected_sessions == 0 ==> none_holds(self@),
    {
        if summary.connected_sessions == 0 {
            assert forall|id: u128| self@.contains_key(id) implies self@[id] by {
                assert(self@.dom().contains(id));
                vstd::set_lib::lemma_len_subset(set![id], self@.dom());
            }
        }
    }

    /// Carries out a user's wish. Where it was the last to release control, the result also names
    /// the rig that is to be tuned as the scheduler last had it.
    pub fn update(&mut self, update: SchedulerControlUpdate) -> (res: (
        SchedulerControlSummary,
        Option<String>,
    ))
        requires
            old(self).wf(),
        ensures
            final(self).wf(),
            final(self)@ == old(self)@.insert(update.session_id, update.released),
            final(self).is_summary(Some(update.session_id), res.0),
            res.1 == (if update.released && none_holds(final(self)@) {
                update.remote
            } else {
                None
            }),
    {
        let summary = self.set_released(update.session_id, update.released);
        proof {
            assert(self@.contains_key(update.session_id));
            vstd::set_lib::lemma_len_subset(set![update.session_id], self@.dom());
        }
        let restore = if update.released && summary.all_released {
            update.remote
        } else {
            None
        };
        (summary, restore)
    }
}

/// As soon as one user takes control the scheduler may not work, whatever the others do.
pub proof fn one_holder_suffices(sessions: Map<u128, bool>, id: u128)
    ensures
        !none_holds(sessions.insert(id, false)),
{
    assert(sessions.insert(id, false).contains_key(id));
}

/// A user that has only connected keeps the scheduler waiting, whatever the others do, until it
/// releases control or leaves; then the others decide.
pub proof fn connected_user_keeps_control(sessions: Map<u128, bool>, id: u128, other: u128)
    requires
        other != id,
    ensures
        !none_holds(sessions.insert(id, false)),
        !none_holds(sessions.insert(id, false).insert(other, true)),
        !none_holds(sessions.insert(id, false).remove(other)),
        none_holds(sessions.insert(id, false).insert(id, true)) == none_holds(sessions.remove(id)),
        none_holds(sessions.insert(id, false).remove(id)) == none_holds(sessions.remove(id)),
{
    let connected = sessions.insert(id, false);
    let released = connected.insert(id, true);
    let others = sessions.remove(id);
    assert(connected.contains_key(id));
    assert(connected.insert(other, true).contains_key(id));
    assert(connected.remove(other).contains_key(id));
    assert(connected.remove(id) =~= others);
    if none_holds(released) {
        assert forall|k: u128| others.contains_key(k) implies others[k] by {
            assert(released.contains_key(k));
        }
    }
    if none_holds(others) {
        assert forall|k: u128| released.contains_key(k) implies released[k] by {
            if k != id {
                assert(others.contains_key(k));
            }
        }
    }
}

/// When a user leaves, the control it held goes with it.
pub proof fn leaving_releases(sessions: Map<u128, bool>, id: u128)
    requires
        forall|k: u128| #[trigger] sessions.contains_key(k) && k != id ==> sessions[k],
    ensures
        none_holds(sessions.remove(id)),
{
    let after = sessions.remove(id);
    assert forall|k: u128| after.contains_key(k) implies after[k] by {
        assert(sessions.contains_key(k));
    }
}

/// A summary counts the sessions and those of them that let go. They have all let go where there is
/// one and none of them holds on, and a session has let go where it is known to have done so.
pub proof fn summaries_count_the_sessions(
    manager: SchedulerControlManager,
    session_id: Option<u128>,
    summary: SchedulerControlSummary,
    id: u128,
)
    requires
        manager.is_summary(session_id, summary),
    ensures
        summary.connected_sessions == manager@.dom().len(),
        summary.released_sessions == manager@.dom().filter(|k: u128| manager@[k]).len(),
        summary.all_released <==> manager@.dom().len() > 0 && (forall|k: u128| #[trigger]
            manager@.contains_key(k) ==> manager@[k]),
        summary.current_session_released <==> session_id is Some && manager@.contains_key(
            session_id->0,
        ) && manager@[session_id->0],
        released_ids(manager@).contains(id) <==> manager@.contains_key(id) && manager@[id],
        released_ids(manager@) == manager@.dom() ==> none_holds(manager@),
        none_holds(manager@) ==> released_ids(manager@) == manager@.dom(),
{
    assert forall|k: u128|
        released_ids(manager@) == manager@.dom() && #[trigger] manager@.contains_key(
            k,
        ) implies manager@[k] by {
        assert(released_ids(manager@).contains(k));
    }
    if none_holds(manager@) {
        assert(released_ids(manager@) =~= manager@.dom());
    }
}

} // verus!
