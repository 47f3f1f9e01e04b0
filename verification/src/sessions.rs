//! The browser sessions: which rig each of them looks at.
use vstd::prelude::*;

use crate::http_reply::HttpError;
use crate::id_table::IdTable;
use crate::ids::{is_random_uuid, new_uuid, parse_uuid, uuid_named};
use crate::remote::RemoteRigEntry;
use crate::scheduler_control::SchedulerControlManager;
use crate::text::{join2, opt_clone, opt_view, own, str_eq, trim, trimmed};

verus! {

/// The rig that each session looks at.
#[derive(Debug)]
pub struct SessionRigManager {
    pub sessions: IdTable<String>,
}

impl View for SessionRigManager {
    type V = Map<u128, Seq<char>>;

    open spec fn view(&self) -> Map<u128, Seq<char>> {
        self.sessions@.map_values(|r: String| r@)
    }
}

impl Default for SessionRigManager {
    fn default() -> (res: Self)
        ensures
            res.wf(),
            res@ == Map::<u128, Seq<char>>::empty(),
    {
        let res = SessionRigManager { sessions: IdTable::new() };
        assert(res@ =~= Map::<u128, Seq<char>>::empty());
        res
    }
}

impl SessionRigManager {
    /// No session is listed twice.
    pub open spec fn wf(&self) -> bool {
        self.sessions.wf()
    }

    /// The rig of a session, if it has one.
    pub open spec fn rig_of(&self, session_id: u128) -> Option<Seq<char>> {
        if self@.contains_key(session_id) {
            Some(self@[session_id])
        } else {
            None
        }
    }

    /// A session looks at a rig from now on.
    pub fn register(&mut self, session_id: u128, rig_id: String)
        requires
            old(self).wf(),
        ensures
            final(self).wf(),
            final(self)@ == old(self)@.insert(session_id, rig_id@),
    {
        self.sessions.insert(session_id, rig_id);
        assert(self@ =~= old(self)@.insert(session_id, rig_id@));
    }

    /// A session has ended.
    pub fn unregister(&mut self, session_id: u128)
        requires
            old(self).wf(),
        ensures
            final(self).wf(),
            final(self)@ == old(self)@.remove(session_id),
    {
        let removed = self.sessions.remove(session_id);
        assert(self@ =~= old(self)@.remove(session_id));
    }

    /// The rig of a session, if it has one.
    pub fn get_rig(&self, session_id: u128) -> (res: Option<String>)
        requires
            self.wf(),
        ensures
            opt_view(res) == self.rig_of(session_id),
    {
        match self.sessions.get(session_id) {
            Some(r) => Some(r.clone()),
            None => None,
        }
    }

    /// A session looks at another rig from now on.
    pub fn set_rig(&mut self, session_id: u128, rig_id: String)
        requires
            old(self).wf(),
        ensures
            final(self).wf(),
            final(self)@ == old(self)@.insert(session_id, rig_id@),
    {
        self.register(session_id, rig_id);
    }
}

/// Sessions do not interfere: what one looks at does not change what another does.
pub proof fn sessions_are_independent(
    before: Map<u128, Seq<char>>,
    a: u128,
    b: u128,
    rig_id: Seq<char>,
)
    requires
        a != b,
    ensures
        before.insert(a, rig_id).contains_key(b) == before.contains_key(b),
        before.contains_key(b) ==> before.insert(a, rig_id)[b] == before[b],
{
}

// ---------------------------------------------------------------------------------------------
// Opening and closing
// ---------------------------------------------------------------------------------------------

/// The rig that a request is about: the one it names, or else the selected one. An empty name is
/// none.
pub open spec fn requested(remote: Option<Seq<char>>, active: Option<Seq<char>>) -> Option<
    Seq<char>,
> {
    match remote {
        Some(r) => if r.len() > 0 {
            Some(r)
        } else {
            active
        },
        None => active,
    }
}

/// The rig that a request is about.
pub fn requested_rig(remote: &Option<String>, active: &Option<String>) -> (res: Option<String>)
    ensures
        opt_view(res) == requested(opt_view(*remote), opt_view(*active)),
{
    match remote {
        Some(r) => if r.as_str().is_empty() {
            opt_clone(active)
        } else {
            Some(r.clone())
        },
        None => opt_clone(active),
    }
}

/// The rig that a request names; an empty name is none.
pub fn named_rig(remote: &Option<String>) -> (res: Option<String>)
    ensures
        opt_view(res) == requested(opt_view(*remote), None),
{
    requested_rig(remote, &None)
}

/// Opens a session with the given id. It has not released control yet, and looks at the rig that it
/// asks for.
pub fn open_session(
    session_id: u128,
    remote: &Option<String>,
    active: &Option<String>,
    control: &mut SchedulerControlManager,
    sessions: &mut SessionRigManager,
) -> (res: Option<String>)
    requires
        old(control).wf(),
        old(sessions).wf(),
    ensures
        final(control).wf(),
        final(sessions).wf(),
        opt_view(res) == requested(opt_view(*remote), opt_view(*active)),
        final(control)@ == old(control)@.insert(session_id, false),
        final(sessions)@ == (match opt_view(res) {
            Some(rig) => old(sessions)@.insert(session_id, rig),
            None => old(sessions)@,
        }),
{
    control.register_session(session_id);
    let rig = requested_rig(remote, active);
    match &rig {
        Some(r) => {
            sessions.register(session_id, r.clone());
        },
        None => {},
    }
    rig
}

/// Opens a session with a fresh id.
pub fn open_new_session(
    remote: &Option<String>,
    active: &Option<String>,
    control: &mut SchedulerControlManager,
    sessions: &mut SessionRigManager,
) -> (res: (u128, Option<String>))
    requires
        old(control).wf(),
        old(sessions).wf(),
    ensures
        final(control).wf(),
        final(sessions).wf(),
        is_random_uuid(res.0),
        opt_view(res.1) == requested(opt_view(*remote), opt_view(*active)),
        final(control)@ == old(control)@.insert(res.0, false),
        final(sessions)@ == (match opt_view(res.1) {
            Some(rig) => old(sessions)@.insert(res.0, rig),
            None => old(sessions)@,
        }),
{
    let session_id: u128 = new_uuid();
    let rig = open_session(session_id, remote, active, control, sessions);
    (session_id, rig)
}

/// Closes a session: it holds no control and looks at no rig any more.
pub fn close_session(
    session_id: u128,
    control: &mut SchedulerControlManager,
    sessions: &mut SessionRigManager,
)
    requires
        old(control).wf(),
        old(sessions).wf(),
    ensures
        final(control).wf(),
        final(sessions).wf(),
        final(control)@ == old(control)@.remove(session_id),
        final(sessions)@ == old(sessions)@.remove(session_id),
{
    control.unregister_session(session_id);
    sessions.unregister(session_id);
}

/// Closing a session leaves no trace of it.
pub proof fn close_undoes_open(
    control: Map<u128, bool>,
    sessions: Map<u128, Seq<char>>,
    session_id: u128,
    rig: Seq<char>,
)
    requires
        !control.contains_key(session_id),
        !sessions.contains_key(session_id),
    ensures
        control.insert(session_id, false).remove(session_id) == control,
        sessions.insert(session_id, rig).remove(session_id) == sessions,
        sessions.remove(session_id) == sessions,
{
    assert(control.insert(session_id, false).remove(session_id) =~= control);
    assert(sessions.insert(session_id, rig).remove(session_id) =~= sessions);
    assert(sessions.remove(session_id) =~= sessions);
}

/// The rig that the events of a session are about: its own, or else the selected one.
pub fn session_rig(sessions: &SessionRigManager, session_id: u128, active: &Option<String>) -> (res:
    Option<String>)
    requires
        sessions.wf(),
    ensures
        opt_view(res) == (match sessions.rig_of(session_id) {
            Some(r) => Some(r),
            None => opt_view(*active),
        }),
{
    match sessions.get_rig(session_id) {
        Some(r) => Some(r),
        None => opt_clone(active),
    }
}

// ---------------------------------------------------------------------------------------------
// Selecting a rig
// ---------------------------------------------------------------------------------------------

/// A request to look at a rig.
#[derive(Debug)]
pub struct SelectRigQuery {
    pub remote: String,
    pub session_id: Option<String>,
}

/// Whether the client knows the rig.
pub open spec fn is_known(known: Seq<RemoteRigEntry>, rig_id: Seq<char>) -> bool {
    exists|i: int| 0 <= i < known.len() && (#[trigger] known[i]).rig_id@ == rig_id
}

fn known_rig(known: &Vec<RemoteRigEntry>, rig_id: &str) -> (res: bool)
    ensures
        res == is_known(known@, rig_id@),
{
    let mut i: usize = 0;
    while i < known.len()
        invariant
            i <= known@.len(),
            forall|j: int| 0 <= j < i ==> (#[trigger] known@[j]).rig_id@ != rig_id@,
        decreases known@.len() - i,
    {
        if str_eq(known[i].rig_id.as_str(), rig_id) {
            return true;
        }
        i = i + 1;
    }
    false
}

/// Why a rig cannot be selected, if it cannot.
pub open spec fn select_error(remote: Seq<char>, known: Seq<RemoteRigEntry>) -> Option<Seq<char>> {
    let rig = trimmed(remote);
    if rig.len() == 0 {
        Some("remote must not be empty"@)
    } else if !is_known(known, rig) {
        Some("unknown remote: "@ + rig)
    } else {
        None
    }
}

/// Selects a rig for the session of a request, given what its id was read as, and gives the rig's
/// name. Other sessions, and the rig that is selected for all, stay as they are.
pub fn select_rig_for(
    remote: &str,
    session: Option<u128>,
    known: &Vec<RemoteRigEntry>,
    sessions: &mut SessionRigManager,
) -> (res: Result<String, HttpError>)
    requires
        old(sessions).wf(),
    ensures
        final(sessions).wf(),
        match select_error(remote@, known@) {
            Some(m) => res matches Err(e) && e.status == 400 && e.text@ == m && final(sessions)@
                == old(sessions)@,
            None => res matches Ok(rig) && rig@ == trimmed(remote@) && final(sessions)@ == (
            match session {
                Some(id) => old(sessions)@.insert(id, rig@),
                None => old(sessions)@,
            }),
        },
{
    let rig = trim(remote);
    if rig.as_str().is_empty() {
        return Err(HttpError { status: 400, text: own("remote must not be empty") });
    }
    if !known_rig(known, rig.as_str()) {
        return Err(
            HttpError { status: 400, text: join2("unknown remote: ", rig.as_str()) },
        );
    }
    match session {
        Some(id) => {
            sessions.set_rig(id, rig.clone());
        },
        None => {},
    }
    Ok(rig)
}

/// Selects a rig for the session of a request. A session id that cannot be read is none.
pub fn select_rig(
    query: &SelectRigQuery,
    known: &Vec<RemoteRigEntry>,
    sessions: &mut SessionRigManager,
) -> (res: Result<String, HttpError>)
    requires
        old(sessions).wf(),
    ensures
        final(sessions).wf(),
        match select_error(query.remote@, known@) {
            Some(m) => res matches Err(e) && e.status == 400 && e.text@ == m && final(sessions)@
                == old(sessions)@,
            None => res matches Ok(rig) && rig@ == trimmed(query.remote@) && final(sessions)@ == (
            match opt_view(query.session_id) {
                Some(text) => match uuid_named(text) {
                    Some(id) => old(sessions)@.insert(id, rig@),
                    None => old(sessions)@,
                },
                None => old(sessions)@,
            }),
        },
{
    let session = match &query.session_id {
        Some(text) => parse_uuid(text.as_str()),
        None => None,
    };
    select_rig_for(query.remote.as_str(), session, known, sessions)
}

/// A request is for the rig it names, and for the active one where it names none.
pub proof fn requests_name_their_rig(remote: Seq<char>, active: Option<Seq<char>>)
    ensures
        remote.len() > 0 ==> requested(Some(remote), active) == Some(remote),
        requested(Some(Seq::empty()), active) == active,
        requested(None, active) == active,
{
}

/// A session has the rig that it was given last.
pub proof fn sessions_keep_their_rig(manager: SessionRigManager, id: u128)
    ensures
        manager.rig_of(id) is Some <==> manager.sessions@.contains_key(id),
        manager.rig_of(id) is Some ==> manager.rig_of(id)->0 == manager.sessions@[id]@,
{
}

/// A rig can be selected where the server has told of it, white space around its name aside.
pub proof fn known_rigs_can_be_selected(remote: Seq<char>, known: Seq<RemoteRigEntry>, i: int)
    ensures
        0 <= i < known.len() && known[i].rig_id@ == trimmed(remote) && trimmed(remote).len() > 0
            ==> select_error(remote, known) is None,
        select_error(remote, known) is None ==> exists|j: int|
            0 <= j < known.len() && (#[trigger] known[j]).rig_id@ == trimmed(remote),
        trimmed(remote).len() == 0 ==> select_error(remote, known) == Some(
            "remote must not be empty"@,
        ),
        trimmed(remote).len() > 0 && select_error(remote, known) is Some ==> select_error(
            remote,
            known,
        ) == Some("unknown remote: "@ + trimmed(remote)),
{
}

} // verus!
