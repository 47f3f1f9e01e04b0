//! Sessions, roles and access to the HTTP routes.
use vstd::prelude::*;
use vstd::utf8::encode_utf8_decode_utf8;

use crate::clock::{latest_moment, now_nanos};
use crate::http_reply::HttpError;
use crate::ids::{hex_text, new_token};
use crate::num::{as_signed, to_signed};
use crate::table::{key_index, lemma_entry, Table};
use crate::text::{
    contains, ends_with, ends_with_spec, found_parts_are_there, occurs_in, opt_view, own,
    parts_are_found, starts_with, starts_with_spec, str_eq,
};

verus! {

/// A session identifier: 128 random bits in hexadecimal.
pub type SessionId = String;

/// What a logged-in user may do.
#[derive(Debug, Clone, Copy, PartialEq, Eq, Structural)]
pub enum AuthRole {
    /// Read-only access.
    Rx,
    /// Full control.
    Control,
}

/// The name of a role.
pub open spec fn role_name(role: AuthRole) -> Seq<char> {
    match role {
        AuthRole::Rx => "rx"@,
        AuthRole::Control => "control"@,
    }
}

impl AuthRole {
    /// The name of the role.
    pub fn as_str(&self) -> (res: &'static str)
        ensures
            res@ == role_name(*self),
    {
        match self {
            AuthRole::Rx => "rx",
            AuthRole::Control => "control",
        }
    }
}

// ---------------------------------------------------------------------------------------------
// Sessions
// ---------------------------------------------------------------------------------------------

/// A session. Its times are moments.
#[derive(Debug, Clone, Copy, PartialEq, Eq, Structural)]
pub struct SessionRecord {
    pub role: AuthRole,
    pub issued_at: u128,
    pub expires_at: u128,
    pub last_seen: u128,
}

impl SessionRecord {
    /// Whether the session has expired at a moment.
    pub open spec fn expired_at(&self, now: u128) -> bool {
        now > self.expires_at
    }

    /// Whether the session has expired at a moment.
    pub fn is_expired_at(&self, now: u128) -> (res: bool)
        ensures
            res == self.expired_at(now),
    {
        now > self.expires_at
    }

    /// Whether the session has expired by now.
    pub fn is_expired(&self) -> (res: bool)
        ensures
            exists|now: u128| now <= latest_moment() && res == #[trigger] self.expired_at(now),
    {
        let now: u128 = now_nanos();
        self.is_expired_at(now)
    }

    /// Notes that the session was used at a moment.
    pub fn seen_at(&mut self, now: u128)
        ensures
            *final(self) == (SessionRecord { last_seen: now, ..*old(self) }),
    {
        self.last_seen = now;
    }

    /// Notes that the session was used now.
    pub fn update_last_seen(&mut self)
        ensures
            *final(self) == (SessionRecord { last_seen: final(self).last_seen, ..*old(self) }),
            final(self).last_seen <= latest_moment(),
    {
        let now: u128 = now_nanos();
        self.seen_at(now);
    }
}

/// The sessions, by identifier.
#[derive(Debug)]
pub struct SessionStore {
    pub sessions: Table<SessionRecord>,
}

impl View for SessionStore {
    type V = Map<Seq<char>, SessionRecord>;

    open spec fn view(&self) -> Map<Seq<char>, SessionRecord> {
        self.sessions@
    }
}

/// The record of a session that starts at a moment and lasts so many seconds.
pub open spec fn new_record(role: AuthRole, ttl_secs: u64, now: u128) -> SessionRecord {
    SessionRecord {
        role,
        issued_at: now,
        expires_at: (now + ttl_secs * 1_000_000_000) as u128,
        last_seen: now,
    }
}

/// The sessions after one has been asked for: it is noted as used, or it goes where it has expired.
pub open spec fn after_get(
    sessions: Map<Seq<char>, SessionRecord>,
    id: Seq<char>,
    now: u128,
) -> Map<Seq<char>, SessionRecord> {
    if !sessions.contains_key(id) {
        sessions
    } else if sessions[id].expired_at(now) {
        sessions.remove(id)
    } else {
        sessions.insert(id, SessionRecord { last_seen: now, ..sessions[id] })
    }
}

/// The session that is found at a moment: a known one that has not expired, noted as used.
pub open spec fn found(
    sessions: Map<Seq<char>, SessionRecord>,
    id: Seq<char>,
    now: u128,
) -> Option<SessionRecord> {
    if sessions.contains_key(id) && !sessions[id].expired_at(now) {
        Some(SessionRecord { last_seen: now, ..sessions[id] })
    } else {
        None
    }
}

/// The sessions that have not expired at a moment.
pub open spec fn unexpired(sessions: Map<Seq<char>, SessionRecord>, now: u128) -> Map<
    Seq<char>,
    SessionRecord,
> {
    Map::new(
        |k: Seq<char>| sessions.contains_key(k) && !sessions[k].expired_at(now),
        |k: Seq<char>| sessions[k],
    )
}

impl SessionStore {
    /// The table is well formed.
    pub open spec fn wf(&self) -> bool {
        self.sessions.wf()
    }

    /// No session.
    pub fn new() -> (res: Self)
        ensures
            res.wf(),
            res@ == Map::<Seq<char>, SessionRecord>::empty(),
    {
        SessionStore { sessions: Table::new() }
    }

    /// Starts a session under the given identifier at a moment.
    pub fn create_at(&mut self, role: AuthRole, ttl_secs: u64, now: u128, session_id: &str)
        requires
            old(self).wf(),
            now + ttl_secs * 1_000_000_000 <= u128::MAX,
        ensures
            final(self).wf(),
            final(self)@ == old(self)@.insert(session_id@, new_record(role, ttl_secs, now)),
    {
        let record = SessionRecord {
            role,
            issued_at: now,
            expires_at: now + ttl_secs as u128 * 1_000_000_000,
            last_seen: now,
        };
        self.sessions.insert(session_id, record);
    }

    /// Starts a session with a role that lasts so many seconds, under a fresh random identifier.
    pub fn create(&mut self, role: AuthRole, ttl_secs: u64) -> (res: SessionId)
        requires
            old(self).wf(),
        ensures
            final(self).wf(),
            exists|bytes: [u8; 16]| res@ == #[trigger] hex_text(bytes@),
            exists|now: u128|
                now <= latest_moment() && final(self)@ == old(self)@.insert(
                    res@,
                    #[trigger] new_record(role, ttl_secs, now),
                ),
    {
        let now: u128 = now_nanos();
        let session_id = Self::generate_session_id();
        self.create_at(role, ttl_secs, now, session_id.as_str());
        session_id
    }

    /// Finds a session at a moment, unless it has expired, and notes that it was used.
    pub fn get_at(&mut self, session_id: &str, now: u128) -> (res: Option<SessionRecord>)
        requires
            old(self).wf(),
        ensures
            final(self).wf(),
            res == found(old(self)@, session_id@, now),
            final(self)@ == after_get(old(self)@, session_id@, now),
    {
        let ghost before = self@;
        let record = match self.sessions.get(session_id) {
            Some(r) => *r,
            None => {
                return None;
            },
        };
        if record.is_expired_at(now) {
            let _ = self.sessions.remove(session_id);
            return None;
        }
        let mut seen = record;
        seen.seen_at(now);
        self.sessions.insert(session_id, seen);
        Some(seen)
    }

    /// Finds a session, unless it has expired, and notes that it was used.
    pub fn get(&mut self, session_id: &str) -> (res: Option<SessionRecord>)
        requires
            old(self).wf(),
        ensures
            final(self).wf(),
            exists|now: u128|
                now <= latest_moment() && res == found(old(self)@, session_id@, now)
                    && final(self)@ == #[trigger] after_get(old(self)@, session_id@, now),
    {
        let now: u128 = now_nanos();
        self.get_at(session_id, now)
    }

    /// Ends a session.
    pub fn remove(&mut self, session_id: &str)
        requires
            old(self).wf(),
        ensures
            final(self).wf(),
            final(self)@ == old(self)@.remove(session_id@),
    {
        let _ = self.sessions.remove(session_id);
    }

    /// Drops the sessions that have expired at a moment.
    pub fn cleanup_expired_at(&mut self, now: u128)
        requires
            old(self).wf(),
        ensures
            final(self).wf(),
            final(self)@ == unexpired(old(self)@, now),
    {
        let ghost entries = self.sessions.entries@;
        let mut stay: Table<SessionRecord> = Table::new();
        let mut i: usize = 0;
        while i < self.sessions.entries.len()
            invariant
                i <= entries.len(),
                *self == *old(self),
                self.wf(),
                entries == self.sessions.entries@,
                stay.wf(),
                forall|k: Seq<char>| #[trigger]
                    stay@.contains_key(k) <==> (exists|j: int|
                        0 <= j < i && (#[trigger] entries[j]).0@ == k && !entries[j].1.expired_at(
                            now,
                        )),
                forall|k: Seq<char>|
                    stay@.contains_key(k) ==> self@.contains_key(k) && #[trigger] stay@[k]
                        == self@[k],
            decreases entries.len() - i,
        {
            let ghost before = stay@;
            proof {
                lemma_entry(entries, i as int);
            }
            let record = self.sessions.entries[i].1;
            if !record.is_expired_at(now) {
                stay.insert(self.sessions.entries[i].0.as_str(), record);
            }
            assert forall|k: Seq<char>| #[trigger] stay@.contains_key(k) <==> (exists|j: int|
                0 <= j < i + 1 && (#[trigger] entries[j]).0@ == k && !entries[j].1.expired_at(
                    now,
                )) by {
                assert(before.contains_key(k) <==> (exists|j: int|
                    0 <= j < i && (#[trigger] entries[j]).0@ == k && !entries[j].1.expired_at(
                        now,
                    )));
                assert(entries[i as int].0@ == entries[i as int].0@);
            }
            i = i + 1;
        }
        proof {
            assert forall|k: Seq<char>| stay@.contains_key(k) == unexpired(self@, now).contains_key(
                k,
            ) by {
                if unexpired(self@, now).contains_key(k) {
                    let j = key_index(entries, k);
                    lemma_entry(entries, j);
                    assert(entries[j].0@ == k);
                }
                if stay@.contains_key(k) {
                    let j = choose|j: int|
                        0 <= j < entries.len() && (#[trigger] entries[j]).0@ == k
                            && !entries[j].1.expired_at(now);
                    lemma_entry(entries, j);
                }
            }
            assert(stay@ =~= unexpired(self@, now));
        }
        self.sessions = stay;
    }

    /// Drops the sessions that have expired.
    pub fn cleanup_expired(&mut self)
        requires
            old(self).wf(),
        ensures
            final(self).wf(),
            exists|now: u128|
                now <= latest_moment() && final(self)@ == #[trigger] unexpired(old(self)@, now),
    {
        let now: u128 = now_nanos();
        self.cleanup_expired_at(now);
    }

    /// A fresh random session identifier.
    pub fn generate_session_id() -> (res: SessionId)
        ensures
            exists|bytes: [u8; 16]| res@ == #[trigger] hex_text(bytes@),
            res@.len() == 32,
    {
        new_token()
    }
}

/// A session is found from its start until it expires, with its role.
pub proof fn created_session_is_found(
    sessions: Map<Seq<char>, SessionRecord>,
    id: Seq<char>,
    role: AuthRole,
    ttl_secs: u64,
    start: u128,
    now: u128,
)
    requires
        start + ttl_secs * 1_000_000_000 <= u128::MAX,
        now <= start + ttl_secs * 1_000_000_000,
    ensures
        found(sessions.insert(id, new_record(role, ttl_secs, start)), id, now) is Some,
        found(sessions.insert(id, new_record(role, ttl_secs, start)), id, now)->0.role == role,
{
}

/// A session is not found once it has expired, nor, after having been asked for then, at any moment.
pub proof fn expired_session_is_gone(
    sessions: Map<Seq<char>, SessionRecord>,
    id: Seq<char>,
    now: u128,
    later: u128,
)
    requires
        sessions.contains_key(id) ==> now > sessions[id].expires_at,
    ensures
        found(sessions, id, now) is None,
        found(after_get(sessions, id, now), id, later) is None,
{
}

/// A removed session is not found.
pub proof fn removed_session_is_gone(
    sessions: Map<Seq<char>, SessionRecord>,
    id: Seq<char>,
    now: u128,
)
    ensures
        found(sessions.remove(id), id, now) is None,
{
}

/// Dropping expired sessions takes none that can be found at that moment or later.
pub proof fn cleanup_drops_nothing_alive(
    sessions: Map<Seq<char>, SessionRecord>,
    id: Seq<char>,
    now: u128,
    later: u128,
)
    requires
        now <= later,
    ensures
        found(unexpired(sessions, now), id, later) == found(sessions, id, later),
{
}

// ---------------------------------------------------------------------------------------------
// Configuration
// ---------------------------------------------------------------------------------------------

/// The `SameSite` attribute of the session cookie.
#[derive(Debug, Clone, Copy, PartialEq, Eq, Structural)]
pub enum SameSite {
    Strict,
    Lax,
    Unrestricted,
}

/// The name of an attribute value.
pub open spec fn same_site_name(s: SameSite) -> Seq<char> {
    match s {
        SameSite::Strict => "Strict"@,
        SameSite::Lax => "Lax"@,
        SameSite::Unrestricted => "None"@,
    }
}

impl SameSite {
    /// The name of the attribute value.
    pub fn as_str(&self) -> (res: &'static str)
        ensures
            res@ == same_site_name(*self),
    {
        match self {
            SameSite::Strict => "Strict",
            SameSite::Lax => "Lax",
            SameSite::Unrestricted => "None",
        }
    }

    /// The attribute value that a name stands for: `Strict` and `None` are those, anything else is
    /// `Lax`.
    pub fn from_name(name: &str) -> (res: Self)
        ensures
            res == (if name@ == "Strict"@ {
                SameSite::Strict
            } else if name@ == "None"@ {
                SameSite::Unrestricted
            } else {
                SameSite::Lax
            }),
    {
        if str_eq(name, "Strict") {
            SameSite::Strict
        } else if str_eq(name, "None") {
            SameSite::Unrestricted
        } else {
            SameSite::Lax
        }
    }
}

impl Default for SameSite {
    fn default() -> (res: Self)
        ensures
            res == SameSite::Lax,
    {
        SameSite::Lax
    }
}

/// How users log in.
#[derive(Debug)]
pub struct AuthConfig {
    pub enabled: bool,
    pub rx_passphrase: Option<String>,
    pub control_passphrase: Option<String>,
    pub tx_access_control_enabled: bool,
    /// How long a session lasts, in seconds.
    pub session_ttl: u64,
    pub cookie_secure: bool,
    pub cookie_same_site: SameSite,
}

/// The role that a passphrase gives: that of the control passphrase comes first.
pub open spec fn role_of(
    rx: Option<Seq<char>>,
    control: Option<Seq<char>>,
    passphrase: Seq<char>,
) -> Option<AuthRole> {
    if control == Some(passphrase) {
        Some(AuthRole::Control)
    } else if rx == Some(passphrase) {
        Some(AuthRole::Rx)
    } else {
        None
    }
}

impl AuthConfig {
    /// A configuration with all fields.
    pub fn new(
        enabled: bool,
        rx_passphrase: Option<String>,
        control_passphrase: Option<String>,
        tx_access_control_enabled: bool,
        session_ttl: u64,
        cookie_secure: bool,
        cookie_same_site: SameSite,
    ) -> (res: Self)
        ensures
            res == (AuthConfig {
                enabled,
                rx_passphrase,
                control_passphrase,
                tx_access_control_enabled,
                session_ttl,
                cookie_secure,
                cookie_same_site,
            }),
    {
        AuthConfig {
            enabled,
            rx_passphrase,
            control_passphrase,
            tx_access_control_enabled,
            session_ttl,
            cookie_secure,
            cookie_same_site,
        }
    }

    /// The role that the passphrase gives.
    pub fn check_passphrase(&self, passphrase: &str) -> (res: Option<AuthRole>)
        ensures
            res == role_of(
                opt_view(self.rx_passphrase),
                opt_view(self.control_passphrase),
                passphrase@,
            ),
    {
        match &self.control_passphrase {
            Some(control) => {
                if constant_time_eq(passphrase, control.as_str()) {
                    return Some(AuthRole::Control);
                }
            },
            None => {},
        }
        match &self.rx_passphrase {
            Some(rx) => {
                if constant_time_eq(passphrase, rx.as_str()) {
                    return Some(AuthRole::Rx);
                }
            },
            None => {},
        }
        None
    }
}

/// Whether two texts are equal, found out in a time that depends on their lengths only.
pub fn constant_time_eq(a: &str, b: &str) -> (res: bool)
    ensures
        res == (a@ == b@),
{
    let x = a.as_bytes();
    let y = b.as_bytes();
    proof {
        encode_utf8_decode_utf8(a@);
        encode_utf8_decode_utf8(b@);
    }
    if x.len() != y.len() {
        return false;
    }
    let mut result: u8 = 0;
    let mut i: usize = 0;
    while i < x.len()
        invariant
            i <= x@.len(),
            x@.len() == y@.len(),
            result == 0 <==> (forall|j: int| 0 <= j < i ==> x@[j] == y@[j]),
        decreases x@.len() - i,
    {
        let (p, q) = (x[i], y[i]);
        assert((result | (p ^ q)) == 0 <==> result == 0 && p == q) by (bit_vector);
        result = result | (p ^ q);
        i = i + 1;
    }
    proof {
        if result == 0 {
            assert(x@ =~= y@);
        }
    }
    result == 0
}

/// A login request.
#[derive(Debug)]
pub struct LoginRequest {
    pub passphrase: String,
}

/// Whether a user is logged in, and with which role.
#[derive(Debug, PartialEq, Eq)]
pub struct SessionStatus {
    pub authenticated: bool,
    pub role: Option<String>,
}

/// The answer to a login.
#[derive(Debug, PartialEq, Eq)]
pub struct LoginResponse {
    pub authenticated: bool,
    pub role: String,
}

/// The name of the session cookie.
pub const SESSION_COOKIE: &'static str = "trx_http_sid";

/// The session cookie that a response sets.
#[derive(Debug)]
pub struct SessionCookie {
    pub name: String,
    pub value: String,
    pub path: String,
    pub http_only: bool,
    pub secure: bool,
    pub same_site: Option<SameSite>,
    pub max_age_secs: i64,
}

/// The cookie that carries a new session.
pub fn login_cookie(config: &AuthConfig, session_id: &str) -> (res: SessionCookie)
    ensures
        res.name@ == SESSION_COOKIE@,
        res.value@ == session_id@,
        res.path@ == "/"@,
        res.http_only,
        res.secure == config.cookie_secure,
        res.same_site == Some(config.cookie_same_site),
        res.max_age_secs == as_signed(config.session_ttl),
{
    SessionCookie {
        name: own(SESSION_COOKIE),
        value: own(session_id),
        path: own("/"),
        http_only: true,
        secure: config.cookie_secure,
        same_site: Some(config.cookie_same_site),
        max_age_secs: to_signed(config.session_ttl),
    }
}

/// The cookie that makes a browser forget the session.
pub fn logout_cookie() -> (res: SessionCookie)
    ensures
        res.name@ == SESSION_COOKIE@,
        res.value@.len() == 0,
        res.path@ == "/"@,
        res.http_only,
        !res.secure,
        res.same_site is None,
        res.max_age_secs == 0,
{
    SessionCookie {
        name: own(SESSION_COOKIE),
        value: String::new(),
        path: own("/"),
        http_only: true,
        secure: false,
        same_site: None,
        max_age_secs: 0,
    }
}

/// The configuration and the sessions.
#[derive(Debug)]
pub struct AuthState {
    pub config: AuthConfig,
    pub store: SessionStore,
}

/// What comes of a login.
#[derive(Debug)]
pub enum LoginOutcome {
    /// Logging in is not enabled.
    Disabled,
    /// The passphrase gives no role.
    Denied,
    /// A session was started.
    Granted { session_id: SessionId, response: LoginResponse },
}

impl LoginOutcome {
    /// The status code of the answer.
    pub fn status_code(&self) -> (res: u16)
        ensures
            res == (match self {
                LoginOutcome::Disabled => 404u16,
                LoginOutcome::Denied => 401u16,
                LoginOutcome::Granted { .. } => 200u16,
            }),
    {
        match self {
            LoginOutcome::Disabled => 404,
            LoginOutcome::Denied => 401,
            LoginOutcome::Granted { .. } => 200,
        }
    }
}

impl AuthState {
    /// The sessions are well formed.
    pub open spec fn wf(&self) -> bool {
        self.store.wf()
    }

    /// The role that a passphrase gives.
    pub open spec fn role_for(&self, passphrase: Seq<char>) -> Option<AuthRole> {
        role_of(
            opt_view(self.config.rx_passphrase),
            opt_view(self.config.control_passphrase),
            passphrase,
        )
    }

    /// The role of a session at a moment.
    pub open spec fn session_role(&self, session: Option<Seq<char>>, now: u128) -> Option<AuthRole> {
        match session {
            Some(id) => match found(self.store@, id, now) {
                Some(r) => Some(r.role),
                None => None,
            },
            None => None,
        }
    }

    /// The sessions after one has been asked for.
    pub open spec fn sessions_after(&self, session: Option<Seq<char>>, now: u128) -> Map<
        Seq<char>,
        SessionRecord,
    > {
        match session {
            Some(id) => after_get(self.store@, id, now),
            None => self.store@,
        }
    }

    /// A configuration with no session yet.
    pub fn new(config: AuthConfig) -> (res: Self)
        ensures
            res.wf(),
            res.config == config,
            res.store@ == Map::<Seq<char>, SessionRecord>::empty(),
    {
        AuthState { config, store: SessionStore::new() }
    }

    /// The role of the session at a moment, which is noted as used.
    pub fn get_session_role_at(&mut self, session: &Option<String>, now: u128) -> (res: Option<AuthRole>)
        requires
            old(self).wf(),
        ensures
            final(self).wf(),
            final(self).config == old(self).config,
            res == old(self).session_role(opt_view(*session), now),
            final(self).store@ == old(self).sessions_after(opt_view(*session), now),
    {
        match session {
            Some(id) => match self.store.get_at(id.as_str(), now) {
                Some(r) => Some(r.role),
                None => None,
            },
            None => None,
        }
    }

    /// Logs in at a moment, with the given identifier for a new session.
    pub fn login_at(&mut self, request: &LoginRequest, now: u128, session_id: SessionId) -> (res:
        LoginOutcome)
        requires
            old(self).wf(),
            now <= latest_moment(),
        ensures
            final(self).wf(),
            final(self).config == old(self).config,
            res is Disabled <==> !old(self).config.enabled,
            res is Denied <==> old(self).config.enabled && old(self).role_for(request.passphrase@) is None,
            res !is Granted ==> final(self).store == old(self).store,
            res matches LoginOutcome::Granted { session_id: id, response } ==> {
                let role = old(self).role_for(request.passphrase@)->0;
                &&& id == session_id
                &&& response.authenticated
                &&& response.role@ == role_name(role)
                &&& final(self).store@ == old(self).store@.insert(
                    session_id@,
                    new_record(role, old(self).config.session_ttl, now),
                )
            },
    {
        if !self.config.enabled {
            return LoginOutcome::Disabled;
        }
        match self.config.check_passphrase(request.passphrase.as_str()) {
            None => LoginOutcome::Denied,
            Some(role) => {
                self.store.create_at(role, self.config.session_ttl, now, session_id.as_str());
                LoginOutcome::Granted {
                    session_id,
                    response: LoginResponse { authenticated: true, role: own(role.as_str()) },
                }
            },
        }
    }

    /// Logs in: a right passphrase starts a session under a fresh identifier.
    pub fn login(&mut self, request: &LoginRequest) -> (res: LoginOutcome)
        requires
            old(self).wf(),
        ensures
            final(self).wf(),
            final(self).config == old(self).config,
            res is Disabled <==> !old(self).config.enabled,
            res is Denied <==> old(self).config.enabled && old(self).role_for(request.passphrase@) is None,
            res !is Granted ==> final(self).store == old(self).store,
            res matches LoginOutcome::Granted { session_id, response } ==> {
                let role = old(self).role_for(request.passphrase@)->0;
                &&& response.authenticated
                &&& response.role@ == role_name(role)
                &&& exists|bytes: [u8; 16]| session_id@ == #[trigger] hex_text(bytes@)
                &&& exists|now: u128|
                    now <= latest_moment() && final(self).store@ == old(self).store@.insert(
                        session_id@,
                        #[trigger] new_record(role, old(self).config.session_ttl, now),
                    )
            },
    {
        let now: u128 = now_nanos();
        let session_id = SessionStore::generate_session_id();
        self.login_at(request, now, session_id)
    }

    /// Logs out: ends the session. False, and nothing done, where logging in is not enabled.
    pub fn logout(&mut self, session: &Option<String>) -> (res: bool)
        requires
            old(self).wf(),
        ensures
            final(self).wf(),
            final(self).config == old(self).config,
            res == old(self).config.enabled,
            final(self).store@ == (match opt_view(*session) {
                Some(id) => if old(self).config.enabled {
                    old(self).store@.remove(id)
                } else {
                    old(self).store@
                },
                None => old(self).store@,
            }),
    {
        if !self.config.enabled {
            return false;
        }
        match session {
            Some(id) => self.store.remove(id.as_str()),
            None => {},
        }
        true
    }

    /// Whether the user is logged in at a moment, and with which role. Everyone has control where
    /// logging in is not enabled.
    pub fn session_status_at(&mut self, session: &Option<String>, now: u128) -> (res: SessionStatus)
        requires
            old(self).wf(),
        ensures
            final(self).wf(),
            final(self).config == old(self).config,
            !old(self).config.enabled ==> res.authenticated && opt_view(res.role) == Some(
                "control"@,
            ) && final(self).store == old(self).store,
            old(self).config.enabled ==> {
                let role = old(self).session_role(opt_view(*session), now);
                &&& res.authenticated == role is Some
                &&& opt_view(res.role) == (match role {
                    Some(r) => Some(role_name(r)),
                    None => None,
                })
                &&& final(self).store@ == old(self).sessions_after(opt_view(*session), now)
            },
    {
        if !self.config.enabled {
            return SessionStatus { authenticated: true, role: Some(own("control")) };
        }
        match self.get_session_role_at(session, now) {
            Some(r) => SessionStatus { authenticated: true, role: Some(own(r.as_str())) },
            None => SessionStatus { authenticated: false, role: None },
        }
    }

    /// Whether a request for a path may go on at a moment, or how it is refused. Public routes are
    /// open to everyone, and all routes are where logging in is not enabled.
    pub fn admits_at(&mut self, path: &str, session: &Option<String>, now: u128) -> (res: Result<
        (),
        HttpError,
    >)
        requires
            old(self).wf(),
        ensures
            final(self).wf(),
            final(self).config == old(self).config,
            res is Ok <==> access_of(path@) == RouteAccess::Public || !old(self).config.enabled
                || allowed(
                access_of(path@),
                old(self).session_role(opt_view(*session), now),
            ),
            res matches Err(e) ==> e.status == 401 && e.text@ == "Unauthorized"@,
            final(self).store@ == (if access_of(path@) == RouteAccess::Public || !old(self).config.enabled {
                old(self).store@
            } else {
                old(self).sessions_after(opt_view(*session), now)
            }),
    {
        let access = RouteAccess::from_path(path);
        if access == RouteAccess::Public || !self.config.enabled {
            return Ok(());
        }
        let role = self.get_session_role_at(session, now);
        if access.allows(role) {
            Ok(())
        } else {
            Err(HttpError { status: 401, text: own("Unauthorized") })
        }
    }

    /// Whether a request that changes something may go on at a moment, or how it is refused: logging
    /// in is not enabled, or the session has control.
    pub fn require_control_at(&mut self, session: &Option<String>, now: u128) -> (res: Result<
        (),
        HttpError,
    >)
        requires
            old(self).wf(),
        ensures
            final(self).wf(),
            final(self).config == old(self).config,
            res is Ok <==> !old(self).config.enabled || old(self).session_role(
                opt_view(*session),
                now,
            ) == Some(AuthRole::Control),
            res matches Err(e) ==> e.status == 403 && e.text@ == "control role required"@,
            final(self).store@ == (if old(self).config.enabled {
                old(self).sessions_after(opt_view(*session), now)
            } else {
                old(self).store@
            }),
    {
        if !self.config.enabled {
            return Ok(());
        }
        match self.get_session_role_at(session, now) {
            Some(AuthRole::Control) => Ok(()),
            _ => Err(HttpError { status: 403, text: own("control role required") }),
        }
    }
}

// ---------------------------------------------------------------------------------------------
// Routes
// ---------------------------------------------------------------------------------------------

/// Who may use a route.
#[derive(Debug, Clone, Copy, PartialEq, Eq, Structural)]
pub enum RouteAccess {
    /// Everyone.
    Public,
    /// Everyone who is logged in.
    Read,
    /// Only those with control.
    Control,
}

/// Whether a path is a page or file that everyone may load.
pub open spec fn is_public(path: Seq<char>) -> bool {
    ||| path == "/"@
    ||| path == "/index.html"@
    ||| starts_with_spec(path, "/auth/"@)
    ||| starts_with_spec(path, "/style.css"@)
    ||| starts_with_spec(path, "/app.js"@)
    ||| ends_with_spec(path, ".js"@)
    ||| ends_with_spec(path, ".css"@)
    ||| ends_with_spec(path, ".png"@)
    ||| ends_with_spec(path, ".jpg"@)
    ||| ends_with_spec(path, ".gif"@)
    ||| ends_with_spec(path, ".svg"@)
    ||| ends_with_spec(path, ".favicon"@)
    ||| ends_with_spec(path, ".ico"@)
}

/// Whether a path only reads.
pub open spec fn is_read_only(path: Seq<char>) -> bool {
    ||| path == "/status"@
    ||| path == "/events"@
    ||| path == "/decode"@
    ||| path == "/audio"@
    ||| starts_with_spec(path, "/status?"@)
    ||| starts_with_spec(path, "/events?"@)
    ||| starts_with_spec(path, "/decode?"@)
    ||| starts_with_spec(path, "/audio?"@)
}

/// Who may use a path.
pub open spec fn access_of(path: Seq<char>) -> RouteAccess {
    if is_public(path) {
        RouteAccess::Public
    } else if is_read_only(path) {
        RouteAccess::Read
    } else {
        RouteAccess::Control
    }
}

/// Whether a role may use a route.
pub open spec fn allowed(access: RouteAccess, role: Option<AuthRole>) -> bool {
    match access {
        RouteAccess::Public => true,
        RouteAccess::Read => role is Some,
        RouteAccess::Control => role == Some(AuthRole::Control),
    }
}

impl RouteAccess {
    /// Who may use the path.
    pub fn from_path(path: &str) -> (res: Self)
        ensures
            res == access_of(path@),
    {
        if str_eq(path, "/") || str_eq(path, "/index.html") || starts_with(path, "/auth/") {
            return RouteAccess::Public;
        }
        if starts_with(path, "/style.css") || starts_with(path, "/app.js") || ends_with(path, ".js")
            || ends_with(path, ".css") || ends_with(path, ".png") || ends_with(path, ".jpg")
            || ends_with(path, ".gif") || ends_with(path, ".svg") || ends_with(path, ".favicon")
            || ends_with(path, ".ico") {
            return RouteAccess::Public;
        }
        if str_eq(path, "/status") || str_eq(path, "/events") || str_eq(path, "/decode") || str_eq(
            path,
            "/audio",
        ) || starts_with(path, "/status?") || starts_with(path, "/events?") || starts_with(
            path,
            "/decode?",
        ) || starts_with(path, "/audio?") {
            return RouteAccess::Read;
        }
        RouteAccess::Control
    }

    /// Whether the role may use the route.
    pub fn allows(&self, role: Option<AuthRole>) -> (res: bool)
        ensures
            res == allowed(*self, role),
    {
        match self {
            RouteAccess::Public => true,
            RouteAccess::Read => role.is_some(),
            RouteAccess::Control => match role {
                Some(AuthRole::Control) => true,
                _ => false,
            },
        }
    }
}

/// What a role may do, control may do too; and what no one need log in for, everyone may do.
pub proof fn control_may_do_everything(access: RouteAccess, role: Option<AuthRole>)
    ensures
        allowed(access, role) ==> allowed(access, Some(AuthRole::Control)),
        allowed(access, None) ==> allowed(access, role),
        allowed(access, Some(AuthRole::Control)),
{
}

/// Without a right passphrase no login is granted, and without a session no protected route is
/// admitted, where logging in is enabled.
pub proof fn no_access_without_login(state: AuthState, path: Seq<char>, now: u128)
    requires
        state.config.enabled,
        access_of(path) != RouteAccess::Public,
    ensures
        !allowed(access_of(path), state.session_role(None, now)),
{
}

/// Whether a path transmits or switches transmission.
pub fn is_tx_endpoint(path: &str) -> (res: bool)
    ensures
        res == (occurs_in(path@, "ptt"@) || occurs_in(path@, "set_ptt"@) || occurs_in(
            path@,
            "toggle_ptt"@,
        ) || occurs_in(path@, "set_tx"@) || occurs_in(path@, "toggle_tx"@)),
{
    contains(path, "ptt") || contains(path, "set_ptt") || contains(path, "toggle_ptt") || contains(
        path,
        "set_tx",
    ) || contains(path, "toggle_tx")
}

// ---------------------------------------------------------------------------------------------
// What access comes to
// ---------------------------------------------------------------------------------------------

/// A session lasts to the end of its time and no longer, whatever happens in between, and looking it
/// up moves nothing but the moment it was last seen.
pub proof fn sessions_last_their_time(
    sessions: Map<Seq<char>, SessionRecord>,
    id: Seq<char>,
    other: Seq<char>,
    now: u128,
)
    ensures
        found(sessions, id, now) is Some <==> sessions.contains_key(id) && now
            <= sessions[id].expires_at,
        found(sessions, id, now) matches Some(r) ==> {
            &&& r.role == sessions[id].role
            &&& r.issued_at == sessions[id].issued_at
            &&& r.expires_at == sessions[id].expires_at
            &&& r.last_seen == now
            &&& after_get(sessions, id, now).contains_key(id)
            &&& after_get(sessions, id, now)[id] == r
        },
        found(sessions, id, now) is None ==> !after_get(sessions, id, now).contains_key(id),
        other != id ==> (after_get(sessions, id, now).contains_key(other) <==> sessions.contains_key(
            other,
        )),
        other != id && sessions.contains_key(other) ==> after_get(sessions, id, now)[other]
            == sessions[other],
        unexpired(sessions, now).contains_key(id) <==> sessions.contains_key(id) && now
            <= sessions[id].expires_at,
        unexpired(sessions, now).contains_key(id) ==> unexpired(sessions, now)[id] == sessions[id],
{
}

/// A new session is issued and seen at the moment it is made, and ends when its seconds have passed.
pub proof fn new_sessions_in_full(role: AuthRole, ttl_secs: u64, now: u128)
    requires
        now + ttl_secs * 1_000_000_000 <= u128::MAX,
    ensures
        ({
            let r = new_record(role, ttl_secs, now);
            &&& r.role == role
            &&& r.issued_at == now
            &&& r.last_seen == now
            &&& r.expires_at - now == ttl_secs * 1_000_000_000
        }),
{
}

/// A passphrase gives the role it was set for, control before reception where it was set for both,
/// and one that was not set gives none.
pub proof fn passphrases_give_their_roles(
    rx: Option<Seq<char>>,
    control: Option<Seq<char>>,
    passphrase: Seq<char>,
)
    ensures
        role_of(rx, control, passphrase) == Some(AuthRole::Control) <==> control == Some(passphrase),
        role_of(rx, control, passphrase) == Some(AuthRole::Rx) <==> rx == Some(passphrase) && control
            != Some(passphrase),
        role_of(rx, control, passphrase) is None <==> rx != Some(passphrase) && control != Some(
            passphrase,
        ),
        role_of(None, None, passphrase) is None,
{
}

/// A request has the role of the session it names, while that lasts, and without one it has none.
pub proof fn requests_have_the_role_of_their_session(
    state: AuthState,
    id: Seq<char>,
    passphrase: Seq<char>,
    now: u128,
)
    ensures
        state.session_role(None, now) is None,
        state.sessions_after(None, now) == state.store@,
        state.session_role(Some(id), now) is Some <==> state.store@.contains_key(id) && now
            <= state.store@[id].expires_at,
        state.session_role(Some(id), now) is Some ==> state.session_role(Some(id), now)->0
            == state.store@[id].role,
        state.sessions_after(Some(id), now) == after_get(state.store@, id, now),
        state.role_for(passphrase) == Some(AuthRole::Control) <==> state.config.control_passphrase
            is Some && state.config.control_passphrase->0@ == passphrase,
        state.role_for(passphrase) is Some <==> (state.config.control_passphrase is Some
            && state.config.control_passphrase->0@ == passphrase) || (state.config.rx_passphrase
            is Some && state.config.rx_passphrase->0@ == passphrase),
{
}

/// The pages that need no login are the start page, the login itself and what a page is made of.
pub proof fn pages_that_need_no_login(path: Seq<char>, rest: Seq<char>)
    ensures
        access_of("/"@) == RouteAccess::Public,
        access_of("/index.html"@) == RouteAccess::Public,
        access_of("/auth/"@ + rest) == RouteAccess::Public,
        access_of("/style.css"@ + rest) == RouteAccess::Public,
        access_of("/app.js"@ + rest) == RouteAccess::Public,
        access_of(rest + ".js"@) == RouteAccess::Public,
        access_of(rest + ".css"@) == RouteAccess::Public,
        access_of(rest + ".png"@) == RouteAccess::Public,
        access_of(rest + ".jpg"@) == RouteAccess::Public,
        access_of(rest + ".gif"@) == RouteAccess::Public,
        access_of(rest + ".svg"@) == RouteAccess::Public,
        access_of(rest + ".favicon"@) == RouteAccess::Public,
        access_of(rest + ".ico"@) == RouteAccess::Public,
        access_of(path) == RouteAccess::Public && path != "/"@ && path != "/index.html"@ ==> {
            ||| exists|a: Seq<char>| path == #[trigger] ("/auth/"@ + a)
            ||| exists|a: Seq<char>| path == #[trigger] ("/style.css"@ + a)
            ||| exists|a: Seq<char>| path == #[trigger] ("/app.js"@ + a)
            ||| exists|a: Seq<char>| path == #[trigger] (a + ".js"@)
            ||| exists|a: Seq<char>| path == #[trigger] (a + ".css"@)
            ||| exists|a: Seq<char>| path == #[trigger] (a + ".png"@)
            ||| exists|a: Seq<char>| path == #[trigger] (a + ".jpg"@)
            ||| exists|a: Seq<char>| path == #[trigger] (a + ".gif"@)
            ||| exists|a: Seq<char>| path == #[trigger] (a + ".svg"@)
            ||| exists|a: Seq<char>| path == #[trigger] (a + ".favicon"@)
            ||| exists|a: Seq<char>| path == #[trigger] (a + ".ico"@)
        },
{
    let none = Seq::<char>::empty();
    parts_are_found(none, "/auth/"@, rest);
    parts_are_found(none, "/style.css"@, rest);
    parts_are_found(none, "/app.js"@, rest);
    parts_are_found(rest, ".js"@, none);
    parts_are_found(rest, ".css"@, none);
    parts_are_found(rest, ".png"@, none);
    parts_are_found(rest, ".jpg"@, none);
    parts_are_found(rest, ".gif"@, none);
    parts_are_found(rest, ".svg"@, none);
    parts_are_found(rest, ".favicon"@, none);
    parts_are_found(rest, ".ico"@, none);
    found_parts_are_there(path, "/auth/"@);
    found_parts_are_there(path, "/style.css"@);
    found_parts_are_there(path, "/app.js"@);
    found_parts_are_there(path, ".js"@);
    found_parts_are_there(path, ".css"@);
    found_parts_are_there(path, ".png"@);
    found_parts_are_there(path, ".jpg"@);
    found_parts_are_there(path, ".gif"@);
    found_parts_are_there(path, ".svg"@);
    found_parts_are_there(path, ".favicon"@);
    found_parts_are_there(path, ".ico"@);
}

/// Of the pages that need a login, those that only show something are open to every role: the status,
/// the events, the decoded messages and the sound, with or without a query. All others need control.
pub proof fn pages_that_every_role_may_see(path: Seq<char>)
    requires
        access_of(path) != RouteAccess::Public,
    ensures
        access_of(path) == RouteAccess::Read <==> {
            ||| path == "/status"@
            ||| path == "/events"@
            ||| path == "/decode"@
            ||| path == "/audio"@
            ||| exists|q: Seq<char>| path == #[trigger] ("/status?"@ + q)
            ||| exists|q: Seq<char>| path == #[trigger] ("/events?"@ + q)
            ||| exists|q: Seq<char>| path == #[trigger] ("/decode?"@ + q)
            ||| exists|q: Seq<char>| path == #[trigger] ("/audio?"@ + q)
        },
        access_of(path) != RouteAccess::Read ==> access_of(path) == RouteAccess::Control,
{
    found_parts_are_there(path, "/status?"@);
    found_parts_are_there(path, "/events?"@);
    found_parts_are_there(path, "/decode?"@);
    found_parts_are_there(path, "/audio?"@);
    lemma_put_together(path, "/status?"@);
    lemma_put_together(path, "/events?"@);
    lemma_put_together(path, "/decode?"@);
    lemma_put_together(path, "/audio?"@);
}

proof fn lemma_put_together(path: Seq<char>, p: Seq<char>)
    ensures
        (exists|q: Seq<char>| path == #[trigger] (p + q)) ==> starts_with_spec(path, p),
{
    if exists|q: Seq<char>| path == #[trigger] (p + q) {
        let q = choose|q: Seq<char>| path == #[trigger] (p + q);
        parts_are_found(Seq::empty(), p, q);
    }
}

/// Public pages are open to everyone, those that show something to every role, and the rest to
/// control alone.
pub proof fn who_may_do_what(role: Option<AuthRole>)
    ensures
        allowed(RouteAccess::Public, role),
        allowed(RouteAccess::Read, role) <==> role is Some,
        allowed(RouteAccess::Control, role) <==> role == Some(AuthRole::Control),
{
}

/// The names that roles and cookie policies go by.
pub proof fn names_of_roles_and_policies(role: AuthRole, policy: SameSite)
    ensures
        role_name(role) == "control"@ <==> role == AuthRole::Control,
        role_name(role) == "rx"@ <==> role == AuthRole::Rx,
        same_site_name(policy) == "Strict"@ <==> policy == SameSite::Strict,
        same_site_name(policy) == "Lax"@ <==> policy == SameSite::Lax,
        same_site_name(policy) == "None"@ <==> policy == SameSite::Unrestricted,
{
    reveal_strlit("control");
    reveal_strlit("rx");
    reveal_strlit("Strict");
    reveal_strlit("Lax");
    reveal_strlit("None");
    assert("control"@.len() != "rx"@.len());
    assert("Strict"@.len() == 6 && "Lax"@.len() == 3 && "None"@.len() == 4);
}

} // verus!
