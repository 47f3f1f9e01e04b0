//! The JSON frontend: one request to a line, one answer to a request.
use vstd::prelude::*;

use crate::remote::{known_views, rig_views, RemoteRigEntry, RigEntry};
use crate::text::{
    join2, list_contains, list_has, opt_clone, opt_view, own, trim, trimmed,
};

verus! {

/// How long a request may be, in bytes.
pub const MAX_JSON_LINE_BYTES: usize = 16384;

/// How long reading and writing may take, in seconds.
pub const IO_TIMEOUT_SECS: u64 = 10;

/// How long a rig may take to answer, in seconds.
pub const REQUEST_TIMEOUT_SECS: u64 = 12;

/// What a request says, but for the command itself.
#[derive(Debug)]
pub struct Envelope {
    pub token: Option<String>,
    /// The rig that the request is for.
    pub rig_id: Option<String>,
    /// The request is for the list of rigs.
    pub is_get_rigs: bool,
}

/// What goes with an answer.
#[derive(Clone, Copy, Debug, PartialEq, Eq, Structural)]
pub enum Payload {
    Nothing,
    /// The state of the rig.
    State,
    /// The list of rigs.
    Rigs,
}

/// An answer.
#[derive(Debug)]
pub struct ClientResponse {
    pub success: bool,
    pub rig_id: Option<String>,
    pub payload: Payload,
    pub error: Option<String>,
}

/// What an answer says.
#[verifier::ext_equal]
pub struct ResponseView {
    pub success: bool,
    pub rig_id: Option<Seq<char>>,
    pub payload: Payload,
    pub error: Option<Seq<char>>,
}

impl View for ClientResponse {
    type V = ResponseView;

    open spec fn view(&self) -> ResponseView {
        ResponseView {
            success: self.success,
            rig_id: opt_view(self.rig_id),
            payload: self.payload,
            error: opt_view(self.error),
        }
    }
}

/// The answer to a request that failed.
pub open spec fn failure(rig_id: Option<Seq<char>>, error: Seq<char>) -> ResponseView {
    ResponseView { success: false, rig_id, payload: Payload::Nothing, error: Some(error) }
}

fn failed(rig_id: &Option<String>, error: String) -> (res: ClientResponse)
    ensures
        res@ == failure(opt_view(*rig_id), error@),
{
    ClientResponse {
        success: false,
        rig_id: opt_clone(rig_id),
        payload: Payload::Nothing,
        error: Some(error),
    }
}

/// The request in a line, where there is one: the line without white space around it.
pub fn request_text(line: &str) -> (res: Option<String>)
    ensures
        match res {
            Some(t) => t@ == trimmed(line@) && t@.len() > 0,
            None => trimmed(line@).len() == 0,
        },
{
    let t = trim(line);
    if t.as_str().is_empty() {
        None
    } else {
        Some(t)
    }
}

/// Why a token is not accepted, if it is not. Where no tokens are configured, anybody is.
pub open spec fn token_error(token: Option<Seq<char>>, accepted: Seq<String>) -> Option<Seq<char>> {
    if accepted.len() == 0 {
        None
    } else {
        match token {
            None => Some("missing authorization token"@),
            Some(t) => if list_has(accepted, t) {
                None
            } else {
                Some("invalid authorization token"@)
            },
        }
    }
}

/// Accepts a token, or says why not.
pub fn authorize(token: &Option<String>, accepted: &Vec<String>) -> (res: Result<(), String>)
    ensures
        match res {
            Ok(_) => token_error(opt_view(*token), accepted@) is None,
            Err(m) => token_error(opt_view(*token), accepted@) == Some(m@),
        },
{
    if accepted.len() == 0 {
        return Ok(());
    }
    match token {
        None => Err(own("missing authorization token")),
        Some(t) => if list_contains(accepted, t.as_str()) {
            Ok(())
        } else {
            Err(own("invalid authorization token"))
        },
    }
}

/// What is done with a request.
#[derive(Debug)]
pub enum RequestStep {
    /// It is answered at once.
    Reply(ClientResponse),
    /// It goes to the rig.
    Forward,
}

/// What is done with a request, given what it was read as, and the rig that is selected afterwards.
pub open spec fn step_of(
    request: Result<Envelope, String>,
    accepted: Seq<String>,
    active: Option<Seq<char>>,
) -> (Option<ResponseView>, Option<Seq<char>>) {
    match request {
        Err(e) => (Some(failure(None, "Invalid JSON: "@ + e@)), active),
        Ok(envelope) => match token_error(opt_view(envelope.token), accepted) {
            Some(m) => (Some(failure(None, m)), active),
            None => {
                let selected = match opt_view(envelope.rig_id) {
                    Some(r) => Some(r),
                    None => active,
                };
                if envelope.is_get_rigs {
                    (
                        Some(
                            ResponseView {
                                success: true,
                                rig_id: Some("client"@),
                                payload: Payload::Rigs,
                                error: None,
                            },
                        ),
                        selected,
                    )
                } else {
                    (None, selected)
                }
            },
        },
    }
}

/// What is done with a request, given what it was read as. A request that is accepted and names a
/// rig selects it.
pub fn on_request(
    request: Result<Envelope, String>,
    accepted: &Vec<String>,
    active_rig_id: &mut Option<String>,
) -> (res: RequestStep)
    ensures
        ({
            let (reply, selected) = step_of(request, accepted@, opt_view(*old(active_rig_id)));
            &&& opt_view(*final(active_rig_id)) == selected
            &&& match reply {
                Some(r) => res matches RequestStep::Reply(resp) && resp@ == r,
                None => res is Forward,
            }
        }),
{
    match request {
        Err(e) => {
            RequestStep::Reply(failed(&None, join2("Invalid JSON: ", e.as_str())))
        },
        Ok(envelope) => {
            match authorize(&envelope.token, accepted) {
                Ok(_) => {},
                Err(m) => {
                    return RequestStep::Reply(failed(&None, m));
                },
            }
            match &envelope.rig_id {
                Some(r) => {
                    *active_rig_id = Some(r.clone());
                },
                None => {},
            }
            if envelope.is_get_rigs {
                RequestStep::Reply(
                    ClientResponse {
                        success: true,
                        rig_id: Some(own("client")),
                        payload: Payload::Rigs,
                        error: None,
                    },
                )
            } else {
                RequestStep::Forward
            }
        },
    }
}

/// What came of a request that went to the rig.
#[derive(Debug)]
pub enum Outcome {
    /// It could not be handed over.
    NotAvailable,
    /// It was not taken in time.
    QueueTimeout,
    /// The rig has done it, and this is its state.
    Done,
    /// The rig refused it.
    Refused(String),
    /// The rig will not answer.
    Lost,
    /// The rig did not answer in time.
    TimedOut,
}

/// The answer to a request that went to the rig.
pub open spec fn answer_to(outcome: Outcome, rig_id: Option<Seq<char>>) -> ResponseView {
    match outcome {
        Outcome::NotAvailable => failure(rig_id, "Internal error: rig task not available"@),
        Outcome::QueueTimeout => failure(rig_id, "Internal error: request queue timeout"@),
        Outcome::Done => ResponseView {
            success: true,
            rig_id,
            payload: Payload::State,
            error: None,
        },
        Outcome::Refused(m) => failure(rig_id, m@),
        Outcome::Lost => failure(rig_id, "Internal error waiting for rig response"@),
        Outcome::TimedOut => failure(rig_id, "Request timed out waiting for rig response"@),
    }
}

/// The answer to a request that went to the rig.
pub fn on_outcome(outcome: Outcome, active_rig_id: &Option<String>) -> (res: ClientResponse)
    ensures
        res@ == answer_to(outcome, opt_view(*active_rig_id)),
{
    match outcome {
        Outcome::NotAvailable => failed(
            active_rig_id,
            own("Internal error: rig task not available"),
        ),
        Outcome::QueueTimeout => failed(active_rig_id, own("Internal error: request queue timeout")),
        Outcome::Done => ClientResponse {
            success: true,
            rig_id: opt_clone(active_rig_id),
            payload: Payload::State,
            error: None,
        },
        Outcome::Refused(m) => failed(active_rig_id, m),
        Outcome::Lost => failed(active_rig_id, own("Internal error waiting for rig response")),
        Outcome::TimedOut => failed(
            active_rig_id,
            own("Request timed out waiting for rig response"),
        ),
    }
}

/// The list of rigs that is answered with: the known ones, under their local names.
pub fn snapshot_remote_rigs(known: &Vec<RemoteRigEntry>) -> (res: Vec<RigEntry>)
    ensures
        rig_views(res@) == known_views(known@),
{
    let mut out: Vec<RigEntry> = Vec::new();
    let mut i: usize = 0;
    while i < known.len()
        invariant
            i <= known@.len(),
            out@.len() == i,
            forall|j: int| 0 <= j < i ==> (#[trigger] out@[j])@ == known@[j]@,
        decreases known@.len() - i,
    {
        let r = &known[i];
        out.push(
            RigEntry {
                rig_id: r.rig_id.clone(),
                display_name: opt_clone(&r.display_name),
                state: r.state,
                audio_port: r.audio_port,
            },
        );
        i = i + 1;
    }
    assert(rig_views(out@) =~= known_views(known@));
    out
}

/// A request without an accepted token never reaches the rig, and selects none.
pub proof fn unauthorized_changes_nothing(
    envelope: Envelope,
    accepted: Seq<String>,
    active: Option<Seq<char>>,
)
    requires
        token_error(opt_view(envelope.token), accepted) is Some,
    ensures
        ({
            let (reply, selected) = step_of(Ok(envelope), accepted, active);
            &&& reply matches Some(r) && !r.success && r.error == token_error(
                opt_view(envelope.token),
                accepted,
            )
            &&& selected == active
        }),
{
}

/// An answer that reports success carries no error, and one that reports failure carries one and
/// nothing else.
pub proof fn answers_are_consistent(
    request: Result<Envelope, String>,
    accepted: Seq<String>,
    active: Option<Seq<char>>,
    outcome: Outcome,
    rig_id: Option<Seq<char>>,
)
    ensures
        match step_of(request, accepted, active).0 {
            Some(r) => r.success == (r.error is None) && r.success == (r.payload
                != Payload::Nothing),
            None => true,
        },
        answer_to(outcome, rig_id).success == (answer_to(outcome, rig_id).error is None),
        answer_to(outcome, rig_id).success == (answer_to(outcome, rig_id).payload
            != Payload::Nothing),
{
}

/// What a reply is told by is all of its fields, and a failure says nothing but its error.
pub proof fn replies_in_full(r: ClientResponse, rig_id: Option<Seq<char>>, error: Seq<char>)
    ensures
        r@.success == r.success,
        r@.rig_id == opt_view(r.rig_id),
        r@.payload == r.payload,
        r@.error == opt_view(r.error),
        !failure(rig_id, error).success,
        failure(rig_id, error).rig_id == rig_id,
        failure(rig_id, error).payload == Payload::Nothing,
        failure(rig_id, error).error == Some(error),
{
}

/// A request needs one of the tokens where there are any.
pub proof fn tokens_that_are_taken(token: Seq<char>, accepted: Seq<String>, i: int)
    ensures
        accepted.len() == 0 ==> token_error(Some(token), accepted) is None && token_error(
            None,
            accepted,
        ) is None,
        accepted.len() > 0 ==> token_error(None, accepted) == Some("missing authorization token"@),
        0 <= i < accepted.len() && accepted[i]@ == token ==> token_error(
            Some(token),
            accepted,
        ) is None,
        accepted.len() > 0 && (forall|j: int|
            0 <= j < accepted.len() ==> (#[trigger] accepted[j])@ != token) ==> token_error(
            Some(token),
            accepted,
        ) == Some("invalid authorization token"@),
{
}

/// A request that is let in selects the rig it names and keeps the one before where it names none. It
/// is answered here where it asks for the rigs, and passed on otherwise.
pub proof fn requests_that_are_let_in(
    envelope: Envelope,
    accepted: Seq<String>,
    active: Option<Seq<char>>,
)
    requires
        token_error(opt_view(envelope.token), accepted) is None,
    ensures
        ({
            let (reply, selected) = step_of(Ok(envelope), accepted, active);
            &&& envelope.rig_id matches Some(r) ==> selected == Some(r@)
            &&& envelope.rig_id is None ==> selected == active
            &&& reply is Some <==> envelope.is_get_rigs
            &&& reply matches Some(r) ==> r.success && r.rig_id == Some("client"@) && r.payload
                == Payload::Rigs && r.error is None
        }),
{
}

/// A request that cannot be read or is not let in is answered with its fault and changes nothing.
pub proof fn requests_that_are_turned_away(
    request: Result<Envelope, String>,
    accepted: Seq<String>,
    active: Option<Seq<char>>,
)
    ensures
        request matches Err(e) ==> step_of(request, accepted, active) == (
            Some(failure(None, "Invalid JSON: "@ + e@)),
            active,
        ),
        request matches Ok(envelope) ==> token_error(
            opt_view(envelope.token),
            accepted,
        ) is Some ==> step_of(request, accepted, active) == (
            Some(failure(None, token_error(opt_view(envelope.token), accepted)->0)),
            active,
        ),
{
}

/// A command that was carried out is answered with the state of its rig, any other with what went
/// wrong.
pub proof fn answers_to_commands(rig_id: Option<Seq<char>>, m: String)
    ensures
        answer_to(Outcome::Done, rig_id).success,
        answer_to(Outcome::Done, rig_id).rig_id == rig_id,
        answer_to(Outcome::Done, rig_id).payload == Payload::State,
        answer_to(Outcome::Done, rig_id).error is None,
        answer_to(Outcome::Refused(m), rig_id) == failure(rig_id, m@),
        answer_to(Outcome::NotAvailable, rig_id) == failure(
            rig_id,
            "Internal error: rig task not available"@,
        ),
        answer_to(Outcome::QueueTimeout, rig_id) == failure(
            rig_id,
            "Internal error: request queue timeout"@,
        ),
        answer_to(Outcome::Lost, rig_id) == failure(
            rig_id,
            "Internal error waiting for rig response"@,
        ),
        answer_to(Outcome::TimedOut, rig_id) == failure(
            rig_id,
            "Request timed out waiting for rig response"@,
        ),
{
}

} // verus!
