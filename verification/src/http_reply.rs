//! What the HTTP frontend answers.
use vstd::prelude::*;

use crate::cbor::{cbor, encode_cbor_json_value, JsonValue};
use crate::gzip::{gunzipped, gzip_bytes, gzipped, FAST_LEVEL};
use crate::json_frontend::{failure, ClientResponse, Payload, ResponseView};
use crate::text::{join2, opt_view, own};

verus! {

/// How long a rig may take to answer, in seconds.
pub const HTTP_REQUEST_TIMEOUT_SECS: u64 = 15;

/// What came of a command to a rig.
#[derive(Debug)]
pub enum CommandOutcome {
    /// It could not be handed over, with the reason.
    NotSent(String),
    /// The rig did not answer in time.
    TimedOut,
    /// The rig has done it.
    Done,
    /// The rig refused it.
    Refused(String),
    /// The rig will not answer, with the reason.
    Broken(String),
}

/// An answer that tells of an error: its status code and text.
#[derive(Debug)]
pub struct HttpError {
    pub status: u16,
    pub text: String,
}

/// What is said of a command that did not reach the rig or came to no answer.
pub open spec fn transport_error(outcome: CommandOutcome) -> Option<(u16, Seq<char>)> {
    match outcome {
        CommandOutcome::NotSent(e) => Some((500, "failed to send to rig: "@ + e@)),
        CommandOutcome::TimedOut => Some((504, "rig response timeout"@)),
        CommandOutcome::Broken(e) => Some((500, "rig response channel error: "@ + e@)),
        CommandOutcome::Done => None,
        CommandOutcome::Refused(_) => None,
    }
}

/// The answer to a request that gave a command to a rig: the status code and what is in it. An error
/// on the way to the rig is another kind of answer.
pub fn command_reply(outcome: CommandOutcome) -> (res: Result<(u16, ClientResponse), HttpError>)
    ensures
        match outcome {
            CommandOutcome::Done => res matches Ok((status, r)) && status == 200 && r@ == (
            ResponseView { success: true, rig_id: None, payload: Payload::State, error: None }),
            CommandOutcome::Refused(m) => res matches Ok((status, r)) && status == 400 && r@
                == failure(None, m@),
            _ => res matches Err(e) && transport_error(outcome) == Some((e.status, e.text@)),
        },
{
    match outcome {
        CommandOutcome::Done => Ok(
            (
                200,
                ClientResponse {
                    success: true,
                    rig_id: None,
                    payload: Payload::State,
                    error: None,
                },
            ),
        ),
        CommandOutcome::Refused(m) => Ok(
            (
                400,
                ClientResponse {
                    success: false,
                    rig_id: None,
                    payload: Payload::Nothing,
                    error: Some(m),
                },
            ),
        ),
        CommandOutcome::NotSent(e) => Err(
            HttpError { status: 500, text: join2("failed to send to rig: ", e.as_str()) },
        ),
        CommandOutcome::TimedOut => Err(
            HttpError { status: 504, text: own("rig response timeout") },
        ),
        CommandOutcome::Broken(e) => Err(
            HttpError { status: 500, text: join2("rig response channel error: ", e.as_str()) },
        ),
    }
}

/// Whether one of several commands was carried out, or the answer that ends them.
pub fn command_step(outcome: CommandOutcome) -> (res: Result<(), HttpError>)
    ensures
        match outcome {
            CommandOutcome::Done => res is Ok,
            CommandOutcome::Refused(m) => res matches Err(e) && e.status == 400 && e.text@ == m@,
            _ => res matches Err(e) && transport_error(outcome) == Some((e.status, e.text@)),
        },
{
    match outcome {
        CommandOutcome::Done => Ok(()),
        CommandOutcome::Refused(m) => Err(HttpError { status: 400, text: m }),
        CommandOutcome::NotSent(e) => Err(
            HttpError { status: 500, text: join2("failed to send to rig: ", e.as_str()) },
        ),
        CommandOutcome::TimedOut => Err(
            HttpError { status: 504, text: own("rig response timeout") },
        ),
        CommandOutcome::Broken(e) => Err(
            HttpError { status: 500, text: join2("rig response channel error: ", e.as_str()) },
        ),
    }
}

// ---------------------------------------------------------------------------------------------
// Virtual channels
// ---------------------------------------------------------------------------------------------

/// Why something could not be done with a virtual channel.
#[derive(Debug)]
pub enum ChannelError {
    NotFound,
    /// The first channel of a rig stays.
    Permanent,
    /// Another reason, with its text.
    Other(String),
}

/// The answer to a request to remove a channel: the status code, and a text where there is one.
pub fn delete_channel_reply(result: Result<(), ChannelError>) -> (res: (
    u16,
    Option<String>,
))
    ensures
        (res.0, opt_view(res.1)) == (match result {
            Ok(_) => (200u16, None),
            Err(ChannelError::NotFound) => (404u16, None),
            Err(ChannelError::Permanent) => (400u16, Some("cannot remove the primary channel"@)),
            Err(ChannelError::Other(m)) => (400u16, Some(m@)),
        }),
{
    match result {
        Ok(_) => (200, None),
        Err(ChannelError::NotFound) => (404, None),
        Err(ChannelError::Permanent) => (400, Some(own("cannot remove the primary channel"))),
        Err(ChannelError::Other(m)) => (400, Some(m)),
    }
}

// ---------------------------------------------------------------------------------------------
// Satellite passes
// ---------------------------------------------------------------------------------------------

/// Where the orbits come from that passes are predicted from.
#[derive(Clone, Copy, Debug, PartialEq, Eq, Structural)]
pub enum TleSource {
    Celestrak,
    Unavailable,
}

/// Predicted passes.
#[derive(Debug)]
pub struct PassPredictions<P> {
    pub passes: Vec<P>,
    pub satellite_count: usize,
    pub tle_source: TleSource,
}

/// The answer to a request for predicted passes.
#[derive(Debug)]
pub struct SatPassesResponse<P> {
    pub passes: Vec<P>,
    pub error: Option<String>,
    pub satellite_count: usize,
    pub tle_source: TleSource,
}

/// The answer to a request for predicted passes: those that are known, and what is missing.
pub fn sat_passes<P>(cached: Option<PassPredictions<P>>) -> (res: SatPassesResponse<P>)
    ensures
        match cached {
            Some(c) => {
                &&& res.passes == c.passes
                &&& res.satellite_count == c.satellite_count
                &&& res.tle_source == c.tle_source
                &&& opt_view(res.error) == (match c.tle_source {
                    TleSource::Celestrak => None,
                    TleSource::Unavailable => Some(
                        "TLE data not yet available — waiting for CelesTrak fetch"@,
                    ),
                })
            },
            None => {
                &&& res.passes@.len() == 0
                &&& res.satellite_count == 0
                &&& res.tle_source == TleSource::Unavailable
                &&& opt_view(res.error) == Some(
                    "Satellite predictions not yet available from server"@,
                )
            },
        },
{
    match cached {
        Some(c) => {
            let error = match c.tle_source {
                TleSource::Celestrak => None,
                TleSource::Unavailable => Some(
                    own("TLE data not yet available — waiting for CelesTrak fetch"),
                ),
            };
            SatPassesResponse {
                passes: c.passes,
                error,
                satellite_count: c.satellite_count,
                tle_source: c.tle_source,
            }
        },
        None => SatPassesResponse {
            passes: Vec::new(),
            error: Some(own("Satellite predictions not yet available from server")),
            satellite_count: 0,
            tle_source: TleSource::Unavailable,
        },
    }
}

// ---------------------------------------------------------------------------------------------
// Decode history
// ---------------------------------------------------------------------------------------------

/// The body of the answer to a request for the decode history: the history as CBOR, compressed. There
/// is none where decoding is off, and it may fail to be compressed.
pub fn decode_history_reply(enabled: bool, history: &JsonValue) -> (res: Result<Vec<u8>, HttpError>)
    ensures
        match res {
            Ok(body) => enabled && gzipped(cbor(*history), FAST_LEVEL) == Some(body@) && gunzipped(
                body@,
            ) == Some(cbor(*history)),
            Err(e) => if enabled {
                gzipped(cbor(*history), FAST_LEVEL) is None && e.status == 500 && e.text@ == ""@
            } else {
                e.status == 404 && e.text@ == "decode not enabled"@
            },
        },
{
    if !enabled {
        return Err(HttpError { status: 404, text: own("decode not enabled") });
    }
    let mut bytes: Vec<u8> = Vec::new();
    encode_cbor_json_value(&mut bytes, history);
    assert(bytes@ =~= cbor(*history));
    match gzip_bytes(bytes.as_slice()) {
        Some(body) => Ok(body),
        None => Err(HttpError { status: 500, text: own("") }),
    }
}

/// Where the rig could not answer, the reply says why: it was not reached, it took too long, or its
/// answer was lost. An answer, even a refusal, is none of these.
pub proof fn failures_to_answer(e: String)
    ensures
        transport_error(CommandOutcome::NotSent(e)) == Some(
            (500u16, "failed to send to rig: "@ + e@),
        ),
        transport_error(CommandOutcome::TimedOut) == Some((504u16, "rig response timeout"@)),
        transport_error(CommandOutcome::Broken(e)) == Some(
            (500u16, "rig response channel error: "@ + e@),
        ),
        transport_error(CommandOutcome::Done) is None,
        transport_error(CommandOutcome::Refused(e)) is None,
{
}

} // verus!
