//! The decisions of a connection worker. The worker reads once, answers
//! once and closes; the reading and writing themselves happen outside the
//! library, which is told how they went.
use vstd::prelude::*;

use crate::middleware::{Handler, Middleware};
use crate::request::{parse_request, Request, RequestBuffer};
use crate::response::{status_response, Response, ResponseModel};
use crate::router::{serve, Router};

verus! {

/// How long a read or a write may take, in seconds.
pub const IO_TIMEOUT_SECS: u64 = 5;

/// How the single read from a connection went.
pub enum ReadOutcome {
    /// Some bytes came; the rest of the buffer is zero.
    Data(RequestBuffer),
    /// The peer sent nothing before closing.
    Empty,
    /// The read failed; the text describes the error.
    Failed(String),
    /// Nothing came within the time allowed.
    TimedOut,
}

/// How writing the response went.
pub enum WriteOutcome {
    Written,
    /// The write failed; the text describes the error.
    Failed(String),
    /// The write did not finish within the time allowed.
    TimedOut,
}

/// The response that a failed read ends the connection with, if it failed.
pub open spec fn read_failure_spec(outcome: ReadOutcome) -> Option<ResponseModel> {
    match outcome {
        ReadOutcome::Data(_) => None,
        ReadOutcome::Empty => Some(status_response(408, "no data received from client connection"@)),
        ReadOutcome::Failed(e) => Some(status_response(500, "failed to read from socket: "@ + e@)),
        ReadOutcome::TimedOut => Some(status_response(408, "read timeout"@)),
    }
}

/// What a failed write is reported as, if it failed.
pub open spec fn write_failure_spec(outcome: WriteOutcome) -> Option<ResponseModel> {
    match outcome {
        WriteOutcome::Written => None,
        WriteOutcome::Failed(e) => Some(status_response(500, "failed to write to socket: "@ + e@)),
        WriteOutcome::TimedOut => Some(status_response(408, "write timeout"@)),
    }
}

/// The response a connection gets: that of a failed read; else that of a
/// malformed request; else the route table's.
pub open spec fn connection_response<H: Handler, M: Middleware>(
    table: Seq<crate::router::Route<H, M>>,
    outcome: ReadOutcome,
) -> ResponseModel {
    match outcome {
        ReadOutcome::Data(buffer) => {
            let (req, stop) = parse_request(buffer@);
            match stop {
                Some(resp) => resp,
                None => serve(table, req),
            }
        },
        _ => read_failure_spec(outcome)->Some_0,
    }
}

/// The response that a failed read ends the connection with, if it failed.
pub fn read_failure(outcome: &ReadOutcome) -> (r: Option<Response>)
    ensures
        match r {
            Some(x) => read_failure_spec(*outcome) == Some(x@),
            None => read_failure_spec(*outcome) is None,
        },
{
    match outcome {
        ReadOutcome::Data(_) => None,
        ReadOutcome::Empty => Some(
            Response::new().status(408).body("no data received from client connection"),
        ),
        ReadOutcome::Failed(e) => {
            let mut msg = String::from_str("failed to read from socket: ");
            msg.append(e.as_str());
            Some(Response::new().status(500).body(msg.as_str()))
        },
        ReadOutcome::TimedOut => Some(Response::new().status(408).body("read timeout")),
    }
}

/// What a failed write is reported as, if it failed. The connection is
/// closed all the same.
pub fn write_failure(outcome: &WriteOutcome) -> (r: Option<Response>)
    ensures
        match r {
            Some(x) => write_failure_spec(*outcome) == Some(x@),
            None => write_failure_spec(*outcome) is None,
        },
{
    match outcome {
        WriteOutcome::Written => None,
        WriteOutcome::Failed(e) => {
            let mut msg = String::from_str("failed to write to socket: ");
            msg.append(e.as_str());
            Some(Response::new().status(500).body(msg.as_str()))
        },
        WriteOutcome::TimedOut => Some(Response::new().status(408).body("write timeout")),
    }
}

/// The response that a connection gets, given how its read went. Every
/// outcome gets one.
pub fn handle_connection<H: Handler, M: Middleware>(router: &Router<H, M>, outcome: ReadOutcome) -> (r: Response)
    ensures
        r@ == connection_response(router.table(), outcome),
{
    match outcome {
        ReadOutcome::Data(buffer) => {
            let (request, stop) = Request::new_from_bytes(buffer);
            match stop {
                Some(resp) => resp,
                None => router.handle_request(request),
            }
        },
        _ => read_failure(&outcome).unwrap(),
    }
}

/// A read that brings nothing in time, or nothing at all, is answered with
/// a 408 and never reaches the parser or the routes.
pub proof fn lemma_read_timeout<H: Handler, M: Middleware>(table: Seq<crate::router::Route<H, M>>)
    ensures
        connection_response(table, ReadOutcome::TimedOut) == status_response(408, "read timeout"@),
        connection_response(table, ReadOutcome::TimedOut).status == 408,
        connection_response(table, ReadOutcome::Empty).status == 408,
{
}

} // verus!
