//! Routing of parsed requests to responses or to the wake-up action.
//!
//! The routing table is exact and case-sensitive, with no path
//! normalization: `GET /ping` answers `pong`, `POST /turn_on` asks the
//! caller to transmit the magic packet, and every other method/path
//! pair is `404 Not found`.  A request that failed parsing is answered
//! with the distinguished teapot response.

use vstd::prelude::*;

use crate::request::{Method, Request, RequestError, RequestView, spec_parse};
use crate::response::{HttpStatusResponse, ResponseView, Status};

verus! {

/// The bytes of the path `/ping`.
pub open spec fn spec_ping_path() -> Seq<u8> {
    seq![47u8, 112u8, 105u8, 110u8, 103u8]
}

/// The bytes of the path `/turn_on`.
pub open spec fn spec_turn_on_path() -> Seq<u8> {
    seq![47u8, 116u8, 117u8, 114u8, 110u8, 95u8, 111u8, 110u8]
}

/// The bytes of the body `pong`.
pub open spec fn spec_pong_body() -> Seq<u8> {
    seq![112u8, 111u8, 110u8, 103u8]
}

/// `200 OK` with body `pong`.
pub open spec fn spec_pong_response() -> ResponseView {
    ResponseView { status: Status::Success, body: spec_pong_body() }
}

/// `404 Not found` with empty body.
pub open spec fn spec_not_found_response() -> ResponseView {
    ResponseView { status: Status::NotFound, body: Seq::empty() }
}

/// `418 I'm a teapot` with empty body.
pub open spec fn spec_teapot_response() -> ResponseView {
    ResponseView { status: Status::Teapot, body: Seq::empty() }
}

/// The ghost shape of a dispatch decision.
pub enum ActionView {
    /// The response is already determined.
    Respond(ResponseView),
    /// The magic packet must be transmitted; the response follows from
    /// the transmission's outcome.
    SendWake,
}

/// What the dispatcher decides for one request: either the finished
/// response, or the instruction to transmit the magic packet first.
/// The caller performs the transmission — the one side effect of the
/// routing table — and turns its outcome into the response with
/// [`wake_response`].
pub enum Action {
    Respond(HttpStatusResponse),
    SendWake,
}

impl View for Action {
    type V = ActionView;

    open spec fn view(&self) -> ActionView {
        match self {
            Action::Respond(resp) => ActionView::Respond(resp@),
            Action::SendWake => ActionView::SendWake,
        }
    }
}

/// The routing table, evaluated on an exact method/path pair: `GET
/// /ping` answers `pong`; `POST /turn_on` wakes; everything else —
/// any other path, a query string, a trailing slash — is `404 Not
/// found` with empty body.
pub open spec fn spec_dispatch(method: Method, path: Seq<u8>) -> ActionView {
    match method {
        Method::Get => if path == spec_ping_path() {
            ActionView::Respond(spec_pong_response())
        } else {
            ActionView::Respond(spec_not_found_response())
        },
        Method::Post => if path == spec_turn_on_path() {
            ActionView::SendWake
        } else {
            ActionView::Respond(spec_not_found_response())
        },
    }
}

/// The response owed after a wake-up transmission: `200 OK` with empty
/// body when it succeeded, `500 Internal Server Error` carrying the
/// failure's textual description when it failed.
pub open spec fn spec_wake_response(outcome: Result<(), Seq<u8>>) -> ResponseView {
    match outcome {
        Ok(_) => ResponseView { status: Status::Success, body: Seq::empty() },
        Err(msg) => ResponseView { status: Status::ServerError, body: msg },
    }
}

/// One connection's whole decision: parse the bytes, answer any parse
/// failure with the teapot response, and route a parsed request
/// through the dispatch table.
pub open spec fn spec_handle(input: Seq<u8>) -> ActionView {
    match spec_parse(input) {
        Err(_) => ActionView::Respond(spec_teapot_response()),
        Ok(req) => spec_dispatch(req.method, req.path),
    }
}

/// A request whose method/path pair matches no route is answered
/// `404 Not found` with empty body, whatever its headers: routing
/// looks only at the method and the exact path.
pub proof fn lemma_unmatched_path_not_found(req: RequestView)
    requires
        !(req.method == Method::Get && req.path == spec_ping_path()),
        !(req.method == Method::Post && req.path == spec_turn_on_path()),
    ensures
        spec_dispatch(req.method, req.path) == ActionView::Respond(spec_not_found_response()),
{
}

/// `GET /ping` is answered `200 OK` with body exactly `pong`, for any
/// headers supplied or none: the headers play no part in routing.
pub proof fn lemma_ping_pongs(req: RequestView)
    requires
        req.method == Method::Get,
        req.path == spec_ping_path(),
    ensures
        spec_dispatch(req.method, req.path) == ActionView::Respond(spec_pong_response()),
{
}

/// `POST /turn_on` always routes to the wake-up transmission, and the
/// response is `200 OK` with empty body exactly when the transmission
/// succeeded, `500 Internal Server Error` with the failure's text as
/// body exactly when it failed.
pub proof fn lemma_turn_on_wakes(req: RequestView, outcome: Result<(), Seq<u8>>)
    requires
        req.method == Method::Post,
        req.path == spec_turn_on_path(),
    ensures
        spec_dispatch(req.method, req.path) == ActionView::SendWake,
        match outcome {
            Ok(_) => spec_wake_response(outcome) == ResponseView {
                status: Status::Success,
                body: Seq::<u8>::empty(),
            },
            Err(msg) => spec_wake_response(outcome) == ResponseView {
                status: Status::ServerError,
                body: msg,
            },
        },
{
}

/// An input whose request line carries a method token other than
/// `GET` or `POST` fails parsing with `InvalidMethod` — whatever its
/// path, version or headers hold — and the connection is answered
/// with the teapot response and nothing else.
pub proof fn lemma_invalid_method_teapot(input: Seq<u8>, lines: Seq<Seq<u8>>)
    requires
        crate::request::spec_block_lines(input) == Some(lines),
        lines.len() > 0,
        crate::request::spec_method_of(crate::request::spec_method_token(lines.first())) is None,
    ensures
        spec_parse(input) == Err::<RequestView, RequestError>(RequestError::InvalidMethod),
        spec_handle(input) == ActionView::Respond(spec_teapot_response()),
{
}

/// Whether `path` is exactly `/ping`.
fn is_ping_path(path: &Vec<u8>) -> (r: bool)
    ensures
        r == (path@ == spec_ping_path()),
{
    let r = path.len() == 5 && path[0] == 47u8 && path[1] == 112u8 && path[2] == 105u8 && path[3]
        == 110u8 && path[4] == 103u8;
    proof {
        if r {
            assert(path@ =~= spec_ping_path());
        }
    }
    r
}

/// Whether `path` is exactly `/turn_on`.
fn is_turn_on_path(path: &Vec<u8>) -> (r: bool)
    ensures
        r == (path@ == spec_turn_on_path()),
{
    let r = path.len() == 8 && path[0] == 47u8 && path[1] == 116u8 && path[2] == 117u8 && path[3]
        == 114u8 && path[4] == 110u8 && path[5] == 95u8 && path[6] == 111u8 && path[7] == 110u8;
    proof {
        if r {
            assert(path@ =~= spec_turn_on_path());
        }
    }
    r
}

/// Resolves a parsed request against the routing table.  Dispatch
/// itself performs no side effect: a `SendWake` result instructs the
/// caller to transmit the magic packet to the configured physical
/// address.
pub fn dispatch(req: &Request) -> (r: Action)
    ensures
        r@ == spec_dispatch(req.method, req.path@),
{
    match req.method {
        Method::Get => {
            if is_ping_path(&req.path) {
                let body: Vec<u8> = vec![112u8, 111u8, 110u8, 103u8];
                proof {
                    assert(body@ =~= spec_pong_body());
                }
                Action::Respond(HttpStatusResponse { status: Status::Success, body })
            } else {
                Action::Respond(HttpStatusResponse { status: Status::NotFound, body: Vec::new() })
            }
        },
        Method::Post => {
            if is_turn_on_path(&req.path) {
                Action::SendWake
            } else {
                Action::Respond(HttpStatusResponse { status: Status::NotFound, body: Vec::new() })
            }
        },
    }
}

/// Turns the outcome of the magic-packet transmission into the
/// response owed to the client: `200 OK` with empty body on success,
/// `500 Internal Server Error` with the failure's description as body.
pub fn wake_response(outcome: Result<(), Vec<u8>>) -> (r: HttpStatusResponse)
    ensures
        match outcome {
            Ok(_) => r@ == spec_wake_response(Ok(())),
            Err(msg) => r@ == spec_wake_response(Err(msg@)),
        },
{
    match outcome {
        Ok(_) => HttpStatusResponse { status: Status::Success, body: Vec::new() },
        Err(msg) => HttpStatusResponse { status: Status::ServerError, body: msg },
    }
}

/// The answer to a request that failed parsing: always the teapot
/// response, whatever the error was.
pub fn parse_failure_response(_err: &RequestError) -> (r: HttpStatusResponse)
    ensures
        r@ == spec_teapot_response(),
{
    HttpStatusResponse { status: Status::Teapot, body: Vec::new() }
}

/// Runs one connection's parse-and-route cycle on the bytes of its
/// header block.  The result is exactly [`spec_handle`] of the input:
/// a finished response, or the instruction to wake first.
pub fn handle_request(input: &[u8]) -> (r: Action)
    ensures
        r@ == spec_handle(input@),
{
    match Request::parse(input) {
        Err(e) => Action::Respond(parse_failure_response(&e)),
        Ok(req) => dispatch(&req),
    }
}

} // verus!
