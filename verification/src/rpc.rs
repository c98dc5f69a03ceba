//! Client side of the Unix-socket protocol: the request each call sends and
//! how the daemon's reply is decoded. Connecting and moving the bytes is the
//! caller's part; it hands each decoder what the round trip gave.

use vstd::prelude::*;

use crate::wire::{
    BlockParams, ClientParams, ClientRef, ClientsResult, ErrorBody, FrameError, InfoResult, Params,
    Request, RequestKind, Response, ResultBody, RulesResult, ThrottleParams, TopParams, TopResult,
};

verus! {

/// Default round-trip timeout (ms).
pub const DEFAULT_TIMEOUT_MS: u64 = 10000;

/// Client-side errors.
#[derive(Debug, Clone, PartialEq)]
pub enum ClientError {
    /// Framing.
    Frame(FrameError),
    /// Wire error from the daemon.
    Server {
        /// Error code.
        code: String,
        /// Message.
        message: String,
    },
    /// Unexpected response shape.
    Unexpected(String),
    /// Connect failure, as the OS reported it.
    Connect(String),
}

impl ClientError {
    /// From a wire error body.
    pub fn from_body(e: ErrorBody) -> (r: ClientError)
        ensures
            r == (ClientError::Server { code: e.code, message: e.message }),
    {
        ClientError::Server { code: e.code, message: e.message }
    }
}

/// Sync client settings: the socket path and the I/O timeout.
#[derive(Debug, Clone, PartialEq, Eq)]
pub struct Client {
    /// Socket path.
    pub socket: String,
    /// I/O timeout (ms).
    pub timeout_ms: u64,
}

/// The kind of a result body, by its variant name.
pub open spec fn body_kind(b: ResultBody) -> Seq<char> {
    match b {
        ResultBody::Info(_) => "Info"@,
        ResultBody::Clients(_) => "Clients"@,
        ResultBody::Rules(_) => "Rules"@,
        ResultBody::Empty(_) => "Empty"@,
    }
}

/// The kind of a result body, for an unexpected reply.
pub fn body_kind_text(body: &ResultBody) -> (r: String)
    ensures
        r@ == body_kind(*body),
{
    match body {
        ResultBody::Info(_) => String::from_str("Info"),
        ResultBody::Clients(_) => String::from_str("Clients"),
        ResultBody::Rules(_) => String::from_str("Rules"),
        ResultBody::Empty(_) => String::from_str("Empty"),
    }
}

/// What a reply decodes to: a transport error stays; a wire error becomes
/// `Server`; a reply without result is unexpected ("missing result"); a
/// result that `pick` accepts is the answer, any other is unexpected and
/// named by its kind.
pub open spec fn decoded<T>(
    reply: Result<Response, ClientError>,
    r: Result<T, ClientError>,
    pick: spec_fn(ResultBody) -> Option<T>,
) -> bool {
    match reply {
        Err(e) => r == Err::<T, ClientError>(e),
        Ok(resp) => match resp.error {
            Some(b) => r == Err::<T, ClientError>(ClientError::Server { code: b.code, message: b.message }),
            None => match resp.result {
                None => (r matches Err(ClientError::Unexpected(m)) && m@ == "missing result"@),
                Some(body) => match pick(body) {
                    Some(x) => r == Ok::<T, ClientError>(x),
                    None => (r matches Err(ClientError::Unexpected(m)) && m@ == body_kind(body)),
                },
            },
        },
    }
}

/// An info body.
pub open spec fn pick_info(b: ResultBody) -> Option<InfoResult> {
    match b {
        ResultBody::Info(x) => Some(x),
        _ => None,
    }
}

/// A clients body.
pub open spec fn pick_clients(b: ResultBody) -> Option<ClientsResult> {
    match b {
        ResultBody::Clients(x) => Some(x),
        _ => None,
    }
}

/// A rules body.
pub open spec fn pick_rules(b: ResultBody) -> Option<RulesResult> {
    match b {
        ResultBody::Rules(x) => Some(x),
        _ => None,
    }
}

/// An empty body.
pub open spec fn pick_empty(b: ResultBody) -> Option<()> {
    match b {
        ResultBody::Empty(_) => Some(()),
        _ => None,
    }
}

/// The result body of a reply, or the error it carries.
fn reply_body(reply: Result<Response, ClientError>) -> (r: Result<ResultBody, ClientError>)
    ensures
        decoded(reply, r, |b: ResultBody| Some(b)),
{
    match reply {
        Err(e) => Err(e),
        Ok(resp) => {
            if let Some(err) = resp.error {
                return Err(ClientError::from_body(err));
            }
            match resp.result {
                Some(body) => Ok(body),
                None => Err(ClientError::Unexpected(String::from_str("missing result"))),
            }
        },
    }
}

impl Client {
    /// Client on the resolved default socket (`resolved`), default timeout.
    pub fn new(resolved: String) -> (r: Client)
        ensures
            r.socket == resolved,
            r.timeout_ms == DEFAULT_TIMEOUT_MS,
    {
        Client { socket: resolved, timeout_ms: DEFAULT_TIMEOUT_MS }
    }

    /// Client on an explicit socket, default timeout.
    pub fn with_socket(socket: String) -> (r: Client)
        ensures
            r.socket == socket,
            r.timeout_ms == DEFAULT_TIMEOUT_MS,
    {
        Client { socket, timeout_ms: DEFAULT_TIMEOUT_MS }
    }

    /// The `info` request.
    pub fn info_request() -> (r: Request)
        ensures
            r.kind == RequestKind::Info,
            r.params is None,
    {
        Request::new(RequestKind::Info)
    }

    /// `info`: decode the reply.
    pub fn info(&self, reply: Result<Response, ClientError>) -> (r: Result<InfoResult, ClientError>)
        ensures
            decoded(reply, r, |b: ResultBody| pick_info(b)),
    {
        match reply_body(reply) {
            Err(e) => Err(e),
            Ok(ResultBody::Info(x)) => Ok(x),
            Ok(other) => Err(ClientError::Unexpected(body_kind_text(&other))),
        }
    }

    /// The `top` request.
    pub fn top_request(params: TopParams) -> (r: Request)
        ensures
            r.kind == RequestKind::Top,
            r.params == Some(Params::Top(params)),
    {
        Request::with_params(RequestKind::Top, Params::Top(params))
    }

    /// `top`: decode the reply.
    pub fn top(&self, reply: Result<Response, ClientError>) -> (r: Result<TopResult, ClientError>)
        ensures
            decoded(reply, r, |b: ResultBody| pick_clients(b)),
    {
        match reply_body(reply) {
            Err(e) => Err(e),
            Ok(ResultBody::Clients(x)) => Ok(x),
            Ok(other) => Err(ClientError::Unexpected(body_kind_text(&other))),
        }
    }

    /// The `listClients` request.
    pub fn list_clients_request() -> (r: Request)
        ensures
            r.kind == RequestKind::ListClients,
            r.params is None,
    {
        Request::new(RequestKind::ListClients)
    }

    /// `listClients`: decode the reply.
    pub fn list_clients(&self, reply: Result<Response, ClientError>) -> (r: Result<ClientsResult, ClientError>)
        ensures
            decoded(reply, r, |b: ResultBody| pick_clients(b)),
    {
        match reply_body(reply) {
            Err(e) => Err(e),
            Ok(ResultBody::Clients(x)) => Ok(x),
            Ok(other) => Err(ClientError::Unexpected(body_kind_text(&other))),
        }
    }

    /// The `listRules` request.
    pub fn list_rules_request() -> (r: Request)
        ensures
            r.kind == RequestKind::ListRules,
            r.params is None,
    {
        Request::new(RequestKind::ListRules)
    }

    /// `listRules`: decode the reply.
    pub fn list_rules(&self, reply: Result<Response, ClientError>) -> (r: Result<RulesResult, ClientError>)
        ensures
            decoded(reply, r, |b: ResultBody| pick_rules(b)),
    {
        match reply_body(reply) {
            Err(e) => Err(e),
            Ok(ResultBody::Rules(x)) => Ok(x),
            Ok(other) => Err(ClientError::Unexpected(body_kind_text(&other))),
        }
    }

    /// The `throttle` request.
    pub fn throttle_request(params: ThrottleParams) -> (r: Request)
        ensures
            r.kind == RequestKind::Throttle,
            r.params == Some(Params::Throttle(params)),
    {
        Request::with_params(RequestKind::Throttle, Params::Throttle(params))
    }

    /// `throttle`: decode the reply.
    pub fn throttle(&self, reply: Result<Response, ClientError>) -> (r: Result<(), ClientError>)
        ensures
            decoded(reply, r, |b: ResultBody| pick_empty(b)),
    {
        expect_empty(reply)
    }

    /// The `unthrottle` request.
    pub fn unthrottle_request(client: ClientRef) -> (r: Request)
        ensures
            r.kind == RequestKind::Unthrottle,
            r.params == Some(Params::Client(ClientParams { client })),
    {
        Request::with_params(RequestKind::Unthrottle, Params::Client(ClientParams { client }))
    }

    /// `unthrottle`: decode the reply.
    pub fn unthrottle(&self, reply: Result<Response, ClientError>) -> (r: Result<(), ClientError>)
        ensures
            decoded(reply, r, |b: ResultBody| pick_empty(b)),
    {
        expect_empty(reply)
    }

    /// The `block` request.
    pub fn block_request(params: BlockParams) -> (r: Request)
        ensures
            r.kind == RequestKind::Block,
            r.params == Some(Params::Block(params)),
    {
        Request::with_params(RequestKind::Block, Params::Block(params))
    }

    /// `block`: decode the reply.
    pub fn block(&self, reply: Result<Response, ClientError>) -> (r: Result<(), ClientError>)
        ensures
            decoded(reply, r, |b: ResultBody| pick_empty(b)),
    {
        expect_empty(reply)
    }

    /// The `unblock` request.
    pub fn unblock_request(client: ClientRef) -> (r: Request)
        ensures
            r.kind == RequestKind::Unblock,
            r.params == Some(Params::Client(ClientParams { client })),
    {
        Request::with_params(RequestKind::Unblock, Params::Client(ClientParams { client }))
    }

    /// `unblock`: decode the reply.
    pub fn unblock(&self, reply: Result<Response, ClientError>) -> (r: Result<(), ClientError>)
        ensures
            decoded(reply, r, |b: ResultBody| pick_empty(b)),
    {
        expect_empty(reply)
    }
}

/// A reply whose result must be empty.
fn expect_empty(reply: Result<Response, ClientError>) -> (r: Result<(), ClientError>)
    ensures
        decoded(reply, r, |b: ResultBody| pick_empty(b)),
{
    match reply_body(reply) {
        Err(e) => Err(e),
        Ok(ResultBody::Empty(_)) => Ok(()),
        Ok(other) => Err(ClientError::Unexpected(body_kind_text(&other))),
    }
}

} // verus!
