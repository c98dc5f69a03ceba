//! Request/response envelope and typed wire bodies for the Unix-socket
//! protocol, and its length-prefixed framing.

use vstd::prelude::*;

verus! {

/// Supported request methods.
#[derive(Debug, Clone, Copy, PartialEq, Eq, Structural)]
pub enum RequestKind {
    /// `info`: daemon version + mode.
    Info,
    /// `top`: top-N clients exceeding min thresholds.
    Top,
    /// `listClients`: list known clients and their policies/stats.
    ListClients,
    /// `throttle`: set manual throttle for a client.
    Throttle,
    /// `unthrottle`: clear manual throttle.
    Unthrottle,
    /// `block`: set manual block for a client.
    Block,
    /// `unblock`: clear manual block.
    Unblock,
    /// `listRules`: list loaded rules (read-only).
    ListRules,
}

/// Top-level request envelope: the method and its parameters.
#[derive(Debug, Clone, PartialEq, Eq)]
pub struct Request {
    /// Method selector.
    pub kind: RequestKind,
    /// Method parameters.
    pub params: Option<Params>,
}

impl Request {
    /// Construct a request with no params.
    pub fn new(kind: RequestKind) -> (r: Request)
        ensures
            r.kind == kind,
            r.params is None,
    {
        Request { kind, params: None }
    }

    /// Construct a request with params.
    pub fn with_params(kind: RequestKind, params: Params) -> (r: Request)
        ensures
            r.kind == kind,
            r.params == Some(params),
    {
        Request { kind, params: Some(params) }
    }
}

/// Top-level response envelope.
#[derive(Debug, Clone, PartialEq)]
pub struct Response {
    /// Method selector mirrored from the request.
    pub kind: RequestKind,
    /// Result on success.
    pub result: Option<ResultBody>,
    /// Error on failure.
    pub error: Option<ErrorBody>,
}

impl Response {
    /// Successful response.
    pub fn ok(kind: RequestKind, result: ResultBody) -> (r: Response)
        ensures
            r.kind == kind,
            r.result == Some(result),
            r.error is None,
    {
        Response { kind, result: Some(result), error: None }
    }

    /// Error response.
    pub fn err(kind: RequestKind, error: ErrorBody) -> (r: Response)
        ensures
            r.kind == kind,
            r.result is None,
            r.error == Some(error),
    {
        Response { kind, result: None, error: Some(error) }
    }
}

/// A typed error returned over the wire.
#[derive(Debug, Clone, PartialEq, Eq)]
pub struct ErrorBody {
    /// Machine-readable error code (`forbidden`, `notFound`, `invalid`, `busy`).
    pub code: String,
    /// Human-readable message.
    pub message: String,
}

impl ErrorBody {
    /// Construct an error body.
    pub fn new(code: &str, message: &str) -> (r: ErrorBody)
        ensures
            r.code@ == code@,
            r.message@ == message@,
    {
        ErrorBody { code: String::from_str(code), message: String::from_str(message) }
    }

    /// Forbidden (auth failure).
    pub fn forbidden(message: &str) -> (r: ErrorBody)
        ensures
            r.code@ == "forbidden"@,
            r.message@ == message@,
    {
        ErrorBody::new("forbidden", message)
    }

    /// Not found.
    pub fn not_found(message: &str) -> (r: ErrorBody)
        ensures
            r.code@ == "notFound"@,
            r.message@ == message@,
    {
        ErrorBody::new("notFound", message)
    }

    /// Invalid request.
    pub fn invalid(message: &str) -> (r: ErrorBody)
        ensures
            r.code@ == "invalid"@,
            r.message@ == message@,
    {
        ErrorBody::new("invalid", message)
    }

    /// Busy / contention.
    pub fn busy(message: &str) -> (r: ErrorBody)
        ensures
            r.code@ == "busy"@,
            r.message@ == message@,
    {
        ErrorBody::new("busy", message)
    }
}

/// Method parameters (tagged by request kind).
#[derive(Debug, Clone, PartialEq, Eq)]
pub enum Params {
    /// Arguments for [`RequestKind::Top`].
    Top(TopParams),
    /// Arguments for [`RequestKind::Throttle`].
    Throttle(ThrottleParams),
    /// Arguments for [`RequestKind::Unthrottle`] / [`RequestKind::Unblock`].
    Client(ClientParams),
    /// Arguments for [`RequestKind::Block`].
    Block(BlockParams),
}

/// `top` parameters.
#[derive(Debug, Clone, PartialEq, Eq)]
pub struct TopParams {
    /// Max clients to return.
    pub limit: usize,
    /// Optional rule id filter.
    pub rule_id: Option<String>,
    /// Optional protocol filter (`http`, `websocket`, `z21`, `withrottle`, `udp`, `tcp`).
    pub protocol: Option<String>,
    /// Optional metric filter (`requests`, `bytes`, `connections`).
    pub metric: Option<String>,
}

/// Client identity on the wire: `aa:bb:cc:dd:ee:ff` or `aa:bb:cc:dd:ee:ff@1.2.3.4`.
#[derive(Debug, Clone, PartialEq, Eq)]
pub struct ClientRef {
    /// MAC address string (`aa:bb:cc:dd:ee:ff`).
    pub mac: String,
    /// Optional IP address.
    pub ip: Option<String>,
}

/// Parameters that only carry a client ref.
#[derive(Debug, Clone, PartialEq, Eq)]
pub struct ClientParams {
    /// Target client.
    pub client: ClientRef,
}

/// `throttle` parameters.
#[derive(Debug, Clone, PartialEq, Eq)]
pub struct ThrottleParams {
    /// Target client.
    pub client: ClientRef,
    /// Drop rate 0..=100. Default 50 when omitted by the daemon.
    pub rate: Option<u8>,
    /// Duration in seconds; omitted = permanent.
    pub duration_secs: Option<u64>,
}

/// `block` parameters.
#[derive(Debug, Clone, PartialEq, Eq)]
pub struct BlockParams {
    /// Target client.
    pub client: ClientRef,
    /// Duration in seconds; omitted = permanent.
    pub duration_secs: Option<u64>,
}

/// Successful result body. `top` and `listClients` share one shape.
#[derive(Debug, Clone, PartialEq)]
pub enum ResultBody {
    /// `info` result.
    Info(InfoResult),
    /// `top` / `listClients` result (identical wire shape).
    Clients(ClientsResult),
    /// `listRules` result.
    Rules(RulesResult),
    /// Empty success (`throttle`/`unthrottle`/`block`/`unblock`).
    Empty(EmptyResult),
}

/// Empty success payload.
#[derive(Debug, Clone, Copy, PartialEq, Eq)]
pub struct EmptyResult {}

impl Default for EmptyResult {
    fn default() -> (r: EmptyResult) {
        EmptyResult {  }
    }
}

/// `info` result.
#[derive(Debug, Clone, PartialEq, Eq)]
pub struct InfoResult {
    /// Release version (`dev` when unset).
    pub version: String,
    /// Build git commit.
    pub commit: String,
    /// Build time (ISO-8601) when available.
    pub build_time: String,
    /// Run mode: `enforce` or `permissive`.
    pub mode: String,
    /// Network interface the daemon is attached to.
    pub interface: String,
}

/// Shared payload for `top` and `listClients`.
#[derive(Debug, Clone, PartialEq)]
pub struct ClientsResult {
    /// Clients.
    pub clients: Vec<ClientEntry>,
    /// `top` only: one column per matching rule (order matches `violations`).
    pub columns: Vec<TopColumn>,
}

/// `top` result (same wire shape as [`ClientsResult`]).
pub type TopResult = ClientsResult;

/// Column metadata for a `top` rule.
#[derive(Debug, Clone, PartialEq, Eq)]
pub struct TopColumn {
    /// Rule id (column header).
    pub rule_id: String,
    /// Window (`per-second` / `per-minute`) — display as `/s` or `/m`.
    pub window: String,
    /// Rule limit.
    pub limit: u64,
    /// Hot-band floor.
    pub min_threshold: u64,
}

/// A client row in `top` / `listClients`.
#[derive(Debug, Clone, PartialEq)]
pub struct ClientEntry {
    /// Client identity.
    pub client: ClientRef,
    /// Effective action currently applied (`throttle`/`block`/`none`).
    pub action: Option<ActionWire>,
    /// In permissive mode: the action that *would* have been applied.
    pub would_be_action: Option<ActionWire>,
    /// Per-rule windowed values aligned with the columns for `top` (includes zeros).
    pub violations: Vec<ViolationWire>,
    /// `top` only: client is in the hot band (some rule ≥ `minThreshold`).
    pub hot: bool,
    /// Optional diagnostic counters.
    pub stats: Option<ClientStatsWire>,
}

/// Wire representation of an action.
#[derive(Debug, Clone, Copy, PartialEq, Eq, Structural)]
pub enum ActionWire {
    /// Throttle with drop rate.
    Throttle {
        /// Drop percentage 0..=100.
        drop_rate: u8,
    },
    /// Full block.
    Block,
    /// No action (`none` on the wire).
    Pass,
}

/// A rule violation snapshot.
#[derive(Debug, Clone, PartialEq)]
pub struct ViolationWire {
    /// Rule id.
    pub rule_id: String,
    /// Observed windowed value.
    pub value: u64,
    /// Rule limit.
    pub limit: u64,
    /// Action prescribed by the rule.
    pub action: ActionWire,
}

/// Diagnostic client stats.
#[derive(Debug, Clone, Copy, PartialEq, Eq, Structural)]
pub struct ClientStatsWire {
    /// Cumulative requests across rules (diagnostic).
    pub requests: u64,
    /// Cumulative bytes across rules (diagnostic).
    pub bytes: u64,
    /// Cumulative connections across rules (diagnostic).
    pub connections: u64,
    /// WebSocket handshakes (diagnostic).
    pub ws_connections: u64,
}

impl Default for ClientStatsWire {
    fn default() -> (r: ClientStatsWire)
        ensures
            r == (ClientStatsWire { requests: 0, bytes: 0, connections: 0, ws_connections: 0 }),
    {
        ClientStatsWire { requests: 0, bytes: 0, connections: 0, ws_connections: 0 }
    }
}

/// `listRules` result.
#[derive(Debug, Clone, PartialEq, Eq)]
pub struct RulesResult {
    /// Loaded rules.
    pub rules: Vec<RuleWire>,
}

/// A rule as returned by `listRules`.
#[derive(Debug, Clone, PartialEq, Eq)]
pub struct RuleWire {
    /// Rule id.
    pub id: String,
    /// Protocol.
    pub protocol: String,
    /// Ports (empty = all for udp/tcp).
    pub ports: Vec<u16>,
    /// Metric.
    pub metric: String,
    /// Window.
    pub window: String,
    /// Limit.
    pub limit: u64,
    /// Action.
    pub action: ActionWire,
    /// Min threshold for `top`.
    pub min_threshold: u64,
    /// Optional CEL match expression (source text).
    pub matcher: Option<String>,
}

/// Largest accepted frame body, in bytes (1 MiB).
pub const MAX_FRAME_BYTES: usize = 1048576;

/// Framing errors.
#[derive(Debug, Clone, Copy, PartialEq, Eq, Structural)]
pub enum FrameError {
    /// Body longer than the limit.
    TooLarge {
        /// Body length.
        len: usize,
        /// Limit.
        max: usize,
    },
    /// The input ended inside the length prefix or the body.
    UnexpectedEof {
        /// Bytes present of the part being read.
        read: usize,
        /// Bytes that part needs.
        needed: usize,
    },
}

/// Little-endian value of the four bytes at `p[0..4]`.
pub open spec fn le32(p: Seq<u8>) -> int {
    p[0] + p[1] * 0x100 + p[2] * 0x1_0000 + p[3] * 0x100_0000
}

/// The four little-endian bytes of `n`.
pub open spec fn le32_bytes(n: int) -> Seq<u8> {
    seq![(n % 0x100) as u8, ((n / 0x100) % 0x100) as u8, ((n / 0x1_0000) % 0x100) as u8, ((n / 0x100_0000) % 0x100) as u8]
}

/// Append one frame (length prefix, then body) to `out`; a body over
/// [`MAX_FRAME_BYTES`] is refused and nothing is written.
pub fn write_frame(out: &mut Vec<u8>, body: &[u8]) -> (r: Result<(), FrameError>)
    ensures
        body@.len() > MAX_FRAME_BYTES ==> r == Err::<(), FrameError>(
            FrameError::TooLarge { len: body@.len() as usize, max: MAX_FRAME_BYTES },
        ) && final(out)@ == old(out)@,
        body@.len() <= MAX_FRAME_BYTES ==> r is Ok && final(out)@ == old(out)@ + le32_bytes(body@.len() as int)
            + body@,
{
    let n = body.len();
    if n > MAX_FRAME_BYTES {
        return Err(FrameError::TooLarge { len: n, max: MAX_FRAME_BYTES });
    }
    let ghost o0 = out@;
    let n32 = n as u32;
    out.push((n32 % 0x100) as u8);
    out.push(((n32 / 0x100) % 0x100) as u8);
    out.push(((n32 / 0x1_0000) % 0x100) as u8);
    out.push(((n32 / 0x100_0000) % 0x100) as u8);
    assert(out@ =~= o0 + le32_bytes(n as int));
    let mut i: usize = 0;
    while i < n
        invariant
            n == body@.len(),
            i <= n,
            out@ == o0 + le32_bytes(n as int) + body@.subrange(0, i as int),
        decreases n - i,
    {
        out.push(body[i]);
        i = i + 1;
        assert(out@ =~= o0 + le32_bytes(n as int) + body@.subrange(0, i as int));
    }
    assert(body@.subrange(0, n as int) =~= body@);
    Ok(())
}

/// Read one frame from the start of `input`: the body and the number of
/// bytes the frame took. Fewer than four bytes, or fewer body bytes than
/// the prefix declares, is an unexpected end; a declared length over
/// [`MAX_FRAME_BYTES`] is refused before the body is read.
pub fn read_frame(input: &[u8]) -> (r: Result<(Vec<u8>, usize), FrameError>)
    ensures
        input@.len() < 4 ==> r == Err::<(Vec<u8>, usize), FrameError>(
            FrameError::UnexpectedEof { read: input@.len() as usize, needed: 4 },
        ),
        input@.len() >= 4 && le32(input@) > MAX_FRAME_BYTES ==> r == Err::<(Vec<u8>, usize), FrameError>(
            FrameError::TooLarge { len: le32(input@) as usize, max: MAX_FRAME_BYTES },
        ),
        input@.len() >= 4 && le32(input@) <= MAX_FRAME_BYTES && input@.len() - 4 < le32(input@) ==> r == Err::<
            (Vec<u8>, usize),
            FrameError,
        >(FrameError::UnexpectedEof { read: (input@.len() - 4) as usize, needed: le32(input@) as usize }),
        input@.len() >= 4 && le32(input@) <= MAX_FRAME_BYTES && input@.len() - 4 >= le32(input@) ==> (r matches Ok(
            (body, used),
        ) && used == 4 + le32(input@) && body@ == input@.subrange(4, 4 + le32(input@))),
{
    let n = input.len();
    if n < 4 {
        return Err(FrameError::UnexpectedEof { read: n, needed: 4 });
    }
    let len: u64 = input[0] as u64 + input[1] as u64 * 0x100 + input[2] as u64 * 0x1_0000 + input[3] as u64
        * 0x100_0000;
    if len > MAX_FRAME_BYTES as u64 {
        return Err(FrameError::TooLarge { len: len as usize, max: MAX_FRAME_BYTES });
    }
    let len = len as usize;
    if n - 4 < len {
        return Err(FrameError::UnexpectedEof { read: n - 4, needed: len });
    }
    let mut body: Vec<u8> = Vec::new();
    let mut i: usize = 0;
    while i < len
        invariant
            n == input@.len(),
            4 + len <= n,
            i <= len,
            body@ == input@.subrange(4, 4 + i),
        decreases len - i,
    {
        body.push(input[4 + i]);
        i = i + 1;
    }
    Ok((body, 4 + len))
}

/// Reading a written frame gives its body back, and the frame's length.
pub proof fn lemma_frame_round_trip(body: Seq<u8>, rest: Seq<u8>)
    requires
        body.len() <= MAX_FRAME_BYTES,
    ensures
        ({
            let framed = le32_bytes(body.len() as int) + body + rest;
            &&& framed.len() >= 4
            &&& le32(framed) == body.len()
            &&& framed.subrange(4, 4 + body.len() as int) == body
        }),
{
    let n = body.len() as int;
    let framed = le32_bytes(n) + body + rest;
    assert(framed[0] == (n % 0x100) as u8);
    assert(framed[1] == ((n / 0x100) % 0x100) as u8);
    assert(framed[2] == ((n / 0x1_0000) % 0x100) as u8);
    assert(framed[3] == ((n / 0x100_0000) % 0x100) as u8);
    assert(le32(framed) == n) by (nonlinear_arith)
        requires
            0 <= n <= MAX_FRAME_BYTES,
            framed[0] == (n % 0x100) as u8,
            framed[1] == ((n / 0x100) % 0x100) as u8,
            framed[2] == ((n / 0x1_0000) % 0x100) as u8,
            framed[3] == ((n / 0x100_0000) % 0x100) as u8,
            le32(framed) == framed[0] + framed[1] * 0x100 + framed[2] * 0x1_0000 + framed[3] * 0x100_0000,
    ;
    assert(framed.subrange(4, 4 + n) =~= body);
}

} // verus!
