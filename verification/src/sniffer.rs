//! Frame dispatch: the counter bumps one captured frame causes, through the
//! generic TCP/UDP rules, the L7 detectors and each rule's CEL match.

use chrono::{Datelike, Timelike};
use vstd::prelude::*;
use vstd::utf8::encode_utf8;

use crate::cel_match::{
    bind, binding_view, cel_verdict, copy_bytes, copy_pairs, eval_match, eval_vars, set_view, text_pair, vars_of, CelVar,
    CtxValue, CtxView, MatchContext,
};
use crate::client::{ip_text, ip_to_string, mac_text, ClientId, IpAddr};
use crate::config::SetsConfig;
use crate::counters::{apply_bumps, Bump, BumpView, CumulativeCounters, Triple};
use crate::daemon::DaemonState;
use crate::http::{detect_http_request, http_request, HttpView};
use crate::packet::{
    be32, be32_of, flow_step, frame_head, lemma_observe_settles, live_flows, parse_frame, FlowKey, FlowTable, FrameHead,
    Transport, WsConns, WsKey, IPPROTO_TCP, IPPROTO_UDP,
};
use crate::rule::{matching_indices, Metric, Protocol, Rule, RuleSet};
use crate::withrottle::{detect_withrottle_lines, withrottle_lines, WithrottleLine, WithrottleView};
use crate::ws::{detect_ws_frame, ws_frame, WsFrameHeader};
use crate::z21::{detect_z21_records, z21_records, Z21Record, Z21View};

verus! {

/// Wall-clock fields of a match context.
#[derive(Debug, Clone, Copy, PartialEq, Eq)]
pub struct Clock {
    /// Seconds since the Unix epoch.
    pub epoch: i64,
    /// Hour of the day (UTC).
    pub hour: u32,
    /// Day of the week (UTC), Sunday = 0.
    pub dow: u32,
}

/// `chrono::Utc::now()`, read as seconds since the epoch, hour of the day
/// and day of the week counted from Sunday. Of the time itself nothing is
/// stated; of the hour and the day, their ranges.
#[verifier::external_body]
fn wall_clock() -> (r: Clock)
    ensures
        r.hour < 24,
        r.dow < 7,
{
    let now = chrono::Utc::now();
    Clock { epoch: now.timestamp(), hour: now.hour(), dow: now.weekday().num_days_from_sunday() }
}

/// A rule admits an evaluation context: it has no match expression, or the
/// expression yields `true` there.
pub open spec fn admits(rule: Rule, vars: Map<Seq<char>, CelVar>) -> bool {
    match rule.matcher {
        None => true,
        Some(p) => cel_verdict(p.text(), vars),
    }
}

/// Whether `rule` admits the context.
pub fn match_ok(rule: &Rule, ctx: &MatchContext) -> (r: bool)
    ensures
        r == admits(*rule, eval_vars(*ctx)),
{
    match &rule.matcher {
        None => true,
        Some(p) => eval_match(p, ctx),
    }
}

/// Bindings every context starts with: client MAC and IP, destination port
/// and the clock.
pub open spec fn common_bindings(client: ClientId, port: u16, clock: Clock) -> Seq<(Seq<char>, CtxView)> {
    let s1 = bind(Seq::empty(), "client.mac"@, CtxView::Str(mac_text(client.mac@)));
    let s2 = bind(s1, "client.ip"@, CtxView::Str(ip_text(client.ip)));
    let s3 = bind(s2, "port"@, CtxView::Int(port as i64));
    let s4 = bind(s3, "time.epoch"@, CtxView::Int(clock.epoch));
    let s5 = bind(s4, "time.hour"@, CtxView::Int(clock.hour as i64));
    bind(s5, "time.dow"@, CtxView::Int(clock.dow as i64))
}

/// The named sets as plain values.
pub open spec fn sets_view(sets: SetsConfig) -> Seq<(Seq<char>, Seq<Seq<char>>)> {
    sets.sets@.map_values(|e: (String, Vec<String>)| set_view(e))
}

/// Bindings view of a context.
pub open spec fn ctx_bindings(c: MatchContext) -> Seq<(Seq<char>, CtxView)> {
    c.bindings@.map_values(|f: (String, CtxValue)| binding_view(f))
}

/// Sets view of a context.
pub open spec fn ctx_sets(c: MatchContext) -> Seq<(Seq<char>, Seq<Seq<char>>)> {
    c.sets@.map_values(|e: (String, Vec<String>)| set_view(e))
}

/// The context every rule is evaluated in before protocol fields are added.
pub fn common_ctx_at(client: &ClientId, port: u16, sets: &SetsConfig, clock: &Clock) -> (r: MatchContext)
    ensures
        r.wf(),
        ctx_bindings(r) == common_bindings(*client, port, *clock),
        ctx_sets(r) == sets_view(*sets),
{
    let mut ctx = MatchContext::new();
    assert(ctx_bindings(ctx) =~= Seq::<(Seq<char>, CtxView)>::empty());
    let mac = client.mac_string();
    ctx.set_str("client.mac", mac.as_str());
    let ip = ip_to_string(&client.ip);
    ctx.set_str("client.ip", ip.as_str());
    ctx.set_int("port", port as i64);
    ctx.set_int("time.epoch", clock.epoch);
    ctx.set_int("time.hour", clock.hour as i64);
    ctx.set_int("time.dow", clock.dow as i64);
    let dup = sets.duplicate();
    ctx.sets = dup.sets;
    assert(ctx_sets(ctx) =~= sets_view(*sets));
    ctx
}

/// A bump of `rule`'s `metric` counter.
pub open spec fn rule_bump(rule: Rule, metric: Metric, amount: u64) -> BumpView {
    BumpView::Rule { rule_id: rule.id@, metric, amount }
}

/// Some of the first `n` selected rules counts connections.
pub open spec fn has_conn_rule(rules: Seq<Rule>, idx: Seq<usize>, n: int) -> bool {
    exists|j: int| 0 <= j < n && rules[idx[j] as int].metric == Metric::Connections
}

/// Bumps of the first `n` selected TCP/UDP rules: the first connections
/// rule counts a new flow (`fresh`, and `conn_ok`: a SYN for TCP) that it
/// admits; a bytes rule counts a non-empty payload that it admits.
pub open spec fn l4_bumps(
    rules: Seq<Rule>,
    idx: Seq<usize>,
    n: int,
    conn_ok: bool,
    fresh: bool,
    vars: Map<Seq<char>, CelVar>,
    byte_len: u64,
) -> Seq<BumpView>
    decreases n,
{
    if n <= 0 {
        Seq::empty()
    } else {
        let prev = l4_bumps(rules, idx, n - 1, conn_ok, fresh, vars, byte_len);
        let r = rules[idx[n - 1] as int];
        if r.metric == Metric::Connections && conn_ok && fresh && !has_conn_rule(rules, idx, n - 1) && admits(r, vars) {
            prev.push(rule_bump(r, Metric::Connections, 1))
        } else if r.metric == Metric::Bytes && byte_len > 0 && admits(r, vars) {
            prev.push(rule_bump(r, Metric::Bytes, byte_len))
        } else {
            prev
        }
    }
}

/// Bumps of one rule for the first `m` parsed units (each a context and a
/// byte amount): one request, or the unit's bytes, per admitted unit.
pub open spec fn item_bumps(r: Rule, items: Seq<(Map<Seq<char>, CelVar>, u64)>, m: int) -> Seq<BumpView>
    decreases m,
{
    if m <= 0 {
        Seq::empty()
    } else {
        let prev = item_bumps(r, items, m - 1);
        if admits(r, items[m - 1].0) && r.metric == Metric::Requests {
            prev.push(rule_bump(r, Metric::Requests, 1))
        } else if admits(r, items[m - 1].0) && r.metric == Metric::Bytes {
            prev.push(rule_bump(r, Metric::Bytes, items[m - 1].1))
        } else {
            prev
        }
    }
}

/// Bumps of the first `n` selected rules for all parsed units, rule by rule.
pub open spec fn parsed_bumps(
    rules: Seq<Rule>,
    idx: Seq<usize>,
    n: int,
    items: Seq<(Map<Seq<char>, CelVar>, u64)>,
) -> Seq<BumpView>
    decreases n,
{
    if n <= 0 {
        Seq::empty()
    } else {
        parsed_bumps(rules, idx, n - 1, items) + item_bumps(rules[idx[n - 1] as int], items, items.len() as int)
    }
}

/// The units of a list of contexts and amounts.
pub open spec fn items_of(ctxs: Seq<MatchContext>, amounts: Seq<u64>) -> Seq<(Map<Seq<char>, CelVar>, u64)> {
    Seq::new(ctxs.len(), |j: int| (eval_vars(ctxs[j]), amounts[j]))
}

/// Context of a WebSocket frame.
pub open spec fn ws_bindings(c: Seq<(Seq<char>, CtxView)>, fr: WsFrameHeader) -> Seq<(Seq<char>, CtxView)> {
    bind(
        bind(bind(c, "frame.fin"@, CtxView::Bool(fr.fin)), "frame.opcode"@, CtxView::Int(fr.opcode as i64)),
        "frame.payloadLen"@,
        CtxView::Int(fr.payload_len as i64),
    )
}

/// Context of an HTTP request: method, path, query and the headers as a map.
pub open spec fn http_bindings(c: Seq<(Seq<char>, CtxView)>, h: HttpView) -> Seq<(Seq<char>, CtxView)> {
    bind(
        bind(
            bind(bind(c, "request.method"@, CtxView::Str(h.method)), "request.path"@, CtxView::Str(h.path)),
            "request.query"@,
            CtxView::Str(h.query),
        ),
        "request.headers"@,
        CtxView::StrMap(h.headers),
    )
}

/// Context of a WiThrottle line.
pub open spec fn wt_bindings(c: Seq<(Seq<char>, CtxView)>, l: WithrottleView) -> Seq<(Seq<char>, CtxView)> {
    bind(
        bind(bind(c, "withrottle.prefix"@, CtxView::Str(l.prefix)), "withrottle.throttle"@, CtxView::Str(l.throttle)),
        "withrottle.command"@,
        CtxView::Str(l.command),
    )
}

/// Context of a Z21 record: header, X-header, length and data.
pub open spec fn z21_bindings(c: Seq<(Seq<char>, CtxView)>, r: Z21View) -> Seq<(Seq<char>, CtxView)> {
    bind(
        bind(
            bind(bind(c, "z21.header"@, CtxView::Int(r.header as i64)), "z21.xheader"@, CtxView::Int(r.xheader as i64)),
            "z21.dataLen"@,
            CtxView::Int(r.data_len as i64),
        ),
        "z21.data"@,
        CtxView::Bytes(r.data),
    )
}

/// What one frame does: whose counters it bumps and how, which flow it
/// observes, and which connection it marks as WebSocket.
pub struct FrameOutcome {
    /// The frame's client (source MAC and IPv4 source).
    pub client: ClientId,
    /// Counter bumps, in order.
    pub bumps: Seq<BumpView>,
    /// The flow observed in the flow table, if any.
    pub observed: Option<FlowKey>,
    /// The connection marked as WebSocket, if any.
    pub ws_mark: Option<WsKey>,
}

/// The client of a frame.
pub open spec fn head_client(head: FrameHead) -> ClientId {
    ClientId { mac: head.mac, ip: IpAddr::V4(head.src) }
}

/// Outcome of a TCP frame: the generic TCP rules, then on a WebSocket
/// connection its frame rules; else an HTTP request (an upgrade marks the
/// connection and counts a handshake; otherwise the HTTP rules); else the
/// WiThrottle rules, per line.
pub open spec fn tcp_outcome(
    f: Seq<u8>,
    head: FrameHead,
    sport: u16,
    dport: u16,
    syn: bool,
    rules: Seq<Rule>,
    sv: Seq<(Seq<char>, Seq<Seq<char>>)>,
    clock: Clock,
    now: u64,
    flows: Map<FlowKey, u64>,
    ws: Set<WsKey>,
) -> FrameOutcome {
    let client = head_client(head);
    let p = f.subrange(head.payload_at as int, f.len() as int);
    let byte_len = p.len() as u64;
    let common = common_bindings(client, dport, clock);
    let key = FlowKey { src: be32(head.src), sport, dst: be32(head.dst), dport, proto: IPPROTO_TCP };
    let idx = matching_indices(rules, Protocol::Tcp, dport, rules.len() as int);
    let gen = l4_bumps(
        rules,
        idx,
        idx.len() as int,
        syn,
        !live_flows(flows, now).contains_key(key),
        vars_of(common, sv),
        byte_len,
    );
    let observed = if syn && has_conn_rule(rules, idx, idx.len() as int) {
        Some(key)
    } else {
        None
    };
    let wk = WsKey { src: key.src, sport, dst: key.dst, dport };
    if ws.contains(wk) {
        let widx = matching_indices(rules, Protocol::WebSocket, dport, rules.len() as int);
        let more = match ws_frame(p) {
            Some(fr) => parsed_bumps(rules, widx, widx.len() as int, seq![(vars_of(ws_bindings(common, fr), sv), byte_len)]),
            None => Seq::empty(),
        };
        FrameOutcome { client, bumps: gen + more, observed, ws_mark: None }
    } else {
        match http_request(p) {
            Some(h) => if h.upgrade_ws {
                FrameOutcome { client, bumps: gen.push(BumpView::WsHandshake), observed, ws_mark: Some(wk) }
            } else {
                let hidx = matching_indices(rules, Protocol::Http, dport, rules.len() as int);
                let items = seq![(vars_of(http_bindings(common, h), sv), byte_len)];
                FrameOutcome { client, bumps: gen + parsed_bumps(rules, hidx, hidx.len() as int, items), observed, ws_mark: None }
            },
            None => {
                let tidx = matching_indices(rules, Protocol::Withrottle, dport, rules.len() as int);
                let items = withrottle_lines(p).map_values(
                    |l: WithrottleView| (vars_of(wt_bindings(common, l), sv), (encode_utf8(l.command).len() as usize) as u64),
                );
                FrameOutcome { client, bumps: gen + parsed_bumps(rules, tidx, tidx.len() as int, items), observed, ws_mark: None }
            },
        }
    }
}

/// Outcome of a UDP frame: the generic UDP rules, then the Z21 rules, per record.
pub open spec fn udp_outcome(
    f: Seq<u8>,
    head: FrameHead,
    sport: u16,
    dport: u16,
    rules: Seq<Rule>,
    sv: Seq<(Seq<char>, Seq<Seq<char>>)>,
    clock: Clock,
    now: u64,
    flows: Map<FlowKey, u64>,
) -> FrameOutcome {
    let client = head_client(head);
    let p = f.subrange(head.payload_at as int, f.len() as int);
    let byte_len = p.len() as u64;
    let common = common_bindings(client, dport, clock);
    let key = FlowKey { src: be32(head.src), sport, dst: be32(head.dst), dport, proto: IPPROTO_UDP };
    let idx = matching_indices(rules, Protocol::Udp, dport, rules.len() as int);
    let gen = l4_bumps(
        rules,
        idx,
        idx.len() as int,
        true,
        !live_flows(flows, now).contains_key(key),
        vars_of(common, sv),
        byte_len,
    );
    let observed = if has_conn_rule(rules, idx, idx.len() as int) {
        Some(key)
    } else {
        None
    };
    let zidx = matching_indices(rules, Protocol::Z21, dport, rules.len() as int);
    let items = z21_records(p, 0).map_values(|r: Z21View| (vars_of(z21_bindings(common, r), sv), r.data_len as u64));
    FrameOutcome { client, bumps: gen + parsed_bumps(rules, zidx, zidx.len() as int, items), observed, ws_mark: None }
}

/// Outcome of a frame; `None` when it is not IPv4 TCP/UDP with complete headers.
pub open spec fn frame_outcome(
    f: Seq<u8>,
    rules: Seq<Rule>,
    sv: Seq<(Seq<char>, Seq<Seq<char>>)>,
    clock: Clock,
    now: u64,
    flows: Map<FlowKey, u64>,
    ws: Set<WsKey>,
) -> Option<FrameOutcome> {
    match frame_head(f) {
        None => None,
        Some(h) => match h.transport {
            Transport::Tcp { sport, dport, syn } => Some(tcp_outcome(f, h, sport, dport, syn, rules, sv, clock, now, flows, ws)),
            Transport::Udp { sport, dport } => Some(udp_outcome(f, h, sport, dport, rules, sv, clock, now, flows)),
        },
    }
}

/// The flow table after an outcome.
pub open spec fn flows_after(o: FrameOutcome, old: Map<FlowKey, u64>, now: u64, new: Map<FlowKey, u64>) -> bool {
    match o.observed {
        Some(k) => flow_step(old, k, now, new),
        None => new == old,
    }
}

/// The WebSocket connections after an outcome.
pub open spec fn ws_after(o: FrameOutcome, old: Set<WsKey>) -> Set<WsKey> {
    match o.ws_mark {
        Some(k) => old.insert(k),
        None => old,
    }
}

/// Views of a list of bumps.
pub open spec fn bump_views(v: Seq<Bump>) -> Seq<BumpView> {
    v.map_values(|b: Bump| b@)
}

/// Bumps of the `protocol` rules selecting `key.dport`, in rule order: a
/// connections rule observes the flow (when `conn_ok`) and counts it when it
/// is new and admitted; a bytes rule counts a non-empty payload it admits.
fn l4_rule_bumps(
    rules: &RuleSet,
    protocol: Protocol,
    conn_ok: bool,
    key: FlowKey,
    now: u64,
    ctx: &MatchContext,
    byte_len: u64,
    flows: &mut FlowTable,
    out: &mut Vec<Bump>,
)
    ensures
        ({
            let idx = matching_indices(rules.rules@, protocol, key.dport, rules.rules@.len() as int);
            &&& bump_views(final(out)@) == bump_views(old(out)@) + l4_bumps(
                rules.rules@,
                idx,
                idx.len() as int,
                conn_ok,
                !live_flows(old(flows).contents(), now).contains_key(key),
                eval_vars(*ctx),
                byte_len,
            )
            &&& if conn_ok && has_conn_rule(rules.rules@, idx, idx.len() as int) {
                flow_step(old(flows).contents(), key, now, final(flows).contents())
            } else {
                final(flows).contents() == old(flows).contents()
            }
        }),
{
    let idx = rules.matching(protocol, key.dport);
    let ghost rs = rules.rules@;
    let ghost f0 = flows.contents();
    let ghost fresh = !live_flows(f0, now).contains_key(key);
    let ghost vars = eval_vars(*ctx);
    let ghost o0 = bump_views(out@);
    let mut i: usize = 0;
    while i < idx.len()
        invariant
            i <= idx@.len(),
            rs == rules.rules@,
            idx@ == matching_indices(rs, protocol, key.dport, rs.len() as int),
            forall|j: int| 0 <= j < idx@.len() ==> idx@[j] < rs.len(),
            vars == eval_vars(*ctx),
            fresh == !live_flows(f0, now).contains_key(key),
            bump_views(out@) == o0 + l4_bumps(rs, idx@, i as int, conn_ok, fresh, vars, byte_len),
            if conn_ok && has_conn_rule(rs, idx@, i as int) {
                flow_step(f0, key, now, flows.contents())
            } else {
                flows.contents() == f0
            },
        decreases idx@.len() - i,
    {
        let rule = &rules.rules[idx[i]];
        let ghost before = has_conn_rule(rs, idx@, i as int);
        let ghost ob = bump_views(out@);
        proof {
            if before {
                let j = choose|j: int| 0 <= j < i && rs[idx@[j] as int].metric == Metric::Connections;
                assert(has_conn_rule(rs, idx@, i + 1));
            }
            if rs[idx@[i as int] as int].metric == Metric::Connections {
                assert(has_conn_rule(rs, idx@, i + 1));
            }
            if has_conn_rule(rs, idx@, i + 1) && rs[idx@[i as int] as int].metric != Metric::Connections {
                let j = choose|j: int| 0 <= j < i + 1 && rs[idx@[j] as int].metric == Metric::Connections;
                assert(before);
            }
        }
        let mut pushed = false;
        if rule.metric == Metric::Connections && conn_ok {
            let ghost fcur = flows.contents();
            proof {
                if before {
                    lemma_observe_settles(f0, key, now, fcur);
                }
            }
            let is_new = flows.observe(key, now);
            proof {
                if before {
                    assert(flows.contents() =~= fcur);
                }
            }
            if is_new && match_ok(rule, ctx) {
                out.push(Bump::Rule { rule_id: rule.id.clone(), metric: Metric::Connections, amount: 1 });
                pushed = true;
            }
        }
        if rule.metric == Metric::Bytes && byte_len > 0 && match_ok(rule, ctx) {
            out.push(Bump::Rule { rule_id: rule.id.clone(), metric: Metric::Bytes, amount: byte_len });
            pushed = true;
        }
        proof {
            if pushed {
                assert(bump_views(out@) =~= ob.push(out@.last()@));
            } else {
                assert(bump_views(out@) =~= ob);
            }
            assert(bump_views(out@) =~= o0 + l4_bumps(rs, idx@, i + 1, conn_ok, fresh, vars, byte_len));
        }
        i = i + 1;
    }
}

/// Bumps of the `protocol` rules selecting `port`, rule by rule, for each
/// parsed unit (a context and a byte amount).
fn parsed_rule_bumps(
    rules: &RuleSet,
    protocol: Protocol,
    port: u16,
    ctxs: &Vec<MatchContext>,
    amounts: &Vec<u64>,
    out: &mut Vec<Bump>,
)
    requires
        ctxs@.len() == amounts@.len(),
    ensures
        ({
            let idx = matching_indices(rules.rules@, protocol, port, rules.rules@.len() as int);
            bump_views(final(out)@) == bump_views(old(out)@) + parsed_bumps(
                rules.rules@,
                idx,
                idx.len() as int,
                items_of(ctxs@, amounts@),
            )
        }),
{
    let idx = rules.matching(protocol, port);
    let ghost rs = rules.rules@;
    let ghost items = items_of(ctxs@, amounts@);
    let ghost o0 = bump_views(out@);
    let mut i: usize = 0;
    while i < idx.len()
        invariant
            i <= idx@.len(),
            rs == rules.rules@,
            ctxs@.len() == amounts@.len(),
            items == items_of(ctxs@, amounts@),
            idx@ == matching_indices(rs, protocol, port, rs.len() as int),
            forall|j: int| 0 <= j < idx@.len() ==> idx@[j] < rs.len(),
            bump_views(out@) == o0 + parsed_bumps(rs, idx@, i as int, items),
        decreases idx@.len() - i,
    {
        let rule = &rules.rules[idx[i]];
        let ghost o1 = bump_views(out@);
        let mut j: usize = 0;
        while j < ctxs.len()
            invariant
                j <= ctxs@.len(),
                ctxs@.len() == amounts@.len(),
                items == items_of(ctxs@, amounts@),
                *rule == rs[idx@[i as int] as int],
                bump_views(out@) == o1 + item_bumps(*rule, items, j as int),
            decreases ctxs@.len() - j,
        {
            let ghost ob = bump_views(out@);
            let ok = match_ok(rule, &ctxs[j]);
            if ok && rule.metric == Metric::Requests {
                out.push(Bump::Rule { rule_id: rule.id.clone(), metric: Metric::Requests, amount: 1 });
                assert(bump_views(out@) =~= ob.push(out@.last()@));
            } else if ok && rule.metric == Metric::Bytes {
                out.push(Bump::Rule { rule_id: rule.id.clone(), metric: Metric::Bytes, amount: amounts[j] });
                assert(bump_views(out@) =~= ob.push(out@.last()@));
            }
            assert(bump_views(out@) =~= o1 + item_bumps(*rule, items, j + 1));
            j = j + 1;
        }
        assert(bump_views(out@) =~= o0 + parsed_bumps(rs, idx@, i + 1, items));
        i = i + 1;
    }
}

/// Bumps, flow observation and WebSocket marking of a TCP frame.
fn tcp_frame_bumps(
    frame: &[u8],
    head: &FrameHead,
    sport: u16,
    dport: u16,
    syn: bool,
    rules: &RuleSet,
    sets: &SetsConfig,
    clock: &Clock,
    now: u64,
    flows: &mut FlowTable,
    ws: &mut WsConns,
) -> (r: Vec<Bump>)
    requires
        head.payload_at <= frame@.len(),
    ensures
        ({
            let o = tcp_outcome(
                frame@,
                *head,
                sport,
                dport,
                syn,
                rules.rules@,
                sets_view(*sets),
                *clock,
                now,
                old(flows).contents(),
                old(ws).contents(),
            );
            &&& bump_views(r@) == o.bumps
            &&& flows_after(o, old(flows).contents(), now, final(flows).contents())
            &&& final(ws).contents() == ws_after(o, old(ws).contents())
        }),
{
    let client = ClientId::new(head.mac, IpAddr::V4(head.src));
    let payload = vstd::slice::slice_subrange(frame, head.payload_at, frame.len());
    let byte_len = payload.len() as u64;
    let ghost p = payload@;
    let ghost common = common_bindings(client, dport, *clock);
    let ghost sv = sets_view(*sets);
    let key = FlowKey { src: be32_of(head.src), sport, dst: be32_of(head.dst), dport, proto: IPPROTO_TCP };
    let mut out: Vec<Bump> = Vec::new();
    let ctx = common_ctx_at(&client, dport, sets, clock);
    assert(bump_views(out@) =~= Seq::<BumpView>::empty());
    l4_rule_bumps(rules, Protocol::Tcp, syn, key, now, &ctx, byte_len, flows, &mut out);
    let ghost gen = bump_views(out@);
    let wk = WsKey { src: key.src, sport, dst: key.dst, dport };
    if ws.contains(&wk) {
        match detect_ws_frame(payload) {
            Some(fr) => {
                let mut c = common_ctx_at(&client, dport, sets, clock);
                c.set_bool("frame.fin", fr.fin);
                c.set_int("frame.opcode", fr.opcode as i64);
                c.set_int("frame.payloadLen", fr.payload_len as i64);
                let mut ctxs: Vec<MatchContext> = Vec::new();
                ctxs.push(c);
                let mut amounts: Vec<u64> = Vec::new();
                amounts.push(byte_len);
                assert(items_of(ctxs@, amounts@) =~= seq![(vars_of(ws_bindings(common, fr), sv), byte_len)]);
                parsed_rule_bumps(rules, Protocol::WebSocket, dport, &ctxs, &amounts, &mut out);
            },
            None => {
                assert(bump_views(out@) =~= gen + Seq::<BumpView>::empty());
            },
        }
        return out;
    }
    match detect_http_request(payload) {
        Some(h) => {
            if h.upgrade_ws {
                ws.mark(wk);
                out.push(Bump::WsHandshake);
                assert(bump_views(out@) =~= gen.push(BumpView::WsHandshake));
                return out;
            }
            let mut c = common_ctx_at(&client, dport, sets, clock);
            c.set_str("request.method", h.method.as_str());
            c.set_str("request.path", h.path.as_str());
            c.set_str("request.query", h.query.as_str());
            let hv = copy_pairs(&h.headers);
            c.set_value("request.headers", CtxValue::StrMap(hv));
            let mut ctxs: Vec<MatchContext> = Vec::new();
            ctxs.push(c);
            let mut amounts: Vec<u64> = Vec::new();
            amounts.push(byte_len);
            assert(h@.headers =~= hv@.map_values(|p: (String, String)| text_pair(p)));
            assert(items_of(ctxs@, amounts@) =~= seq![(vars_of(http_bindings(common, h@), sv), byte_len)]);
            parsed_rule_bumps(rules, Protocol::Http, dport, &ctxs, &amounts, &mut out);
            return out;
        },
        None => {},
    }
    let lines = detect_withrottle_lines(payload);
    let ghost lv = lines@.map_values(|l: WithrottleLine| l@);
    let mut ctxs: Vec<MatchContext> = Vec::new();
    let mut amounts: Vec<u64> = Vec::new();
    let mut j: usize = 0;
    while j < lines.len()
        invariant
            j <= lines@.len(),
            ctxs@.len() == j,
            amounts@.len() == j,
            lv == lines@.map_values(|l: WithrottleLine| l@),
            common == common_bindings(client, dport, *clock),
            sv == sets_view(*sets),
            forall|q: int| 0 <= q < j ==> eval_vars(#[trigger] ctxs@[q]) == vars_of(wt_bindings(common, lv[q]), sv)
                && amounts@[q] == (encode_utf8(lv[q].command).len() as usize) as u64,
        decreases lines@.len() - j,
    {
        let mut c = common_ctx_at(&client, dport, sets, clock);
        c.set_str("withrottle.prefix", lines[j].prefix.as_str());
        c.set_str("withrottle.throttle", lines[j].throttle.as_str());
        c.set_str("withrottle.command", lines[j].command.as_str());
        ctxs.push(c);
        amounts.push(lines[j].command.as_str().len() as u64);
        j = j + 1;
    }
    assert(items_of(ctxs@, amounts@) =~= lv.map_values(
        |l: WithrottleView| (vars_of(wt_bindings(common, l), sv), (encode_utf8(l.command).len() as usize) as u64),
    ));
    parsed_rule_bumps(rules, Protocol::Withrottle, dport, &ctxs, &amounts, &mut out);
    out
}

/// Bumps and flow observation of a UDP frame.
fn udp_frame_bumps(
    frame: &[u8],
    head: &FrameHead,
    sport: u16,
    dport: u16,
    rules: &RuleSet,
    sets: &SetsConfig,
    clock: &Clock,
    now: u64,
    flows: &mut FlowTable,
) -> (r: Vec<Bump>)
    requires
        head.payload_at <= frame@.len(),
    ensures
        ({
            let o = udp_outcome(frame@, *head, sport, dport, rules.rules@, sets_view(*sets), *clock, now, old(flows).contents());
            &&& bump_views(r@) == o.bumps
            &&& flows_after(o, old(flows).contents(), now, final(flows).contents())
        }),
{
    let client = ClientId::new(head.mac, IpAddr::V4(head.src));
    let payload = vstd::slice::slice_subrange(frame, head.payload_at, frame.len());
    let byte_len = payload.len() as u64;
    let ghost common = common_bindings(client, dport, *clock);
    let ghost sv = sets_view(*sets);
    let key = FlowKey { src: be32_of(head.src), sport, dst: be32_of(head.dst), dport, proto: IPPROTO_UDP };
    let mut out: Vec<Bump> = Vec::new();
    let ctx = common_ctx_at(&client, dport, sets, clock);
    assert(bump_views(out@) =~= Seq::<BumpView>::empty());
    l4_rule_bumps(rules, Protocol::Udp, true, key, now, &ctx, byte_len, flows, &mut out);
    let recs = detect_z21_records(payload);
    let ghost rv = recs@.map_values(|x: Z21Record| x@);
    let mut ctxs: Vec<MatchContext> = Vec::new();
    let mut amounts: Vec<u64> = Vec::new();
    let mut j: usize = 0;
    while j < recs.len()
        invariant
            j <= recs@.len(),
            ctxs@.len() == j,
            amounts@.len() == j,
            rv == recs@.map_values(|x: Z21Record| x@),
            common == common_bindings(client, dport, *clock),
            sv == sets_view(*sets),
            forall|q: int| 0 <= q < j ==> eval_vars(#[trigger] ctxs@[q]) == vars_of(z21_bindings(common, rv[q]), sv)
                && amounts@[q] == rv[q].data_len as u64,
        decreases recs@.len() - j,
    {
        let mut c = common_ctx_at(&client, dport, sets, clock);
        c.set_int("z21.header", recs[j].header as i64);
        c.set_int("z21.xheader", recs[j].xheader as i64);
        c.set_int("z21.dataLen", recs[j].data_len as i64);
        c.set_value("z21.data", CtxValue::Bytes(copy_bytes(&recs[j].data)));
        ctxs.push(c);
        amounts.push(recs[j].data_len as u64);
        j = j + 1;
    }
    assert(items_of(ctxs@, amounts@) =~= rv.map_values(
        |r: Z21View| (vars_of(z21_bindings(common, r), sv), r.data_len as u64),
    ));
    parsed_rule_bumps(rules, Protocol::Z21, dport, &ctxs, &amounts, &mut out);
    out
}

/// The client of a frame and the bumps it causes, observing its flow and
/// marking WebSocket connections; `None` (and no change) for a frame that is
/// not IPv4 TCP/UDP with complete headers.
pub fn frame_bumps(
    frame: &[u8],
    rules: &RuleSet,
    sets: &SetsConfig,
    clock: &Clock,
    now: u64,
    flows: &mut FlowTable,
    ws: &mut WsConns,
) -> (r: Option<(ClientId, Vec<Bump>)>)
    ensures
        match frame_outcome(frame@, rules.rules@, sets_view(*sets), *clock, now, old(flows).contents(), old(ws).contents()) {
            None => r is None && final(flows).contents() == old(flows).contents() && final(ws).contents() == old(
                ws,
            ).contents(),
            Some(o) => r is Some && r.unwrap().0 == o.client && bump_views(r.unwrap().1@) == o.bumps && flows_after(
                o,
                old(flows).contents(),
                now,
                final(flows).contents(),
            ) && final(ws).contents() == ws_after(o, old(ws).contents()),
        },
{
    let head = match parse_frame(frame) {
        None => {
            return None;
        },
        Some(h) => h,
    };
    let client = ClientId::new(head.mac, IpAddr::V4(head.src));
    match head.transport {
        Transport::Tcp { sport, dport, syn } => {
            let b = tcp_frame_bumps(frame, &head, sport, dport, syn, rules, sets, clock, now, flows, ws);
            Some((client, b))
        },
        Transport::Udp { sport, dport } => {
            let b = udp_frame_bumps(frame, &head, sport, dport, rules, sets, clock, now, flows);
            Some((client, b))
        },
    }
}

/// Counters, flow table and WebSocket marks after one frame (`c0`, `f0`,
/// `w0` before; `c1`, `f1`, `w1` after): the outcome's bumps applied to its
/// client, its flow observed, its connection marked.
pub open spec fn frame_effect(
    frame: Seq<u8>,
    rules: Seq<Rule>,
    sv: Seq<(Seq<char>, Seq<Seq<char>>)>,
    clock: Clock,
    now: u64,
    c0: (Map<(ClientId, Seq<char>), Triple>, Map<ClientId, CumulativeCounters>),
    c1: (Map<(ClientId, Seq<char>), Triple>, Map<ClientId, CumulativeCounters>),
    f0: Map<FlowKey, u64>,
    f1: Map<FlowKey, u64>,
    w0: Set<WsKey>,
    w1: Set<WsKey>,
) -> bool {
    match frame_outcome(frame, rules, sv, clock, now, f0, w0) {
        None => c1 == c0 && f1 == f0 && w1 == w0,
        Some(o) => c1 == apply_bumps(c0, o.client, o.bumps) && flows_after(o, f0, now, f1) && w1 == ws_after(o, w0),
    }
}

impl DaemonState {
    /// Count one captured frame at `now` (ms) with the clock read as `clock`.
    pub fn handle_frame_at(&mut self, frame: &[u8], clock: &Clock, now: u64, flows: &mut FlowTable, ws: &mut WsConns)
        requires
            old(self).wf(),
        ensures
            final(self).wf(),
            frame_effect(
                frame@,
                old(self).live.rules.rules@,
                sets_view(old(self).live.sets),
                *clock,
                now,
                (old(self).counters.by_rule@, old(self).counters.by_client@),
                (final(self).counters.by_rule@, final(self).counters.by_client@),
                old(flows).contents(),
                final(flows).contents(),
                old(ws).contents(),
                final(ws).contents(),
            ),
            final(self).mode == old(self).mode,
            final(self).interface == old(self).interface,
            final(self).live == old(self).live,
            final(self).policies == old(self).policies,
            final(self).windows == old(self).windows,
            final(self).last_counters == old(self).last_counters,
            final(self).would_be == old(self).would_be,
    {
        let r = frame_bumps(frame, &self.live.rules, &self.live.sets, clock, now, flows, ws);
        match r {
            None => {},
            Some((client, bumps)) => {
                self.counters.apply_bumps(client, &bumps);
            },
        }
    }

    /// Count one captured frame at `now` (ms), reading the wall clock for
    /// the match context.
    pub fn handle_frame(&mut self, frame: &[u8], now: u64, flows: &mut FlowTable, ws: &mut WsConns)
        requires
            old(self).wf(),
        ensures
            final(self).wf(),
            exists|clock: Clock|
                clock.hour < 24 && clock.dow < 7 && #[trigger] frame_effect(
                    frame@,
                    old(self).live.rules.rules@,
                    sets_view(old(self).live.sets),
                    clock,
                    now,
                    (old(self).counters.by_rule@, old(self).counters.by_client@),
                    (final(self).counters.by_rule@, final(self).counters.by_client@),
                    old(flows).contents(),
                    final(flows).contents(),
                    old(ws).contents(),
                    final(ws).contents(),
                ),
            final(self).mode == old(self).mode,
            final(self).interface == old(self).interface,
            final(self).live == old(self).live,
            final(self).policies == old(self).policies,
            final(self).windows == old(self).windows,
            final(self).last_counters == old(self).last_counters,
            final(self).would_be == old(self).would_be,
    {
        let clock = wall_clock();
        self.handle_frame_at(frame, &clock, now, flows, ws);
    }
}

} // verus!
