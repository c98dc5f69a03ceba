use std::sync::Arc;

use microwaf::cel_match::compile_match;
use microwaf::client::{ClientId, IpAddr};
use microwaf::config::{DaemonConfig, LiveConfig, SetsConfig};
use microwaf::counters::Bump;
use microwaf::daemon::DaemonState;
use microwaf::enforcer::Mode;
use microwaf::packet::{parse_frame, FlowKey, FlowTable, Transport, WsConns, WsKey, IPPROTO_TCP};
use microwaf::rule::{Action, Metric, Protocol, Rule, RuleSet, Window};
use microwaf::sniffer::{frame_bumps, Clock};

const MAC: [u8; 6] = [0x02, 0x11, 0x22, 0x33, 0x44, 0x55];
const SRC: [u8; 4] = [192, 168, 1, 20];
const DST: [u8; 4] = [192, 168, 1, 1];

fn eth_ip(proto: u8, l4: &[u8]) -> Vec<u8> {
    let mut f = vec![0xff, 0xff, 0xff, 0xff, 0xff, 0xff];
    f.extend_from_slice(&MAC);
    f.extend_from_slice(&[0x08, 0x00]);
    let total = (20 + l4.len()) as u16;
    f.extend_from_slice(&[0x45, 0, (total >> 8) as u8, total as u8, 0, 0, 0, 0, 64, proto, 0, 0]);
    f.extend_from_slice(&SRC);
    f.extend_from_slice(&DST);
    f.extend_from_slice(l4);
    f
}

fn tcp(sport: u16, dport: u16, flags: u8, payload: &[u8]) -> Vec<u8> {
    let mut l4 = vec![(sport >> 8) as u8, sport as u8, (dport >> 8) as u8, dport as u8];
    l4.extend_from_slice(&[0, 0, 0, 1, 0, 0, 0, 0, 0x50, flags, 0xff, 0xff, 0, 0, 0, 0]);
    l4.extend_from_slice(payload);
    eth_ip(6, &l4)
}

fn udp(sport: u16, dport: u16, payload: &[u8]) -> Vec<u8> {
    let len = (8 + payload.len()) as u16;
    let mut l4 = vec![(sport >> 8) as u8, sport as u8, (dport >> 8) as u8, dport as u8, (len >> 8) as u8, len as u8, 0, 0];
    l4.extend_from_slice(payload);
    eth_ip(17, &l4)
}

fn rule(id: &str, protocol: Protocol, port: u16, metric: Metric, matcher: Option<&str>) -> Rule {
    Rule {
        id: id.into(),
        protocol,
        ports: Some(vec![port]),
        metric,
        window: Window::PerSecond,
        limit: 10,
        action: Action::Block,
        min_threshold: 1,
        matcher: matcher.map(|m| compile_match(m).unwrap()),
        match_src: matcher.map(|m| m.to_string()),
    }
}

fn clock() -> Clock {
    Clock { epoch: 1_700_000_000, hour: 12, dow: 3 }
}

fn client() -> ClientId {
    ClientId::new(MAC, IpAddr::V4(SRC))
}

fn rule_bump(id: &str, metric: Metric, amount: u64) -> Bump {
    Bump::Rule { rule_id: id.into(), metric, amount }
}

#[test]
fn parses_tcp_syn_head() {
    let f = tcp(40000, 5000, 0x02, &[]);
    let head = parse_frame(&f).unwrap();
    assert_eq!(head.mac, MAC);
    assert_eq!(head.src, SRC);
    assert_eq!(head.dst, DST);
    assert_eq!(head.transport, Transport::Tcp { sport: 40000, dport: 5000, syn: true });
    assert_eq!(head.payload_at, f.len());
}

#[test]
fn syn_ack_is_not_a_syn() {
    let f = tcp(40000, 5000, 0x12, b"x");
    let head = parse_frame(&f).unwrap();
    assert_eq!(head.transport, Transport::Tcp { sport: 40000, dport: 5000, syn: false });
    assert_eq!(head.payload_at, f.len() - 1);
}

#[test]
fn rejects_non_ipv4_and_short_frames() {
    let mut f = udp(1, 2, b"abc");
    f[12] = 0x86;
    f[13] = 0xdd;
    assert_eq!(parse_frame(&f), None);
    assert_eq!(parse_frame(&[0u8; 13]), None);
    let f = udp(1, 2, b"");
    assert!(parse_frame(&f).is_some());
    assert_eq!(parse_frame(&f[..f.len() - 1]), None);
    // ICMP is neither TCP nor UDP.
    assert_eq!(parse_frame(&eth_ip(1, &[0u8; 8])), None);
}

#[test]
fn flow_table_counts_new_flows_once() {
    let mut t = FlowTable::new();
    let k = FlowKey { src: 1, sport: 2, dst: 3, dport: 4, proto: IPPROTO_TCP };
    assert!(t.observe(k, 1_000));
    assert!(!t.observe(k, 2_000));
    // Idle for a minute: forgotten, so new again.
    assert!(t.observe(k, 62_000));
    assert!(!t.observe(k, 62_000));
}

#[test]
fn flow_table_evicts_oldest_when_full() {
    let mut t = FlowTable::new();
    for i in 0..8192u32 {
        assert!(t.observe(FlowKey { src: i, sport: 1, dst: 2, dport: 3, proto: 6 }, 1_000 + u64::from(i)));
    }
    let newcomer = FlowKey { src: 99_999, sport: 1, dst: 2, dport: 3, proto: 6 };
    assert!(t.observe(newcomer, 10_000));
    // The oldest (src 0) went; the second oldest stayed.
    assert!(t.observe(FlowKey { src: 0, sport: 1, dst: 2, dport: 3, proto: 6 }, 10_001));
    assert!(!t.observe(FlowKey { src: 2, sport: 1, dst: 2, dport: 3, proto: 6 }, 10_002));
}

#[test]
fn ws_conns_mark_and_query() {
    let mut w = WsConns::new();
    let k = WsKey { src: 1, sport: 2, dst: 3, dport: 4 };
    assert!(!w.contains(&k));
    w.mark(k);
    w.mark(k);
    assert!(w.contains(&k));
}

#[test]
fn tcp_syn_counts_one_connection_for_first_conn_rule() {
    let rules = RuleSet::new(vec![
        rule("c1", Protocol::Tcp, 5000, Metric::Connections, None),
        rule("c2", Protocol::Tcp, 5000, Metric::Connections, None),
        rule("b", Protocol::Tcp, 5000, Metric::Bytes, None),
    ])
    .unwrap();
    let sets = SetsConfig::default();
    let mut flows = FlowTable::new();
    let mut ws = WsConns::new();
    let f = tcp(40000, 5000, 0x02, &[]);
    let (c, bumps) = frame_bumps(&f, &rules, &sets, &clock(), 5_000, &mut flows, &mut ws).unwrap();
    assert_eq!(c, client());
    assert_eq!(bumps, vec![rule_bump("c1", Metric::Connections, 1)]);
    // The same flow again: no new connection.
    let (_, bumps) = frame_bumps(&f, &rules, &sets, &clock(), 5_100, &mut flows, &mut ws).unwrap();
    assert!(bumps.is_empty());
    // Payload bytes count on the bytes rule.
    let f = tcp(40000, 5000, 0x18, b"hello");
    let (_, bumps) = frame_bumps(&f, &rules, &sets, &clock(), 5_200, &mut flows, &mut ws).unwrap();
    assert_eq!(bumps, vec![rule_bump("b", Metric::Bytes, 5)]);
}

#[test]
fn http_request_counts_requests_and_bytes() {
    let rules = RuleSet::new(vec![
        rule("r", Protocol::Http, 80, Metric::Requests, None),
        rule("get-only", Protocol::Http, 80, Metric::Requests, Some("request.method == \"POST\"")),
        rule("bytes", Protocol::Http, 80, Metric::Bytes, Some("request.path == \"/index\"")),
    ])
    .unwrap();
    let sets = SetsConfig::default();
    let mut flows = FlowTable::new();
    let mut ws = WsConns::new();
    let payload = b"GET /index HTTP/1.1\r\nHost: x\r\n\r\n";
    let f = tcp(40000, 80, 0x18, payload);
    let (_, bumps) = frame_bumps(&f, &rules, &sets, &clock(), 1, &mut flows, &mut ws).unwrap();
    assert_eq!(
        bumps,
        vec![rule_bump("r", Metric::Requests, 1), rule_bump("bytes", Metric::Bytes, payload.len() as u64)]
    );
}

#[test]
fn ws_upgrade_marks_connection_then_counts_frames() {
    let rules = RuleSet::new(vec![rule("ws", Protocol::WebSocket, 8080, Metric::Requests, Some("frame.opcode == 1"))])
        .unwrap();
    let sets = SetsConfig::default();
    let mut flows = FlowTable::new();
    let mut ws = WsConns::new();
    let up = b"GET /chat HTTP/1.1\r\nHost: x\r\nUpgrade: websocket\r\nConnection: Upgrade\r\n\r\n";
    let (_, bumps) = frame_bumps(&tcp(40000, 8080, 0x18, up), &rules, &sets, &clock(), 1, &mut flows, &mut ws).unwrap();
    assert_eq!(bumps, vec![Bump::WsHandshake]);
    assert!(ws.contains(&WsKey { src: 0xc0a8_0114, sport: 40000, dst: 0xc0a8_0101, dport: 8080 }));
    let text = [0x81u8, 0x02, b'h', b'i'];
    let (_, bumps) = frame_bumps(&tcp(40000, 8080, 0x18, &text), &rules, &sets, &clock(), 2, &mut flows, &mut ws).unwrap();
    assert_eq!(bumps, vec![rule_bump("ws", Metric::Requests, 1)]);
    let binary = [0x82u8, 0x00];
    let (_, bumps) = frame_bumps(&tcp(40000, 8080, 0x18, &binary), &rules, &sets, &clock(), 3, &mut flows, &mut ws).unwrap();
    assert!(bumps.is_empty());
}

#[test]
fn withrottle_counts_per_line() {
    let rules = RuleSet::new(vec![
        rule("speed", Protocol::Withrottle, 12090, Metric::Requests, Some("withrottle.prefix == \"M0A\"")),
        rule("cmd-bytes", Protocol::Withrottle, 12090, Metric::Bytes, None),
    ])
    .unwrap();
    let sets = SetsConfig::default();
    let mut flows = FlowTable::new();
    let mut ws = WsConns::new();
    let f = tcp(40000, 12090, 0x18, b"M0AS3<;>V50\nM0AS3<;>V60\n");
    let (_, bumps) = frame_bumps(&f, &rules, &sets, &clock(), 1, &mut flows, &mut ws).unwrap();
    assert_eq!(
        bumps,
        vec![
            rule_bump("speed", Metric::Requests, 1),
            rule_bump("speed", Metric::Requests, 1),
            rule_bump("cmd-bytes", Metric::Bytes, 11),
            rule_bump("cmd-bytes", Metric::Bytes, 11),
        ]
    );
}

#[test]
fn udp_counts_connections_bytes_and_z21_records() {
    let rules = RuleSet::new(vec![
        rule("udp-conn", Protocol::Udp, 21105, Metric::Connections, None),
        rule("z21", Protocol::Z21, 21105, Metric::Requests, Some("z21.header == 64")),
        rule("z21-bytes", Protocol::Z21, 21105, Metric::Bytes, None),
    ])
    .unwrap();
    let sets = SetsConfig::default();
    let mut flows = FlowTable::new();
    let mut ws = WsConns::new();
    // One record: length 7, header 0x40, x-header 0x21, data 0x24 0x05.
    let rec = [0x07u8, 0x00, 0x40, 0x00, 0x21, 0x24, 0x05];
    let (_, bumps) = frame_bumps(&udp(50000, 21105, &rec), &rules, &sets, &clock(), 1, &mut flows, &mut ws).unwrap();
    assert_eq!(
        bumps,
        vec![
            rule_bump("udp-conn", Metric::Connections, 1),
            rule_bump("z21", Metric::Requests, 1),
            rule_bump("z21-bytes", Metric::Bytes, 7),
        ]
    );
}

#[test]
fn handle_frame_applies_bumps_to_counters() {
    let rules = vec![rule("c1", Protocol::Tcp, 5000, Metric::Connections, Some("port == 5000 && client.ip == \"192.168.1.20\""))];
    let live = LiveConfig {
        daemon: DaemonConfig::default(),
        sets: SetsConfig::default(),
        rules: Arc::new(RuleSet::new(rules).unwrap()),
    };
    let mut st = DaemonState::new(Mode::Enforce, "eth0".into(), live);
    let mut flows = FlowTable::new();
    let mut ws = WsConns::new();
    st.handle_frame_at(&tcp(40000, 5000, 0x02, &[]), &clock(), 10, &mut flows, &mut ws);
    st.handle_frame(&tcp(40001, 5000, 0x02, &[]), 20, &mut flows, &mut ws);
    assert_eq!(st.counters.get_rule(client(), "c1"), (0, 0, 2));
}

#[test]
fn http_context_has_query_and_headers() {
    let rules = RuleSet::new(vec![
        rule("q", Protocol::Http, 80, Metric::Requests, Some("request.query == \"a=1\"")),
        rule("h", Protocol::Http, 80, Metric::Requests, Some("request.headers[\"host\"] == \"example\"")),
        rule("miss", Protocol::Http, 80, Metric::Requests, Some("request.headers[\"host\"] == \"other\"")),
    ])
    .unwrap();
    let sets = SetsConfig::default();
    let mut flows = FlowTable::new();
    let mut ws = WsConns::new();
    let payload = b"GET /p?a=1 HTTP/1.1\r\nHost: example\r\n\r\n";
    let (_, bumps) = frame_bumps(&tcp(40000, 80, 0x18, payload), &rules, &sets, &clock(), 1, &mut flows, &mut ws).unwrap();
    assert_eq!(bumps, vec![rule_bump("q", Metric::Requests, 1), rule_bump("h", Metric::Requests, 1)]);
}

#[test]
fn z21_context_has_data() {
    let rules = RuleSet::new(vec![rule("d", Protocol::Z21, 21105, Metric::Requests, Some("size(z21.data) == 3"))])
        .unwrap();
    let sets = SetsConfig::default();
    let mut flows = FlowTable::new();
    let mut ws = WsConns::new();
    let rec = [0x07u8, 0x00, 0x40, 0x00, 0x21, 0x24, 0x05];
    let (_, bumps) = frame_bumps(&udp(50000, 21105, &rec), &rules, &sets, &clock(), 1, &mut flows, &mut ws).unwrap();
    assert_eq!(bumps, vec![rule_bump("d", Metric::Requests, 1)]);
}

#[test]
fn sets_and_clock_reach_the_context() {
    let rules = RuleSet::new(vec![
        rule("allow", Protocol::Tcp, 5000, Metric::Bytes, Some("client.ip in sets.allowlist && time.hour == 12")),
        rule("night", Protocol::Tcp, 5000, Metric::Bytes, Some("time.hour < 6")),
    ])
    .unwrap();
    let sets = SetsConfig { sets: vec![("allowlist".into(), vec!["192.168.1.20".into()])] };
    let mut flows = FlowTable::new();
    let mut ws = WsConns::new();
    let (_, bumps) = frame_bumps(&tcp(40000, 5000, 0x18, b"abc"), &rules, &sets, &clock(), 1, &mut flows, &mut ws).unwrap();
    assert_eq!(bumps, vec![rule_bump("allow", Metric::Bytes, 3)]);
}
