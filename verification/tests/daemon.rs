use std::sync::Arc;

use microwaf::client::{ClientId, IpAddr};
use microwaf::config::{DaemonConfig, LiveConfig, SetsConfig};
use microwaf::daemon::DaemonState;
use microwaf::enforcer::Mode;
use microwaf::policy::EffectiveAction;
use microwaf::rule::{Action, Metric, Protocol, Rule, RuleSet, Window};
use microwaf::wire::{
    ActionWire, BlockParams, ClientParams, ClientRef, ErrorBody, Params, Request, RequestKind, ResultBody,
    ThrottleParams, TopParams,
};

fn client(last: u8) -> ClientId {
    ClientId::new([0xaa, 0xbb, 0xcc, 0xdd, 0xee, last], IpAddr::V4([10, 0, 0, last]))
}

fn rule(id: &str, limit: u64, min_threshold: u64, action: Action) -> Rule {
    Rule {
        id: id.into(),
        protocol: Protocol::Http,
        ports: Some(vec![80]),
        metric: Metric::Requests,
        window: Window::PerSecond,
        limit,
        action,
        min_threshold,
        matcher: None,
        match_src: None,
    }
}

fn state(mode: Mode, rules: Vec<Rule>) -> DaemonState {
    let live = LiveConfig {
        daemon: DaemonConfig::default(),
        sets: SetsConfig::default(),
        rules: Arc::new(RuleSet::new(rules).unwrap()),
    };
    DaemonState::new(mode, "eth0".into(), live)
}

#[test]
fn tick_throttles_then_releases_after_cooldown() {
    let mut st = state(Mode::Enforce, vec![rule("http-rps", 2, 1, Action::Throttle { drop_rate: 50 })]);
    let c = client(1);
    st.counters.add_requests(c, "http-rps", 5);
    let now = 1_000_000u64;
    let out = st.tick(now);
    assert_eq!(out, vec![(c, EffectiveAction::Throttle { drop_rate: 50 })]);
    assert!(st.would_be.entries.is_empty());
    // No new traffic: the auto policy holds until the 30 s cooldown ends.
    let out = st.tick(now + 2_000);
    assert_eq!(out, vec![(c, EffectiveAction::Throttle { drop_rate: 50 })]);
    let out = st.tick(now + 31_000);
    assert_eq!(out, vec![(c, EffectiveAction::Pass)]);
}

#[test]
fn tick_counts_only_growth_since_last_tick() {
    let mut st = state(Mode::Permissive, vec![rule("http-rps", 4, 1, Action::Block)]);
    let c = client(2);
    st.counters.add_requests(c, "http-rps", 3);
    let now = 10_000u64;
    assert_eq!(st.tick(now), vec![(c, EffectiveAction::Pass)]);
    st.counters.add_requests(c, "http-rps", 2);
    // 3 + 2 in the same second: 5 > 4.
    assert_eq!(st.tick(now + 500), vec![(c, EffectiveAction::Block)]);
    assert_eq!(st.would_be.entries, vec![(c, EffectiveAction::Block)]);
}

#[test]
fn strongest_violation_wins() {
    let mut st = state(
        Mode::Enforce,
        vec![
            rule("a", 1, 1, Action::Throttle { drop_rate: 30 }),
            rule("b", 1, 1, Action::Throttle { drop_rate: 80 }),
            rule("c", 1, 1, Action::Throttle { drop_rate: 80 }),
        ],
    );
    let x = client(3);
    st.counters.add_requests(x, "a", 2);
    st.counters.add_requests(x, "b", 2);
    st.counters.add_requests(x, "c", 2);
    assert_eq!(st.tick(5_000), vec![(x, EffectiveAction::Throttle { drop_rate: 80 })]);
    let p = st.policies.get(&x).unwrap();
    assert_eq!(p.auto.as_ref().unwrap().rule_id, "b");
    assert_eq!(p.auto.as_ref().unwrap().until, 35_000);
}

fn cref(last: u8) -> ClientRef {
    ClientRef { mac: format!("aa:bb:cc:dd:ee:{:02x}", last), ip: Some(format!("10.0.0.{}", last)) }
}

#[test]
fn throttle_then_unthrottle_over_dispatch() {
    let mut st = state(Mode::Enforce, vec![]);
    let now = 1_000_000u64;
    let wall = 1_700_000_000_000u64;
    let req = Request::with_params(
        RequestKind::Throttle,
        Params::Throttle(ThrottleParams { client: cref(4), rate: None, duration_secs: Some(60) }),
    );
    let (resp, persist) = st.dispatch(&req, now, wall);
    assert!(resp.error.is_none());
    let w = persist.unwrap();
    assert_eq!(w.client, client(4));
    let stored = w.policy.unwrap();
    assert_eq!(stored.throttle, Some(50));
    assert_eq!(stored.until_unix_secs, Some(1_700_000_060));
    let m = st.policies.get(&client(4)).unwrap().manual.unwrap();
    assert_eq!(m.until, Some(now + 60_000));

    let block = Request::with_params(
        RequestKind::Block,
        Params::Block(BlockParams { client: cref(4), duration_secs: None }),
    );
    let (_, persist) = st.dispatch(&block, now, wall);
    let stored = persist.unwrap().policy.unwrap();
    assert!(stored.blocked);
    assert_eq!(stored.throttle, Some(50));
    assert_eq!(stored.until_unix_secs, None);

    let un = Request::with_params(RequestKind::Unthrottle, Params::Client(ClientParams { client: cref(4) }));
    let (_, persist) = st.dispatch(&un, now, wall);
    let stored = persist.unwrap().policy.unwrap();
    assert_eq!(stored.throttle, None);
    assert!(stored.blocked);

    let unb = Request::with_params(RequestKind::Unblock, Params::Client(ClientParams { client: cref(4) }));
    let (resp, persist) = st.dispatch(&unb, now, wall);
    assert!(resp.error.is_none());
    assert_eq!(persist.unwrap().policy, None);
    assert!(st.policies.get(&client(4)).unwrap().manual.is_none());

    // Nothing left to clear.
    let (resp, persist) = st.dispatch(&unb, now, wall);
    assert!(resp.error.is_none());
    assert!(persist.is_none());
}

#[test]
fn dispatch_refuses_bad_requests() {
    let mut st = state(Mode::Enforce, vec![]);
    let (resp, persist) = st.dispatch(&Request::new(RequestKind::Throttle), 0, 0);
    assert!(persist.is_none());
    assert_eq!(resp.error, Some(ErrorBody::invalid("missing throttle params")));
    let (resp, _) = st.dispatch(&Request::new(RequestKind::Unblock), 0, 0);
    assert_eq!(resp.error, Some(ErrorBody::invalid("missing client")));
    let bad = Request::with_params(
        RequestKind::Block,
        Params::Block(BlockParams { client: ClientRef { mac: "nope".into(), ip: None }, duration_secs: None }),
    );
    let (resp, persist) = st.dispatch(&bad, 0, 0);
    assert!(persist.is_none());
    assert_eq!(resp.error.unwrap().message, "invalid client ref: nope");
    assert!(st.policies.entries.is_empty());
}

#[test]
fn info_and_rules_over_dispatch() {
    let mut st = state(Mode::Permissive, vec![rule("r1", 5, 2, Action::Block)]);
    let (resp, _) = st.dispatch(&Request::new(RequestKind::Info), 0, 0);
    match resp.result {
        Some(ResultBody::Info(i)) => {
            assert_eq!(i.mode, "permissive");
            assert_eq!(i.interface, "eth0");
            assert_eq!(i.version, "dev");
        }
        other => panic!("unexpected {other:?}"),
    }
    let (resp, _) = st.dispatch(&Request::new(RequestKind::ListRules), 0, 0);
    match resp.result {
        Some(ResultBody::Rules(r)) => {
            assert_eq!(r.rules.len(), 1);
            assert_eq!(r.rules[0].protocol, "http");
            assert_eq!(r.rules[0].window, "per-second");
            assert_eq!(r.rules[0].ports, vec![80]);
            assert_eq!(r.rules[0].action, ActionWire::Block);
        }
        other => panic!("unexpected {other:?}"),
    }
}

#[test]
fn top_ranks_hot_first_then_by_value() {
    let mut st = state(Mode::Enforce, vec![rule("r", 100, 5, Action::Block)]);
    let (a, b, c) = (client(1), client(2), client(3));
    st.counters.add_requests(a, "r", 3);
    st.counters.add_requests(b, "r", 9);
    st.counters.add_requests(c, "r", 6);
    st.tick(1_000);
    let params = TopParams { limit: 0, rule_id: None, protocol: None, metric: None };
    let r = st.top(&params, 1_000);
    let order: Vec<String> = r.clients.iter().map(|e| e.client.ip.clone().unwrap()).collect();
    assert_eq!(order, vec!["10.0.0.2", "10.0.0.3", "10.0.0.1"]);
    assert!(r.clients[0].hot && r.clients[1].hot && !r.clients[2].hot);
    assert_eq!(r.columns.len(), 1);
    assert_eq!(r.columns[0].rule_id, "r");
    assert_eq!(r.clients[0].violations[0].value, 9);
    let limited = st.top(&TopParams { limit: 1, ..params.clone() }, 1_000);
    assert_eq!(limited.clients.len(), 1);
    let none = st.top(&TopParams { rule_id: Some("other".into()), ..params }, 1_000);
    assert!(none.columns.is_empty());
    assert_eq!(none.clients.len(), 3);
}

#[test]
fn list_clients_shows_policies_then_counters() {
    let mut st = state(Mode::Permissive, vec![]);
    let req = Request::with_params(
        RequestKind::Block,
        Params::Block(BlockParams { client: cref(7), duration_secs: None }),
    );
    st.dispatch(&req, 0, 0);
    st.counters.add_requests(client(8), "x", 1);
    let r = st.list_clients(0);
    assert_eq!(r.clients.len(), 2);
    assert_eq!(r.clients[0].client, cref(7));
    assert_eq!(r.clients[0].action, Some(ActionWire::Block));
    assert_eq!(r.clients[0].would_be_action, Some(ActionWire::Block));
    assert_eq!(r.clients[1].action, Some(ActionWire::Pass));
    assert_eq!(r.clients[1].stats.unwrap().requests, 1);
}

#[test]
fn hot_at_a_zero_threshold_without_traffic() {
    let mut st = state(Mode::Enforce, vec![rule("r", 100, 5, Action::Block), rule("z", 100, 0, Action::Block)]);
    let a = client(1);
    st.counters.add_requests(a, "r", 1);
    st.tick(1_000);
    let params = TopParams { limit: 0, rule_id: None, protocol: None, metric: None };
    let r = st.top(&params, 1_000);
    assert_eq!(r.clients.len(), 1);
    assert!(r.clients[0].hot);
}
