use std::sync::Arc;

use microwaf::cel_match::{compile_match, eval_match, MatchContext};
use microwaf::client::{ClientId, IpAddr};
use microwaf::config::{compile_ruleset, ConfigAction, ConfigRule, DaemonConfig, LiveConfig, SetsConfig};
use microwaf::enforcer::{Enforcer, Mode, PermissiveEnforcer};
use microwaf::error::ConfigError;
use microwaf::policy::{merge_policy, AutoPolicy, ClientPolicy, EffectiveAction, ManualPolicy, StoredManualPolicy};
use microwaf::rule::{Action, Metric, Protocol, Rule, RuleSet, Window};
use microwaf::window::SlidingWindow;

fn client(last: u8) -> ClientId {
    ClientId::new([0xaa, 0xbb, 0xcc, 0xdd, 0xee, last], IpAddr::V4([10, 0, 0, last]))
}

#[test]
fn manual_block_wins() {
    let now = 1_000_000u64;
    let p = ClientPolicy {
        manual: Some(ManualPolicy { throttle: None, blocked: true, until: None }),
        auto: Some(AutoPolicy { drop_rate: 50, blocked: false, rule_id: "r".into(), until: now + 30_000 }),
    };
    assert_eq!(merge_policy(&p, now), EffectiveAction::Block);
}

#[test]
fn auto_throttle() {
    let now = 1_000_000u64;
    let p = ClientPolicy {
        manual: None,
        auto: Some(AutoPolicy { drop_rate: 40, blocked: false, rule_id: "r".into(), until: now + 30_000 }),
    };
    assert_eq!(merge_policy(&p, now), EffectiveAction::Throttle { drop_rate: 40 });
}

#[test]
fn highest_rate_wins_and_expiry_ignored() {
    let now = 5_000u64;
    let p = ClientPolicy {
        manual: Some(ManualPolicy { throttle: Some(20), blocked: false, until: Some(10_000) }),
        auto: Some(AutoPolicy { drop_rate: 70, blocked: false, rule_id: "r".into(), until: 6_000 }),
    };
    assert_eq!(merge_policy(&p, now), EffectiveAction::Throttle { drop_rate: 70 });
    assert_eq!(merge_policy(&p, 6_000), EffectiveAction::Throttle { drop_rate: 20 });
    assert_eq!(merge_policy(&p, 10_000), EffectiveAction::Pass);
}

#[test]
fn sum_one_second() {
    let now = 1_000_000u64;
    let mut w = SlidingWindow::new(now);
    w.add(Metric::Requests, 5, now);
    assert_eq!(w.sum(Metric::Requests, 1), 5);
    assert_eq!(w.sum(Metric::Bytes, 1), 0);
}

#[test]
fn advance_zeros_old_bucket() {
    let now = 1_000_000u64;
    let mut w = SlidingWindow::new(now);
    w.add(Metric::Requests, 7, now);
    let later = now + 1_000;
    w.advance(later);
    assert_eq!(w.sum(Metric::Requests, 1), 0);
    assert_eq!(w.sum(Metric::Requests, 2), 7);
}

#[test]
fn window_forgets_after_a_minute() {
    let now = 0u64;
    let mut w = SlidingWindow::new(now);
    w.add(Metric::Bytes, 9, now);
    w.advance(59_000);
    assert_eq!(w.sum(Metric::Bytes, 60), 9);
    w.advance(60_000);
    assert_eq!(w.sum(Metric::Bytes, 60), 0);
}

fn base_rule(id: &str) -> Rule {
    Rule {
        id: id.into(),
        protocol: Protocol::Http,
        ports: Some(vec![80]),
        metric: Metric::Requests,
        window: Window::PerSecond,
        limit: 10,
        action: Action::Throttle { drop_rate: 50 },
        min_threshold: 5,
        matcher: None,
        match_src: None,
    }
}

#[test]
fn connections_invalid_for_http() {
    let mut r = base_rule("x");
    r.metric = Metric::Connections;
    assert!(r.validate().is_err());
}

#[test]
fn ports_required_for_http() {
    let mut r = base_rule("x");
    r.ports = None;
    assert!(r.validate().is_err());
}

#[test]
fn udp_allows_no_ports() {
    let r = Rule {
        id: "u".into(),
        protocol: Protocol::Udp,
        ports: None,
        metric: Metric::Bytes,
        window: Window::PerSecond,
        limit: 1000,
        action: Action::Block,
        min_threshold: 0,
        matcher: None,
        match_src: None,
    };
    assert!(r.validate().is_ok());
}

#[test]
fn drop_rate_over_100_is_rejected() {
    let mut r = base_rule("d");
    r.action = Action::Throttle { drop_rate: 101 };
    assert_eq!(r.validate(), Err(ConfigError::InvalidDropRate("d".into(), 101)));
}

#[test]
fn duplicate_ids_are_rejected() {
    let err = RuleSet::new(vec![base_rule("a"), base_rule("a")]).unwrap_err();
    assert_eq!(err, ConfigError::DuplicateRuleId("a".into()));
}

#[test]
fn words_parse_ignoring_case() {
    assert_eq!(Protocol::parse_word("WS"), Ok(Protocol::WebSocket));
    assert_eq!(Metric::parse_word("Bytes"), Ok(Metric::Bytes));
    assert_eq!(Window::parse_word("60s"), Ok(Window::PerMinute));
    assert_eq!(Protocol::parse_word("FTP"), Err(ConfigError::InvalidValue("protocol `ftp`".into())));
    assert_eq!(Window::PerMinute.secs(), 60);
}

#[test]
fn permissive_records() {
    let mut e = PermissiveEnforcer::default();
    let c = ClientId::new([1, 2, 3, 4, 5, 6], IpAddr::V4([127, 0, 0, 1]));
    e.apply(c, EffectiveAction::Throttle { drop_rate: 30 });
    assert_eq!(e.log.get(&c), Some(EffectiveAction::Throttle { drop_rate: 30 }));
    e.clear(c);
    assert_eq!(e.log.get(&c), None);
}

#[test]
fn mode_words() {
    assert_eq!(Mode::parse("PERMISSIVE"), Ok(Mode::Permissive));
    assert_eq!(Mode::Enforce.as_str(), "enforce");
    assert_eq!(Mode::parse("Audit"), Err("invalid mode `audit` (expected enforce|permissive)".to_string()));
}

#[test]
fn parse_mac_only() {
    let c: ClientId = "aa:bb:cc:dd:ee:ff".parse().unwrap();
    assert_eq!(c.mac, [0xaa, 0xbb, 0xcc, 0xdd, 0xee, 0xff]);
    assert_eq!(c.ip, IpAddr::V4([0, 0, 0, 0]));
}

#[test]
fn parse_mac_ip() {
    let c: ClientId = "aa:bb:cc:dd:ee:ff@10.0.0.1".parse().unwrap();
    assert_eq!(c.ip, IpAddr::V4([10, 0, 0, 1]));
    assert_eq!(c.storage_key(), "aa:bb:cc:dd:ee:ff@10.0.0.1");
}

#[test]
fn client_text_round_trips_ipv6() {
    let c: ClientId = "01:02:03:04:05:06@2001:db8::1".parse().unwrap();
    assert_eq!(c.storage_key(), "01:02:03:04:05:06@2001:db8::1");
    let back: ClientId = c.storage_key().parse().unwrap();
    assert_eq!(back, c);
    assert!("01:02:03:04:05@1.2.3.4".parse::<ClientId>().is_err());
    let err = ClientId::parse("zz").unwrap_err();
    assert_eq!(err.message(), "invalid client ref: zz");
}

#[test]
fn ipv6_keys_read_back_in_every_form() {
    let mac = [0x02, 0, 0, 0, 0, 0x01];
    let cases: Vec<([u8; 16], &str)> = vec![
        ([0; 16], "02:00:00:00:00:01@::"),
        ([0, 0, 0, 0, 0, 0, 0, 0, 0, 0, 0xff, 0xff, 192, 168, 1, 7], "02:00:00:00:00:01@::ffff:192.168.1.7"),
        ([0, 1, 0, 2, 0, 3, 0, 4, 0, 5, 0, 6, 0, 7, 0, 8], "02:00:00:00:00:01@1:2:3:4:5:6:7:8"),
        ([0, 1, 0, 0, 0, 2, 0, 0, 0, 3, 0, 0, 0, 4, 0, 0], "02:00:00:00:00:01@1:0:2:0:3:0:4:0"),
        ([0, 1, 0, 0, 0, 0, 0, 2, 0, 0, 0, 0, 0, 3, 0xab, 0xcd], "02:00:00:00:00:01@1::2:0:0:3:abcd"),
        ([0xfe, 0x80, 0, 0, 0, 0, 0, 0, 0, 0, 0, 0, 0, 0, 0, 0x01], "02:00:00:00:00:01@fe80::1"),
    ];
    for (octets, text) in cases {
        let c = ClientId::new(mac, IpAddr::V6(octets));
        assert_eq!(c.storage_key(), text);
        assert_eq!(ClientId::parse(&c.storage_key()), Ok(c));
    }
}

#[test]
fn simple_equality() {
    let prog = compile_match(r#"request.method == "POST""#).unwrap();
    let mut ctx = MatchContext::default();
    ctx.set_str("request.method", "POST");
    assert!(eval_match(&prog, &ctx));
    ctx.set_str("request.method", "GET");
    assert!(!eval_match(&prog, &ctx));
}

#[test]
fn z21_header() {
    let prog = compile_match("z21.header == 64 && z21.xheader == 228").unwrap();
    let mut ctx = MatchContext::default();
    ctx.set_int("z21.header", 0x40);
    ctx.set_int("z21.xheader", 0xE4);
    assert!(eval_match(&prog, &ctx));
}

#[test]
fn cel_sets_and_bad_source() {
    let prog = compile_match(r#"client.ip in sets.allow && port == 80"#).unwrap();
    let mut ctx = MatchContext::default();
    ctx.set_str("client.ip", "10.0.0.1");
    ctx.set_int("port", 80);
    ctx.sets = vec![("allow".to_string(), vec!["10.0.0.1".to_string()])];
    assert!(eval_match(&prog, &ctx));
    ctx.set_int("port", 81);
    assert!(!eval_match(&prog, &ctx));
}

fn http_config(id: &str) -> ConfigRule {
    ConfigRule {
        id: id.into(),
        protocol: "http".into(),
        ports: Some(vec![80, 443]),
        metric: "requests".into(),
        window: "per-second".into(),
        limit: 100,
        action: ConfigAction::Throttle { drop_rate: 50 },
        min_threshold: 50,
        matcher: None,
    }
}

#[test]
fn parse_http_rule() {
    let set = compile_ruleset(vec![http_config("http-rps-100")]).unwrap();
    assert_eq!(set.rules.len(), 1);
    assert_eq!(set.rules[0].protocol, Protocol::Http);
}

#[test]
fn reject_http_without_ports() {
    let mut c = http_config("bad");
    c.ports = None;
    c.limit = 10;
    c.action = ConfigAction::Block;
    assert!(compile_ruleset(vec![c]).is_err());
}

#[test]
fn compile_reports_words_and_cel_errors() {
    let mut c = http_config("w");
    c.window = "hour".into();
    assert_eq!(c.compile().unwrap_err(), ConfigError::InvalidValue("window `hour`".into()));
    let mut c = http_config("m");
    c.matcher = Some("request.method == 'GET'".into());
    let r = c.compile().unwrap();
    assert!(r.matcher.is_some());
    let mut c = http_config("e");
    c.matcher = Some(String::new());
    let r = c.compile().unwrap();
    assert!(r.matcher.is_none());
    assert_eq!(r.match_src, Some(String::new()));
    assert!(compile_ruleset(vec![http_config("a"), http_config("a")]).is_err());
}

#[test]
fn daemon_defaults() {
    let d = DaemonConfig::default();
    assert_eq!(d.cooldown_secs, 30);
    assert_eq!(d.stats_snapshot_secs, 5);
    assert_eq!(d.interface.as_deref(), Some("any"));
    assert_eq!(d.allow_users, vec!["root".to_string(), "bigfred".into(), "bigfred-wizard".into()]);
}

pub fn live_with(rules: Vec<Rule>) -> LiveConfig {
    LiveConfig {
        daemon: DaemonConfig::default(),
        sets: SetsConfig::default(),
        rules: Arc::new(RuleSet::new(rules).unwrap()),
    }
}

#[test]
fn client_helper_is_distinct() {
    assert_ne!(client(1), client(2));
}

#[test]
fn auto_block_carries_no_drop_rate() {
    let a = AutoPolicy::from_action("r".into(), Action::Block, 1_000, 30_000);
    assert_eq!(a.drop_rate, 0);
    assert!(a.blocked);
    assert_eq!(a.until, 31_000);
    let t = AutoPolicy::from_action("r".into(), Action::Throttle { drop_rate: 40 }, 1_000, 30_000);
    assert_eq!(t.drop_rate, 40);
    assert!(!t.blocked);
}

#[test]
fn match_language_refuses_what_cannot_run() {
    for bad in [
        "", "1 +", "-", "x == ", "(", "\"abc", "x.all(y, true)", "Foo{a: 1}", "1.all(x, true)",
        "request.path == 'a' // note", "x.5", "timestamp('2020-01-01T00:00:00Z')", "duration('1s') == duration('1s')",
        "-(-9223372036854775808) == 0", "\"a\"[9223372036854775807] == \"b\"", "-port < 1",
        "request.headers.exists(k, true)", "{'a': 1}.exists(k, true)", "[1].exists(sets, true)",
    ] {
        let e = compile_match(bad).unwrap_err();
        assert_eq!(e, format!("unsupported expression: {bad}"));
    }
    for good in [
        "request.method == \"POST\"",
        "request.headers[\"host\"] == 'example'",
        "size(z21.data) == 3 && z21.header in [64, 65]",
        "client.ip in sets.allowlist ? time.hour >= 8 : !(port == 80)",
        "request.path.startsWith(\"/api\") || -1 < 2.5",
        "[1, 2, 3].exists(x, x > 2)",
        "{\"a\": 1}[\"a\"] == 1",
        "[1, 2].map(x, x * 2).exists(y, y == 4) && [1, 2, 3].filter(x, x > 1).all(x, x > 1)",
        "[1, 2].map(x, x > 1, x * 3) == [6] && [1].exists_one(x, x == 1)",
        "sets.allowlist.exists(ip, ip == client.ip)",
    ] {
        assert!(compile_match(good).is_ok(), "{good}");
    }
}

#[test]
fn manual_policy_survives_a_restart() {
    // stored with 65.5 s left at wall time 1_000_000.4 s; loaded 20 s later
    // on a fresh monotonic clock reading 7_000 ms
    let p = ManualPolicy { throttle: Some(30), blocked: false, until: Some(100_000 + 65_500) };
    let stored = StoredManualPolicy::from_runtime_at(&p, 100_000, 1_000_000_400);
    let back = stored.to_runtime_at(7_000, 1_000_020_400);
    assert_eq!(back.throttle, Some(30));
    assert!(!back.blocked);
    let left = back.until.unwrap() - 7_000;
    assert!(left <= 65_500 - 20_000 && left + 2_000 > 65_500 - 20_000);
    let gone = stored.to_runtime_at(7_000, 1_000_200_000);
    assert_eq!(gone.until, Some(7_000));
}

#[test]
fn list_macros_and_map_literals_evaluate() {
    let mut ctx = MatchContext::default();
    ctx.set_str("client.ip", "10.0.0.1");
    ctx.sets = vec![("allowlist".to_string(), vec!["10.0.0.1".to_string()])];
    for (src, want) in [
        ("[1, 2, 3].exists(x, x > 2)", true),
        ("[1, 2, 3].all(x, x > 2)", false),
        ("{\"a\": 1}[\"a\"] == 1", true),
        ("[1, 2].map(x, x * 2) == [2, 4]", true),
        ("sets.allowlist.exists(ip, ip == client.ip)", true),
        ("-1 < 0 && [\"x\", \"y\"][1] == \"y\"", true),
    ] {
        let prog = compile_match(src).unwrap();
        assert_eq!(eval_match(&prog, &ctx), want, "{src}");
    }
}

#[test]
fn mac_text_reads_back_with_unspecified_ip() {
    let c = ClientId::new([0xaa, 0xbb, 0xcc, 0xdd, 0xee, 0xff], IpAddr::V4([10, 0, 0, 1]));
    let back: ClientId = c.mac_string().parse().unwrap();
    assert_eq!(back, ClientId::new(c.mac, IpAddr::V4([0, 0, 0, 0])));
    let key: ClientId = c.storage_key().parse().unwrap();
    assert_eq!(key, c);
}
