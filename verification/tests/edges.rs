use std::path::PathBuf;

use microwaf::bpf::{
    load_and_attach, require_iface, xdp_key, xdp_verdict, BpfEnforcer, BpfHandle, ClientPolicyEntry, XdpAction,
};
use microwaf::client::{ClientId, IpAddr};
use microwaf::config::DaemonConfig;
use microwaf::enforcer::{Enforcer, Mode};
use microwaf::iface::{index_outcome, sort_names, sysfs_attachable, text_less};
use microwaf::policy::EffectiveAction;
use microwaf::rpc::{Client, ClientError, DEFAULT_TIMEOUT_MS};
use microwaf::settings::{
    daemon_settings, example_only, example_path, is_rules_yaml, merge_args, resolve_config_dir, resolve_socket_path,
    DaemonArgs,
};
use microwaf::ipc::{peer_allowed, peer_refusal};
use microwaf::render::{center, pad_left, pad_right, render_frame, repeat_char};
use microwaf::wire::{
    ActionWire, ClientEntry, ClientRef, ClientsResult, EmptyResult, ErrorBody, InfoResult, Params, RequestKind,
    Response, ResultBody, ThrottleParams, TopColumn, ViolationWire,
};

fn v4_client() -> ClientId {
    ClientId::new([1, 2, 3, 4, 5, 6], IpAddr::V4([10, 0, 0, 7]))
}

#[test]
fn example_path_appends_suffix() {
    let p = PathBuf::from("/tmp/microwaf/daemon.yaml");
    assert_eq!(
        PathBuf::from(example_path(p.to_str().unwrap())),
        PathBuf::from("/tmp/microwaf/daemon.yaml.example")
    );
}

#[test]
fn example_path_without_file_name_gets_extension() {
    assert_eq!(example_path("/"), "/");
}

#[test]
fn rules_yaml_filter() {
    assert!(!is_rules_yaml("00-baseline.yaml.example"));
    assert!(is_rules_yaml("00-baseline.yaml"));
    assert!(is_rules_yaml("/etc/microwaf/rules.d/10-extra.yml"));
    assert!(!is_rules_yaml("notes.txt"));
    assert!(!is_rules_yaml("/"));
}

#[test]
fn example_only_events() {
    assert!(!example_only(&vec![]));
    assert!(example_only(&vec![Some("daemon.yaml.example".into())]));
    assert!(!example_only(&vec![Some("daemon.yaml.example".into()), Some("daemon.yaml".into())]));
    assert!(!example_only(&vec![None]));
}

#[test]
fn config_dir_precedence() {
    assert_eq!(resolve_config_dir(Some("/x".into()), Some("/y".into()), None, None), "/x");
    assert_eq!(resolve_config_dir(None, Some("/y".into()), Some("/data".into()), None), "/y");
    assert_eq!(resolve_config_dir(None, None, None, None), "/etc/microwaf");
    assert_eq!(resolve_config_dir(None, None, Some("/data".into()), Some("/other".into())), "/data/etc/microwaf");
    assert_eq!(resolve_config_dir(None, None, None, Some("/srv".into())), "/srv/etc/microwaf");
}

#[test]
fn socket_precedence() {
    assert_eq!(resolve_socket_path(Some("/a.sock".into()), Some("/b.sock".into()), "/c.sock".into()), "/a.sock");
    assert_eq!(resolve_socket_path(None, Some("/b.sock".into()), "/c.sock".into()), "/b.sock");
    assert_eq!(resolve_socket_path(None, None, "/c.sock".into()), "/c.sock");
}

#[test]
fn daemon_flags_override_global_and_config() {
    let global = DaemonArgs {
        interface: Some("eth0".into()),
        redis_url: None,
        config_dir: Some("/g".into()),
        mode: Some(Mode::Permissive),
    };
    let sub = DaemonArgs { interface: Some("eth1".into()), redis_url: None, config_dir: None, mode: None };
    let merged = merge_args(Some(sub), global.clone());
    assert_eq!(merged.interface.as_deref(), Some("eth1"));
    assert_eq!(merged.config_dir.as_deref(), Some("/g"));
    assert_eq!(merged.mode, Some(Mode::Permissive));
    assert_eq!(merge_args(None, global.clone()), global);

    let cfg = DaemonConfig::default();
    let s = daemon_settings(&merged, &cfg);
    assert_eq!(s.mode, Mode::Permissive);
    assert_eq!(s.interface, "eth1");
    assert_eq!(s.redis_url, "redis://127.0.0.1:6379/0");
    let none = DaemonArgs { interface: None, redis_url: None, config_dir: None, mode: None };
    let s = daemon_settings(&none, &cfg);
    assert_eq!(s.mode, cfg.mode);
    assert_eq!(s.interface, "any");
}

#[test]
fn names_sort_in_code_point_order() {
    assert!(text_less(&"eth0".to_string(), &"eth1".to_string()));
    assert!(text_less(&"eth".to_string(), &"eth0".to_string()));
    assert!(!text_less(&"wlan0".to_string(), &"eth0".to_string()));
    let v: Vec<String> = vec!["wlan0".into(), "eth1".into(), "eth0".into(), "br0".into()];
    assert_eq!(sort_names(v), vec!["br0", "eth0", "eth1", "wlan0"]);
    let v: Vec<String> = vec!["lo".into(), "enp3s0".into(), "docker0".into()];
    assert_eq!(sysfs_attachable(v), vec!["docker0", "enp3s0"]);
}

#[test]
fn require_iface_rejects_empty() {
    assert_eq!(require_iface(""), Err("empty interface".to_string()));
    assert!(require_iface("eth0").is_ok());
}

#[test]
fn bpf_key_is_mac_then_ipv4() {
    assert_eq!(BpfHandle::key(&v4_client()), Some([1, 2, 3, 4, 5, 6, 10, 0, 0, 7]));
    let v6 = ClientId::new([1, 2, 3, 4, 5, 6], IpAddr::V6([0; 16]));
    assert_eq!(BpfHandle::key(&v6), None);
}

#[test]
fn bpf_enforcer_writes_and_clears_entries() {
    let mut e = BpfEnforcer::new(load_and_attach("any").unwrap());
    let c = v4_client();
    assert_eq!(e.entry(&c), None);
    e.apply(c, EffectiveAction::Block);
    assert_eq!(e.entry(&c), Some((true, 100)));
    e.apply(c, EffectiveAction::Throttle { drop_rate: 30 });
    assert_eq!(e.entry(&c), Some((false, 30)));
    e.apply(c, EffectiveAction::Pass);
    assert_eq!(e.entry(&c), None);
    e.apply(c, EffectiveAction::Block);
    e.clear(c);
    assert_eq!(e.entry(&c), None);
}

#[test]
fn xdp_key_and_verdict() {
    let mut f = vec![0u8; 34];
    f[6..12].copy_from_slice(&[1, 2, 3, 4, 5, 6]);
    f[12] = 0x08;
    f[14] = 0x45;
    f[26..30].copy_from_slice(&[10, 0, 0, 7]);
    assert_eq!(xdp_key(&f), Some([1, 2, 3, 4, 5, 6, 10, 0, 0, 7]));
    assert_eq!(xdp_key(&f[..33]), None);
    f[14] = 0x44;
    assert_eq!(xdp_key(&f), None);

    let blocked = ClientPolicyEntry { blocked: 1, drop_rate: 0, _pad: [0; 2], until_unix: 0 };
    let rate = ClientPolicyEntry { blocked: 0, drop_rate: 30, _pad: [0; 2], until_unix: 0 };
    assert_eq!(xdp_verdict(None, 0), XdpAction::Pass);
    assert_eq!(xdp_verdict(Some(blocked), 99), XdpAction::Drop);
    assert_eq!(xdp_verdict(Some(rate), 129), XdpAction::Drop);
    assert_eq!(xdp_verdict(Some(rate), 130), XdpAction::Pass);
}

#[test]
fn client_requests_and_reply_decoding() {
    let c = Client::with_socket("/tmp/mw.sock".into());
    assert_eq!(c.timeout_ms, DEFAULT_TIMEOUT_MS);
    let req = Client::info_request();
    assert_eq!(req.kind, RequestKind::Info);
    assert!(req.params.is_none());
    let info = InfoResult {
        version: "dev".into(),
        commit: "unknown".into(),
        build_time: "".into(),
        mode: "enforce".into(),
        interface: "any".into(),
    };
    let ok = Response::ok(RequestKind::Info, ResultBody::Info(info.clone()));
    assert_eq!(c.info(Ok(ok)), Ok(info));
    let err = Response::err(RequestKind::Info, ErrorBody::forbidden("nope"));
    assert_eq!(
        c.info(Ok(err)),
        Err(ClientError::Server { code: "forbidden".into(), message: "nope".into() })
    );
    let missing = Response { kind: RequestKind::Info, result: None, error: None };
    assert_eq!(c.info(Ok(missing)), Err(ClientError::Unexpected("missing result".into())));
    let wrong = Response::ok(RequestKind::Info, ResultBody::Empty(EmptyResult::default()));
    assert_eq!(c.info(Ok(wrong)), Err(ClientError::Unexpected("Empty".into())));
    assert_eq!(c.info(Err(ClientError::Connect("refused".into()))), Err(ClientError::Connect("refused".into())));

    let cref = ClientRef { mac: "aa:bb:cc:dd:ee:ff".into(), ip: None };
    let t = ThrottleParams { client: cref.clone(), rate: Some(40), duration_secs: None };
    let req = Client::throttle_request(t.clone());
    assert_eq!(req.params, Some(Params::Throttle(t)));
    let done = Response::ok(RequestKind::Throttle, ResultBody::Empty(EmptyResult::default()));
    assert_eq!(c.throttle(Ok(done)), Ok(()));
    let req = Client::unblock_request(cref);
    assert_eq!(req.kind, RequestKind::Unblock);
}

#[test]
fn render_has_rule_columns() {
    let result = ClientsResult {
        columns: vec![
            TopColumn { rule_id: "http-rps".into(), window: "per-second".into(), limit: 100, min_threshold: 50 },
            TopColumn { rule_id: "z21-rpm".into(), window: "per-minute".into(), limit: 500, min_threshold: 200 },
        ],
        clients: vec![ClientEntry {
            client: ClientRef { mac: "aa:bb:cc:dd:ee:ff".into(), ip: Some("10.0.0.1".into()) },
            action: Some(ActionWire::Pass),
            would_be_action: None,
            violations: vec![
                ViolationWire { rule_id: "http-rps".into(), value: 3, limit: 100, action: ActionWire::Pass },
                ViolationWire { rule_id: "z21-rpm".into(), value: 0, limit: 500, action: ActionWire::Pass },
            ],
            hot: false,
            stats: None,
        }],
    };
    let frame = render_frame(&result, 0, 500, false);
    assert!(frame.contains("http-rps"), "{frame}");
    assert!(frame.contains("z21-rpm"), "{frame}");
    assert!(frame.contains("3/s"), "{frame}");
    assert!(frame.contains("0/m"), "{frame}");
}

#[test]
fn render_layout_matches_format_padding() {
    assert_eq!(pad_right("ab", 5, ' '), format!("{:<5}", "ab"));
    assert_eq!(pad_left("ab", 5, '-'), format!("{:->5}", "ab"));
    assert_eq!(center("ab", 7), format!("{:^7}", "ab"));
    assert_eq!(center("abcdef", 3), "abcdef");
    assert_eq!(repeat_char('\u{b7}', 2), "\u{b7}\u{b7}");
    let row = |mac: &str, hot: bool| ClientEntry {
        client: ClientRef { mac: mac.into(), ip: None },
        action: Some(ActionWire::Block),
        would_be_action: None,
        violations: vec![],
        hot,
        stats: None,
    };
    let result = ClientsResult {
        columns: vec![TopColumn { rule_id: "r".into(), window: "per-second".into(), limit: 1, min_threshold: 1 }],
        clients: vec![row("aa:aa:aa:aa:aa:aa", true), row("bb:bb:bb:bb:bb:bb", false)],
    };
    let frame = render_frame(&result, 5, 1000, true);
    let lines: Vec<&str> = frame.lines().collect();
    assert_eq!(lines[0], "microwaf top  -n 5  hot=1  interval=1s  q/Ctrl+C quit");
    assert_eq!(lines[1], format!(" {:>3}  {:<17}  {:<10}  {:<10}  {:^3}", "#", "CLIENT", "ACTION", "WOULD", "r"));
    assert_eq!(lines[2], format!(" {:-<3}  {:-<17}  {:-<10}  {:-<10}  {:-<3}", "", "", "", "", ""));
    assert_eq!(lines[3], format!("*{:>3}  {:<17}  {:<10}  {:<10}  {:>3}", 1, "aa:aa:aa:aa:aa:aa", "block", "-", "0/s"));
    assert!(lines[4].starts_with(" \u{b7}\u{b7}\u{b7}"));
    assert_eq!(lines[5], format!(" {:>3}  {:<17}  {:<10}  {:<10}  {:>3}", 2, "bb:bb:bb:bb:bb:bb", "block", "-", "0/s"));
    let empty = ClientsResult { columns: vec![], clients: vec![] };
    let frame = render_frame(&empty, 0, 0, false);
    assert!(frame.ends_with(" (no known clients)\n"));
}

#[test]
fn peer_allowlist_rules() {
    let allow = vec!["bigfred".to_string()];
    assert!(peer_allowed(&vec![], None, None));
    assert!(peer_allowed(&allow, Some(0), None));
    assert!(peer_allowed(&allow, Some(1000), Some("bigfred".into())));
    assert!(!peer_allowed(&allow, Some(1000), Some("mallory".into())));
    assert!(!peer_allowed(&allow, None, None));
    assert!(!peer_allowed(&allow, Some(1000), None));
    let r = peer_refusal();
    assert_eq!(r.error, Some(ErrorBody::forbidden("peer user not in allowlist")));
}

#[test]
fn index_outcome_names_the_missing_interface() {
    assert_eq!(index_outcome("eth0", Ok(3)), Ok(3));
    assert_eq!(
        index_outcome("eth9", Err("No such device".into())),
        Err("interface `eth9` does not exist (No such device)".into())
    );
}
