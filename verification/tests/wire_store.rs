use microwaf::client::{ClientId, IpAddr};
use microwaf::counters::CumulativeCounters;
use microwaf::iface::{ensure_exists, ifindex, is_any};
use microwaf::policy::StoredManualPolicy;
use microwaf::store::{
    parse_client_from_key, parse_u32, policy_key, schema_step, stats_records, ttl_secs, ClientStatsStore,
    ManualPolicyStore, MemoryStore, SchemaStep, StoreError, StoredClientStats, PREFIX_POLICY,
};
use microwaf::table::{format_action, format_client, format_rate, u64_string, window_unit};
use microwaf::wire::{read_frame, write_frame, ActionWire, ClientRef, ErrorBody, FrameError, MAX_FRAME_BYTES};

#[test]
fn error_codes() {
    assert_eq!(ErrorBody::forbidden("no").code, "forbidden");
    assert_eq!(ErrorBody::not_found("x").code, "notFound");
    assert_eq!(ErrorBody::invalid("y").code, "invalid");
    assert_eq!(ErrorBody::busy("z").code, "busy");
}

#[test]
fn round_trip_a_frame() {
    let body = br#"{"v":7,"s":"hello"}"#;
    let mut buf = Vec::new();
    write_frame(&mut buf, body).expect("write");
    let (back, used) = read_frame(&buf).expect("read");
    assert_eq!(back, body.to_vec());
    assert_eq!(used, buf.len());
    assert_eq!(&buf[..4], &(body.len() as u32).to_le_bytes());
}

#[test]
fn truncated_header_reports_eof() {
    let buf = [0u8; 2];
    let err = read_frame(&buf).unwrap_err();
    assert!(matches!(err, FrameError::UnexpectedEof { read: 2, needed: 4 }));
}

#[test]
fn truncated_payload_reports_eof() {
    let mut buf = Vec::new();
    buf.extend_from_slice(&16u32.to_le_bytes());
    buf.extend_from_slice(b"only a few");
    let err = read_frame(&buf).unwrap_err();
    assert!(matches!(err, FrameError::UnexpectedEof { read: 10, needed: 16 }));
}

#[test]
fn oversized_payload_is_rejected_on_write() {
    let big = vec![0u8; MAX_FRAME_BYTES + 1];
    let mut buf = Vec::new();
    let err = write_frame(&mut buf, &big).unwrap_err();
    assert!(matches!(err, FrameError::TooLarge { max, .. } if max == MAX_FRAME_BYTES));
    assert!(buf.is_empty());
}

#[test]
fn oversized_declared_length_is_rejected_on_read() {
    let mut buf = Vec::new();
    buf.extend_from_slice(&((MAX_FRAME_BYTES as u32) + 1).to_le_bytes());
    let err = read_frame(&buf).unwrap_err();
    assert!(matches!(err, FrameError::TooLarge { len, max } if len == MAX_FRAME_BYTES + 1 && max == MAX_FRAME_BYTES));
}

#[test]
fn empty_payload_round_trips_as_unit() {
    let mut buf = Vec::new();
    write_frame(&mut buf, b"null").expect("write unit");
    let (back, _) = read_frame(&buf).expect("read unit");
    assert_eq!(back, b"null".to_vec());
    let mut empty = Vec::new();
    write_frame(&mut empty, b"").unwrap();
    assert_eq!(read_frame(&empty).unwrap(), (Vec::new(), 4));
}

#[test]
fn any_is_case_insensitive() {
    assert!(is_any("any"));
    assert!(is_any("ANY"));
    assert!(is_any("Any"));
    assert!(!is_any("eth0"));
}

#[test]
fn any_resolves_to_zero() {
    assert_eq!(ifindex("any").unwrap(), 0);
}

#[test]
fn lo_exists_on_linux() {
    assert!(ensure_exists("lo").is_ok());
}

#[test]
fn missing_iface_errors() {
    let err = ensure_exists("microwaf-no-such-iface-xyz").unwrap_err();
    assert!(err.to_string().contains("does not exist"));
    assert_eq!(ensure_exists("").unwrap_err(), "interface name is empty (use a NIC name or `any`)");
    assert_eq!(ifindex("a\0b").unwrap_err(), "interface name");
}

#[test]
fn rate_units() {
    assert_eq!(format_rate(0, window_unit("per-second")), "0/s");
    assert_eq!(format_rate(12, window_unit("per-minute")), "12/m");
}

#[test]
fn table_cells() {
    assert_eq!(u64_string(18446744073709551615), "18446744073709551615");
    assert_eq!(window_unit("hour"), "");
    assert_eq!(format_action(None), "-");
    assert_eq!(format_action(Some(&ActionWire::Pass)), "-");
    assert_eq!(format_action(Some(&ActionWire::Throttle { drop_rate: 25 })), "thr 25%");
    assert_eq!(format_client(&ClientRef { mac: "aa".into(), ip: Some("1.2.3.4".into()) }), "aa@1.2.3.4");
    assert_eq!(format_client(&ClientRef { mac: "aa".into(), ip: None }), "aa");
}

fn c() -> ClientId {
    ClientId::new([1, 2, 3, 4, 5, 6], IpAddr::V4([127, 0, 0, 1]))
}

#[test]
fn policy_round_trip() {
    let mut store = MemoryStore::default();
    let p = StoredManualPolicy { throttle: Some(50), blocked: false, until_unix_secs: None };
    store.put(&c(), &p).unwrap();
    let all = ManualPolicyStore::load_all(&mut store).unwrap();
    assert_eq!(all.len(), 1);
    assert_eq!(all[0].1.throttle, Some(50));
    store.remove(&c()).unwrap();
    assert!(ManualPolicyStore::load_all(&mut store).unwrap().is_empty());
}

#[test]
fn stats_batch() {
    let mut store = MemoryStore::default();
    let s = StoredClientStats {
        cumulative: CumulativeCounters { requests: 10, bytes: 20, connections: 1, ws_connections: 0 },
        windows: vec![],
        updated_unix_secs: 1,
    };
    store.put_batch(&vec![(c(), s)]).unwrap();
    assert_eq!(ClientStatsStore::load_all(&mut store).unwrap()[0].1.cumulative.requests, 10);
}

#[test]
fn snapshot_batch_and_keys() {
    let counters = CumulativeCounters { requests: 1, bytes: 2, connections: 3, ws_connections: 4 };
    let batch = stats_records(&vec![(c(), counters)], 99);
    assert_eq!(batch.len(), 1);
    assert_eq!(batch[0].1.updated_unix_secs, 99);
    assert_eq!(policy_key(&c()), "microwaf:policy:manual:01:02:03:04:05:06@127.0.0.1");
    assert_eq!(parse_client_from_key(&policy_key(&c()), PREFIX_POLICY), Ok(c()));
    assert_eq!(
        parse_client_from_key("other:x", PREFIX_POLICY),
        Err(StoreError::Backend("bad key other:x".into()))
    );
    assert_eq!(ttl_secs(100, 40), 60);
    assert_eq!(ttl_secs(100, 400), 1);
    assert_eq!(parse_u32("+42"), Some(42));
    assert_eq!(parse_u32("4294967296"), None);
    assert_eq!(schema_step(None), SchemaStep::Stamp);
    assert_eq!(schema_step(Some("1")), SchemaStep::Keep);
    assert_eq!(schema_step(Some("x")), SchemaStep::Reset { found: 0 });
    assert_eq!(StoreError::Backend("boom".into()).message(), "store error: boom");
}
