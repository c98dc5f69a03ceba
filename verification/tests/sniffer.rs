use microwaf::http::detect_http_request;
use microwaf::withrottle::detect_withrottle_lines;
use microwaf::ws::detect_ws_frame;
use microwaf::z21::detect_z21_records;

#[test]
fn parse_get() {
    let p = b"GET /api/login?x=1 HTTP/1.1\r\nHost: a\r\n\r\n";
    let r = detect_http_request(p).unwrap();
    assert_eq!(r.method, "GET");
    assert_eq!(r.path, "/api/login");
    assert_eq!(r.query, "x=1");
    assert!(!r.upgrade_ws);
}

#[test]
fn parse_ws_upgrade() {
    let p = b"GET /ws HTTP/1.1\r\nUpgrade: websocket\r\nConnection: Upgrade\r\n\r\n";
    let r = detect_http_request(p).unwrap();
    assert!(r.upgrade_ws);
}

#[test]
fn reject_tls() {
    let p = [0x16, 0x03, 0x01, 0x00, 0x05];
    assert!(detect_http_request(&p).is_none());
}

#[test]
fn http_headers_are_lowercased_and_trimmed() {
    let p = b"POST /a#frag HTTP/1.0\nX-Thing :  Value \nbad line\n\nIgnored: yes\n";
    let r = detect_http_request(p).unwrap();
    assert_eq!(r.method, "POST");
    assert_eq!(r.path, "/a");
    assert_eq!(r.query, "");
    assert_eq!(r.headers, vec![("x-thing".to_string(), "Value".to_string())]);
}

#[test]
fn http_query_stops_at_fragment() {
    let p = b"GET /p?a=1#top HTTP/1.1\r\nUPGRADE: WebSocket\r\n";
    let r = detect_http_request(p).unwrap();
    assert_eq!(r.path, "/p");
    assert_eq!(r.query, "a=1");
    assert!(r.upgrade_ws);
    let p2 = b"GET / HTTP/1.1\r\nUpgrade: websockets\r\n";
    assert!(!detect_http_request(p2).unwrap().upgrade_ws);
}

#[test]
fn http_rejects_bad_request_lines() {
    assert!(detect_http_request(b"").is_none());
    assert!(detect_http_request(b"GET / HTTP/1.1").is_none());
    assert!(detect_http_request(b"GET /\r\n").is_none());
    assert!(detect_http_request(b"GET / FTP/1.0\r\n").is_none());
    assert!(detect_http_request(b"G3T / HTTP/1.1\r\n").is_none());
    assert!(detect_http_request(b"1GET / HTTP/1.1\r\n").is_none());
    assert!(detect_http_request(&[b'G', 0xff, b'\n']).is_none());
}

#[test]
fn m0a_and_pta() {
    let p = b"M0A123<;>\nPTA2L456\n*\n";
    let lines = detect_withrottle_lines(p);
    assert_eq!(lines.len(), 3);
    assert_eq!(lines[0].prefix, "M0A");
    assert_eq!(lines[0].throttle, "0");
    assert_eq!(lines[1].prefix, "PTA");
    assert_eq!(lines[2].prefix, "*");
}

#[test]
fn strips_lnwi_noise() {
    let p = b"AT+CIPSENDBUF=12\nM0A1<;>\n";
    let lines = detect_withrottle_lines(p);
    assert_eq!(lines.len(), 1);
    assert_eq!(lines[0].prefix, "M0A");
}

#[test]
fn withrottle_short_prefixes_and_trimming() {
    let lines = detect_withrottle_lines(b"  HC1 \r\nN\r\n9x\n");
    assert_eq!(lines.len(), 3);
    assert_eq!(lines[0].prefix, "HC");
    assert_eq!(lines[0].command, "HC1");
    assert_eq!(lines[1].prefix, "N");
    assert_eq!(lines[2].prefix, "9");
    assert!(detect_withrottle_lines(&[0xff, b'\n']).is_empty());
}

#[test]
fn unmasked_text() {
    let mut p = vec![0x81, 0x05];
    p.extend_from_slice(b"hello");
    let h = detect_ws_frame(&p).unwrap();
    assert!(h.fin);
    assert_eq!(h.opcode, 0x1);
    assert_eq!(h.payload_len, 5);
    assert!(!h.masked);
}

#[test]
fn masked_short() {
    let mut p = vec![0x81, 0x85, 0x01, 0x02, 0x03, 0x04];
    p.extend_from_slice(&[0x00; 5]);
    let h = detect_ws_frame(&p).unwrap();
    assert!(h.masked);
    assert_eq!(h.payload_len, 5);
}

#[test]
fn truncated() {
    assert!(detect_ws_frame(&[0x81]).is_none());
}

#[test]
fn ws_extended_lengths() {
    let h = detect_ws_frame(&[0x82, 126, 0x01, 0x00]).unwrap();
    assert_eq!(h.payload_len, 256);
    assert_eq!(h.opcode, 2);
    let h = detect_ws_frame(&[0x02, 127, 0, 0, 0, 1, 0, 0, 0, 2]).unwrap();
    assert_eq!(h.payload_len, (1u64 << 32) + 2);
    assert!(!h.fin);
    assert!(detect_ws_frame(&[0x02, 127, 0x80, 0, 0, 0, 0, 0, 0, 2]).is_none());
    assert!(detect_ws_frame(&[0x83, 0x05]).is_none());
    assert!(detect_ws_frame(&[0x81, 0x85, 1, 2]).is_none());
}

#[test]
fn single_record() {
    let p = [0x04, 0x00, 0x10, 0x00];
    let r = detect_z21_records(&p);
    assert_eq!(r.len(), 1);
    assert_eq!(r[0].header, 0x0010);
    assert!(r[0].data.is_empty());
}

#[test]
fn multi_record_with_xbus() {
    let mut p = vec![0x07, 0x00, 0x40, 0x00, 0xE4, 0x01, 0x02];
    p.extend_from_slice(&[0x04, 0x00, 0x10, 0x00]);
    let r = detect_z21_records(&p);
    assert_eq!(r.len(), 2);
    assert_eq!(r[0].header, 0x0040);
    assert_eq!(r[0].xheader, 0xE4);
    assert_eq!(r[1].header, 0x0010);
}

#[test]
fn truncated_stops() {
    let p = [0x10, 0x00, 0x40, 0x00, 0xE4];
    let r = detect_z21_records(&p);
    assert!(r.is_empty());
}

#[test]
fn z21_short_data_len_stops() {
    let p = [0x04, 0x00, 0x10, 0x00, 0x02, 0x00, 0x10, 0x00];
    let r = detect_z21_records(&p);
    assert_eq!(r.len(), 1);
    assert_eq!(r[0].data_len, 4);
}
