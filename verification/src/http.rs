//! HTTP request-line + header detector (first-packet inspection).

use vstd::prelude::*;
use vstd::utf8::valid_utf8;
use vstd::utf8::decode_utf8;

use crate::client::str_chars;
use crate::text::ascii_lower;
use crate::text::is_whitespace;
use crate::text::is_ws;
use crate::text::starts_with_at;
use crate::text::text_is;
use crate::text::to_ascii_lowercase;
use crate::text::trim_bounds;
use crate::text::trim_range;
use crate::text::utf8_text;

verus! {

/// Parsed HTTP request (request line + selected headers).
#[derive(Debug, Clone, PartialEq, Eq)]
pub struct HttpRequestLine {
    /// Method (e.g. GET, POST).
    pub method: String,
    /// Path without query.
    pub path: String,
    /// Raw query string (without `?`).
    pub query: String,
    /// True if `Upgrade: websocket` present.
    pub upgrade_ws: bool,
    /// Headers as (lowercase-name, value).
    pub headers: Vec<(String, String)>,
}

/// A request as plain character sequences.
pub struct HttpView {
    pub method: Seq<char>,
    pub path: Seq<char>,
    pub query: Seq<char>,
    pub upgrade_ws: bool,
    pub headers: Seq<(Seq<char>, Seq<char>)>,
}

/// View of one header pair.
pub open spec fn header_view(h: (String, String)) -> (Seq<char>, Seq<char>) {
    (h.0@, h.1@)
}

impl View for HttpRequestLine {
    type V = HttpView;

    open spec fn view(&self) -> HttpView {
        HttpView {
            method: self.method@,
            path: self.path@,
            query: self.query@,
            upgrade_ws: self.upgrade_ws,
            headers: self.headers@.map_values(|h: (String, String)| header_view(h)),
        }
    }
}

/// First index in `s[i..end]` holding `c`, or `end`.
pub open spec fn find_char(s: Seq<char>, c: char, i: int, end: int) -> int
    decreases end - i,
{
    if i >= end {
        end
    } else if s[i] == c {
        i
    } else {
        find_char(s, c, i + 1, end)
    }
}

/// First index `i` of a `\r\n` pair from `i` on, or the length of `s`.
pub open spec fn find_crlf(s: Seq<char>, i: int) -> int
    decreases s.len() - i,
{
    if i + 1 >= s.len() {
        s.len() as int
    } else if s[i] == '\r' && s[i + 1] == '\n' {
        i
    } else {
        find_crlf(s, i + 1)
    }
}

/// Where the request line ends and the header block begins: at the first
/// `\r\n` when there is one, else at the first `\n`.
pub open spec fn head_split(s: Seq<char>) -> Option<(int, int)> {
    let c = find_crlf(s, 0);
    if c < s.len() {
        Some((c, c + 2))
    } else {
        let l = find_char(s, '\n', 0, s.len() as int);
        if l < s.len() {
            Some((l, l + 1))
        } else {
            None
        }
    }
}

/// The whitespace-separated tokens of `s[..end]` from position `i` on, as
/// index ranges; `start` is where the current token began, or -1.
pub open spec fn tok_scan(s: Seq<char>, end: int, start: int, i: int) -> Seq<(int, int)>
    decreases end - i,
{
    if i >= end {
        if start >= 0 {
            seq![(start, end)]
        } else {
            seq![]
        }
    } else if is_ws(s[i]) {
        (if start >= 0 {
            seq![(start, i)]
        } else {
            seq![]
        }) + tok_scan(s, end, -1, i + 1)
    } else {
        tok_scan(s, end, if start >= 0 {
            start
        } else {
            i
        }, i + 1)
    }
}

/// `char::is_ascii_alphabetic`.
pub open spec fn ascii_alpha_char(c: char) -> bool {
    ('A' <= c && c <= 'Z') || ('a' <= c && c <= 'z')
}

/// The header of the line `s[a..e]`: name (trimmed, ASCII lower-cased) and
/// value (trimmed) around the first `:`; none when there is no `:`.
pub open spec fn hdr_line(s: Seq<char>, a: int, e: int) -> Seq<(Seq<char>, Seq<char>)> {
    let c = find_char(s, ':', a, e);
    if c >= e {
        seq![]
    } else {
        seq![(ascii_lower(trim_range(s, a, c)), trim_range(s, c + 1, e))]
    }
}

/// The headers from position `i` on, where the current line started at
/// `start`. Lines end at `\n` (a `\r` right before it is dropped); the block
/// ends at the first empty line.
pub open spec fn hdr_scan(s: Seq<char>, start: int, i: int) -> Seq<(Seq<char>, Seq<char>)>
    decreases s.len() - i,
{
    if i >= s.len() {
        hdr_line(s, start, s.len() as int)
    } else if s[i] == '\n' {
        let e = if i > start && s[i - 1] == '\r' {
            i - 1
        } else {
            i
        };
        if e == start {
            seq![]
        } else {
            hdr_line(s, start, e) + hdr_scan(s, i + 1, i + 1)
        }
    } else {
        hdr_scan(s, start, i + 1)
    }
}

/// True when some header is `upgrade: websocket` (value compared without
/// regard to ASCII case).
pub open spec fn upgrade_in(hs: Seq<(Seq<char>, Seq<char>)>) -> bool {
    exists|k: int| 0 <= k < hs.len() && hs[k].0 == "upgrade"@ && ascii_lower(hs[k].1) == "websocket"@
}

/// Path and query of the request target `s[t0..t1]`: split at the first
/// `?`, each cut at the first `#` that follows.
pub open spec fn target_parts(s: Seq<char>, t0: int, t1: int) -> (Seq<char>, Seq<char>) {
    let q = find_char(s, '?', t0, t1);
    if q < t1 {
        (s.subrange(t0, q), s.subrange(q + 1, find_char(s, '#', q + 1, t1)))
    } else {
        (s.subrange(t0, find_char(s, '#', t0, t1)), seq![])
    }
}

/// The request in the text `s`: a request line of at least three tokens
/// whose third starts with `HTTP/` and whose first is all ASCII letters,
/// followed by a line break and the header block.
pub open spec fn http_text(s: Seq<char>) -> Option<HttpView> {
    match head_split(s) {
        None => None,
        Some((h, r)) => {
            let toks = tok_scan(s, h, -1, 0);
            if toks.len() < 3 {
                None
            } else {
                let (m0, m1) = toks[0];
                let (t0, t1) = toks[1];
                let (v0, v1) = toks[2];
                if !(v1 - v0 >= 5 && s.subrange(v0, v0 + 5) == "HTTP/"@) {
                    None
                } else if !(forall|k: int| m0 <= k < m1 ==> ascii_alpha_char(#[trigger] s[k])) {
                    None
                } else {
                    let hs = hdr_scan(s, r, r);
                    let (path, query) = target_parts(s, t0, t1);
                    Some(
                        HttpView {
                            method: s.subrange(m0, m1),
                            path,
                            query,
                            upgrade_ws: upgrade_in(hs),
                            headers: hs,
                        },
                    )
                }
            }
        },
    }
}

/// The request in a TCP payload: none for an empty payload, a TLS record
/// start (`0x16 0x03`), a first byte that is not an ASCII letter, or bytes
/// that are not UTF-8.
pub open spec fn http_request(p: Seq<u8>) -> Option<HttpView> {
    if p.len() == 0 {
        None
    } else if p.len() >= 2 && p[0] == 0x16 && p[1] == 0x03 {
        None
    } else if !((65 <= p[0] && p[0] <= 90) || (97 <= p[0] && p[0] <= 122)) {
        None
    } else if !valid_utf8(p) {
        None
    } else {
        http_text(decode_utf8(p))
    }
}

/// Position of the first `c` in `v[i..end]`, or `end`.
fn find_in(v: &Vec<char>, c: char, i: usize, end: usize) -> (r: usize)
    requires
        i <= end <= v@.len(),
    ensures
        r == find_char(v@, c, i as int, end as int),
        i <= r <= end,
{
    let mut k = i;
    while k < end && v[k] != c
        invariant
            i <= k <= end <= v@.len(),
            find_char(v@, c, k as int, end as int) == find_char(v@, c, i as int, end as int),
        decreases end - k,
    {
        k = k + 1;
    }
    k
}

/// Position of the first `\r\n`, or the length.
fn find_crlf_in(v: &Vec<char>) -> (r: usize)
    ensures
        r == find_crlf(v@, 0),
        r <= v@.len(),
        r < v@.len() ==> r + 1 < v@.len(),
{
    let n = v.len();
    let mut k: usize = 0;
    while n > 0 && k < n - 1 && !(v[k] == '\r' && v[k + 1] == '\n')
        invariant
            n == v@.len(),
            k <= n,
            find_crlf(v@, k as int) == find_crlf(v@, 0),
        decreases n - k,
    {
        k = k + 1;
    }
    if n == 0 || k >= n - 1 {
        n
    } else {
        k
    }
}

/// Token ranges of `v[..end]`.
fn tokens(v: &Vec<char>, end: usize) -> (r: Vec<(usize, usize)>)
    requires
        end <= v@.len(),
    ensures
        r@.map_values(|p: (usize, usize)| (p.0 as int, p.1 as int)) == tok_scan(v@, end as int, -1, 0),
        forall|k: int| 0 <= k < r@.len() ==> (#[trigger] r@[k]).0 <= r@[k].1 <= end,
{
    let mut out: Vec<(usize, usize)> = Vec::new();
    let mut in_tok = false;
    let mut start: usize = 0;
    let mut i: usize = 0;
    while i < end
        invariant
            end <= v@.len(),
            i <= end,
            in_tok ==> start <= i,
            forall|k: int| 0 <= k < out@.len() ==> (#[trigger] out@[k]).0 <= out@[k].1 <= end,
            out@.map_values(|p: (usize, usize)| (p.0 as int, p.1 as int)) + tok_scan(
                v@,
                end as int,
                if in_tok {
                    start as int
                } else {
                    -1
                },
                i as int,
            ) == tok_scan(v@, end as int, -1, 0),
        decreases end - i,
    {
        let ghost o0 = out@.map_values(|p: (usize, usize)| (p.0 as int, p.1 as int));
        if is_whitespace(v[i]) {
            if in_tok {
                out.push((start, i));
                assert(out@.map_values(|p: (usize, usize)| (p.0 as int, p.1 as int)) =~= o0.push(
                    (start as int, i as int),
                ));
                assert(o0 + (seq![(start as int, i as int)] + tok_scan(v@, end as int, -1, i + 1)) =~= o0.push(
                    (start as int, i as int),
                ) + tok_scan(v@, end as int, -1, i + 1));
            } else {
                assert(o0 + (seq![] + tok_scan(v@, end as int, -1, i + 1)) =~= o0 + tok_scan(
                    v@,
                    end as int,
                    -1,
                    i + 1,
                ));
            }
            in_tok = false;
        } else if !in_tok {
            in_tok = true;
            start = i;
        }
        i = i + 1;
    }
    let ghost o0 = out@.map_values(|p: (usize, usize)| (p.0 as int, p.1 as int));
    if in_tok {
        out.push((start, end));
        assert(out@.map_values(|p: (usize, usize)| (p.0 as int, p.1 as int)) =~= o0 + seq![
            (start as int, end as int),
        ]);
    } else {
        assert(o0 =~= o0 + seq![]);
    }
    out
}

/// True when every character of `v[a..b]` is an ASCII letter.
fn all_alpha(v: &Vec<char>, a: usize, b: usize) -> (r: bool)
    requires
        a <= b <= v@.len(),
    ensures
        r == (forall|k: int| a <= k < b ==> ascii_alpha_char(#[trigger] v@[k])),
{
    let mut k = a;
    while k < b
        invariant
            a <= k <= b <= v@.len(),
            forall|j: int| a <= j < k ==> ascii_alpha_char(#[trigger] v@[j]),
        decreases b - k,
    {
        let c = v[k];
        if !(('A' <= c && c <= 'Z') || ('a' <= c && c <= 'z')) {
            assert(!ascii_alpha_char(v@[k as int]));
            return false;
        }
        k = k + 1;
    }
    true
}

/// The header of line `v[a..e]`, appended to `out`; the flag is raised when
/// it is `upgrade: websocket`.
fn push_header(text: &str, v: &Vec<char>, a: usize, e: usize, out: &mut Vec<(String, String)>, upgrade: &mut bool)
    requires
        v@ == text@,
        a <= e <= v@.len(),
    ensures
        final(out)@.map_values(|h: (String, String)| header_view(h)) == old(out)@.map_values(
            |h: (String, String)| header_view(h),
        ) + hdr_line(v@, a as int, e as int),
        *final(upgrade) == (*old(upgrade) || upgrade_in(hdr_line(v@, a as int, e as int))),
{
    let c = find_in(v, ':', a, e);
    let ghost o0 = out@.map_values(|h: (String, String)| header_view(h));
    if c >= e {
        assert(o0 + seq![] =~= o0);
        return;
    }
    let (n0, n1) = trim_bounds(v, a, c);
    let (w0, w1) = trim_bounds(v, c + 1, e);
    let name = to_ascii_lowercase(text.substring_char(n0, n1));
    let value = String::from_str(text.substring_char(w0, w1));
    let lv = to_ascii_lowercase(value.as_str());
    let hit = text_is(&name, "upgrade") && text_is(&lv, "websocket");
    let ghost hv = (name@, value@);
    assert(hdr_line(v@, a as int, e as int) == seq![hv]);
    out.push((name, value));
    assert(out@.map_values(|h: (String, String)| header_view(h)) =~= o0 + seq![hv]);
    proof {
        let hs = seq![hv];
        if hit {
            assert(hs[0].0 == "upgrade"@ && ascii_lower(hs[0].1) == "websocket"@);
        }
        if upgrade_in(hs) {
            let k = choose|k: int| 0 <= k < hs.len() && hs[k].0 == "upgrade"@ && ascii_lower(hs[k].1) == "websocket"@;
            assert(k == 0);
        }
    }
    *upgrade = *upgrade || hit;
}

/// Headers of the block that starts at `r`.
fn headers_from(text: &str, v: &Vec<char>, r: usize) -> (res: (Vec<(String, String)>, bool))
    requires
        v@ == text@,
        r <= v@.len(),
    ensures
        res.0@.map_values(|h: (String, String)| header_view(h)) == hdr_scan(v@, r as int, r as int),
        res.1 == upgrade_in(hdr_scan(v@, r as int, r as int)),
{
    let n = v.len();
    let mut out: Vec<(String, String)> = Vec::new();
    let mut upgrade = false;
    let mut start = r;
    let mut i = r;
    let mut stopped = false;
    let ghost total = hdr_scan(v@, r as int, r as int);
    while i < n && !stopped
        invariant
            n == v@.len(),
            v@ == text@,
            r <= start <= i <= n,
            total == hdr_scan(v@, r as int, r as int),
            stopped ==> out@.map_values(|h: (String, String)| header_view(h)) == total,
            !stopped ==> out@.map_values(|h: (String, String)| header_view(h)) + hdr_scan(v@, start as int, i as int)
                == total,
            upgrade == upgrade_in(out@.map_values(|h: (String, String)| header_view(h))),
        decreases n - i,
    {
        if v[i] == '\n' {
            let e = if i > start && v[i - 1] == '\r' {
                i - 1
            } else {
                i
            };
            let ghost o0 = out@.map_values(|h: (String, String)| header_view(h));
            if e == start {
                assert(o0 + seq![] =~= o0);
                stopped = true;
            } else {
                push_header(text, v, start, e, &mut out, &mut upgrade);
                proof {
                    let hl = hdr_line(v@, start as int, e as int);
                    let rest = hdr_scan(v@, i + 1, i + 1);
                    assert(o0 + (hl + rest) =~= (o0 + hl) + rest);
                    lemma_upgrade_concat(o0, hl);
                }
                start = i + 1;
            }
        }
        i = i + 1;
    }
    if !stopped {
        let ghost o0 = out@.map_values(|h: (String, String)| header_view(h));
        let ghost hl = hdr_line(v@, start as int, n as int);
        push_header(text, v, start, n, &mut out, &mut upgrade);
        proof {
            lemma_upgrade_concat(o0, hl);
        }
    }
    (out, upgrade)
}

/// `upgrade_in` distributes over concatenation.
proof fn lemma_upgrade_concat(a: Seq<(Seq<char>, Seq<char>)>, b: Seq<(Seq<char>, Seq<char>)>)
    ensures
        upgrade_in(a + b) == (upgrade_in(a) || upgrade_in(b)),
{
    let ab = a + b;
    if upgrade_in(ab) {
        let k = choose|k: int| 0 <= k < ab.len() && ab[k].0 == "upgrade"@ && ascii_lower(ab[k].1) == "websocket"@;
        if k < a.len() {
            assert(a[k] == ab[k]);
        } else {
            assert(b[k - a.len()] == ab[k]);
        }
    }
    if upgrade_in(a) {
        let k = choose|k: int| 0 <= k < a.len() && a[k].0 == "upgrade"@ && ascii_lower(a[k].1) == "websocket"@;
        assert(ab[k] == a[k]);
    }
    if upgrade_in(b) {
        let k = choose|k: int| 0 <= k < b.len() && b[k].0 == "upgrade"@ && ascii_lower(b[k].1) == "websocket"@;
        assert(ab[k + a.len()] == b[k]);
    }
}

/// Detect an HTTP request in a TCP payload. Returns `None` for TLS or non-HTTP.
pub fn detect_http_request(payload: &[u8]) -> (r: Option<HttpRequestLine>)
    ensures
        match r {
            Some(x) => http_request(payload@) == Some(x@),
            None => http_request(payload@) is None,
        },
{
    let n = payload.len();
    if n == 0 {
        return None;
    }
    if n >= 2 && payload[0] == 0x16 && payload[1] == 0x03 {
        return None;
    }
    let b0 = payload[0];
    if !((65 <= b0 && b0 <= 90) || (97 <= b0 && b0 <= 122)) {
        return None;
    }
    let text = match utf8_text(payload) {
        Some(t) => t,
        None => return None,
    };
    let v = str_chars(text);
    let ghost s = v@;
    let len = v.len();
    let c = find_crlf_in(&v);
    let (h, r): (usize, usize) = if c < len {
        (c, c + 2)
    } else {
        let l = find_in(&v, '\n', 0, len);
        if l < len {
            (l, l + 1)
        } else {
            return None;
        }
    };
    assert(head_split(s) == Some((h as int, r as int)));
    let toks = tokens(&v, h);
    if toks.len() < 3 {
        return None;
    }
    let ghost tv = toks@.map_values(|p: (usize, usize)| (p.0 as int, p.1 as int));
    let (m0, m1) = toks[0];
    let (t0, t1) = toks[1];
    let (v0, v1) = toks[2];
    assert(tv[0] == (m0 as int, m1 as int) && tv[1] == (t0 as int, t1 as int) && tv[2] == (v0 as int, v1 as int));
    let http = "HTTP/";
    proof {
        reveal_strlit("HTTP/");
    }
    if !starts_with_at(&v, v0, v1, http) {
        return None;
    }
    if !all_alpha(&v, m0, m1) {
        return None;
    }
    let q = find_in(&v, '?', t0, t1);
    let (path, query) = if q < t1 {
        let h2 = find_in(&v, '#', q + 1, t1);
        (String::from_str(text.substring_char(t0, q)), String::from_str(text.substring_char(q + 1, h2)))
    } else {
        let h2 = find_in(&v, '#', t0, t1);
        (String::from_str(text.substring_char(t0, h2)), String::new())
    };
    let (headers, upgrade_ws) = headers_from(text, &v, r);
    let method = String::from_str(text.substring_char(m0, m1));
    let out = HttpRequestLine { method, path, query, upgrade_ws, headers };
    proof {
        assert(out@.path == target_parts(s, t0 as int, t1 as int).0);
        assert(out@.query == target_parts(s, t0 as int, t1 as int).1);
    }
    Some(out)
}

} // verus!
