//! WiThrottle line-oriented TCP detector.

use vstd::prelude::*;
use vstd::utf8::valid_utf8;
use vstd::utf8::decode_utf8;
use vstd::utf8::encode_utf8;

use crate::client::str_chars;
use crate::text::char_string;
use crate::text::skip_ws_back;
use crate::text::skip_ws_fwd;
use crate::text::starts_with_at;
use crate::text::trim_bounds;
use crate::text::trim_range;
use crate::text::utf8_text;

verus! {

/// One WiThrottle command line.
#[derive(Debug, Clone, PartialEq, Eq)]
pub struct WithrottleLine {
    /// Command family prefix (e.g. `M0A`, `PTA`, `*`).
    pub prefix: String,
    /// MultiThrottle id char, or empty.
    pub throttle: String,
    /// Full trimmed command line.
    pub command: String,
}

/// A line as plain character sequences.
pub struct WithrottleView {
    pub prefix: Seq<char>,
    pub throttle: Seq<char>,
    pub command: Seq<char>,
}

impl View for WithrottleLine {
    type V = WithrottleView;

    open spec fn view(&self) -> WithrottleView {
        WithrottleView { prefix: self.prefix@, throttle: self.throttle@, command: self.command@ }
    }
}

/// Line separators: `\n` and `\r`.
pub open spec fn is_line_sep(c: char) -> bool {
    c == '\n' || c == '\r'
}

/// `u8::is_ascii_alphabetic`.
pub open spec fn ascii_alpha(b: u8) -> bool {
    (65 <= b && b <= 90) || (97 <= b && b <= 122)
}

/// The first `n` characters of `s`, or all of them when there are fewer.
pub open spec fn take_upto(s: Seq<char>, n: int) -> Seq<char> {
    if n <= s.len() {
        s.subrange(0, n)
    } else {
        s
    }
}

/// Prefix and throttle id of a line, read from its UTF-8 bytes: `*` for a
/// heartbeat; for `M` with at least three bytes, the first three characters
/// and the second byte as the throttle id; otherwise the leading run of up to
/// three ASCII letters (at least one character).
pub open spec fn wt_prefix(line: Seq<char>) -> (Seq<char>, Seq<char>) {
    let b = encode_utf8(line);
    if b.len() == 0 {
        (seq![], seq![])
    } else if b[0] == 42 {
        (seq!['*'], seq![])
    } else if b[0] == 77 && b.len() >= 3 {
        (take_upto(line, 3), seq![b[1] as char])
    } else {
        let n: int = if b.len() >= 3 && ascii_alpha(b[0]) && ascii_alpha(b[1]) && ascii_alpha(b[2]) {
            3
        } else if b.len() >= 2 && ascii_alpha(b[0]) && ascii_alpha(b[1]) {
            2
        } else {
            1
        };
        (take_upto(line, n), seq![])
    }
}

/// Start of the ESP8266 (LNWI) noise lines that are skipped.
pub open spec fn lnwi_noise() -> Seq<char> {
    "AT+CIPSENDBUF="@
}

/// The line `s[a..b]` trimmed, unless it is empty or LNWI noise.
pub open spec fn wt_emit(s: Seq<char>, a: int, b: int) -> Seq<WithrottleView> {
    let line = trim_range(s, a, b);
    if line.len() == 0 || (line.len() >= lnwi_noise().len() && line.subrange(0, lnwi_noise().len() as int)
        == lnwi_noise()) {
        seq![]
    } else {
        let (p, t) = wt_prefix(line);
        seq![WithrottleView { prefix: p, throttle: t, command: line }]
    }
}

/// The lines of `s` from position `i` on, where the current line started at
/// `start`: lines are split at every `\n` and `\r`.
pub open spec fn wt_scan(s: Seq<char>, start: int, i: int) -> Seq<WithrottleView>
    decreases s.len() - i,
{
    if i >= s.len() {
        wt_emit(s, start, s.len() as int)
    } else if is_line_sep(s[i]) {
        wt_emit(s, start, i) + wt_scan(s, i + 1, i + 1)
    } else {
        wt_scan(s, start, i + 1)
    }
}

/// The WiThrottle lines of a payload: none unless it is valid UTF-8.
pub open spec fn withrottle_lines(p: Seq<u8>) -> Seq<WithrottleView> {
    if valid_utf8(p) {
        wt_scan(decode_utf8(p), 0, 0)
    } else {
        seq![]
    }
}

/// Split a TCP payload into WiThrottle lines.
pub fn detect_withrottle_lines(payload: &[u8]) -> (r: Vec<WithrottleLine>)
    ensures
        r@.map_values(|l: WithrottleLine| l@) == withrottle_lines(payload@),
{
    let text = match utf8_text(payload) {
        Some(t) => t,
        None => return Vec::new(),
    };
    let v = str_chars(text);
    let n = v.len();
    let mut out: Vec<WithrottleLine> = Vec::new();
    let mut start: usize = 0;
    let mut i: usize = 0;
    while i < n
        invariant
            n == v@.len(),
            v@ == text@,
            text@ == decode_utf8(payload@),
            valid_utf8(payload@),
            start <= i <= n,
            out@.map_values(|l: WithrottleLine| l@) + wt_scan(v@, start as int, i as int) == wt_scan(v@, 0, 0),
        decreases n - i,
    {
        if v[i] == '\n' || v[i] == '\r' {
            let ghost o0 = out@.map_values(|l: WithrottleLine| l@);
            emit_line(text, &v, start, i, &mut out);
            proof {
                assert(o0 + wt_emit(v@, start as int, i as int) + wt_scan(v@, i + 1, i + 1) =~= o0 + (wt_emit(
                    v@,
                    start as int,
                    i as int,
                ) + wt_scan(v@, i + 1, i + 1)));
            }
            start = i + 1;
        }
        i = i + 1;
    }
    emit_line(text, &v, start, n, &mut out);
    proof {
        assert(out@.map_values(|l: WithrottleLine| l@) =~= out@.map_values(|l: WithrottleLine| l@) + seq![]);
    }
    out
}

/// Append the line `v[a..b]` (trimmed) to `out` unless it is empty or noise.
fn emit_line(text: &str, v: &Vec<char>, a: usize, b: usize, out: &mut Vec<WithrottleLine>)
    requires
        v@ == text@,
        a <= b <= v@.len(),
    ensures
        final(out)@.map_values(|l: WithrottleLine| l@) == old(out)@.map_values(|l: WithrottleLine| l@)
            + wt_emit(v@, a as int, b as int),
{
    let (a2, b2) = trim_bounds(v, a, b);
    let ghost line = trim_range(v@, a as int, b as int);
    assert(line == v@.subrange(a2 as int, b2 as int));
    if a2 == b2 {
        assert(old(out)@.map_values(|l: WithrottleLine| l@) + seq![] =~= old(out)@.map_values(
            |l: WithrottleLine| l@,
        ));
        return;
    }
    let noise = "AT+CIPSENDBUF=";
    if starts_with_at(v, a2, b2, noise) {
        assert(v@.subrange(a2 as int, a2 + noise@.len()) =~= line.subrange(0, noise@.len() as int));
        assert(old(out)@.map_values(|l: WithrottleLine| l@) + seq![] =~= old(out)@.map_values(
            |l: WithrottleLine| l@,
        ));
        return;
    }
    proof {
        if line.len() >= noise@.len() && line.subrange(0, noise@.len() as int) == noise@ {
            assert(v@.subrange(a2 as int, a2 + noise@.len()) =~= line.subrange(0, noise@.len() as int));
        }
    }
    let s = text.substring_char(a2, b2);
    let (prefix, throttle) = parse_prefix(s);
    let l = WithrottleLine { prefix, throttle, command: String::from_str(s) };
    let ghost o0 = out@.map_values(|l: WithrottleLine| l@);
    out.push(l);
    assert(out@.map_values(|l: WithrottleLine| l@) =~= o0.push(l@));
}

/// Prefix and throttle id of one non-empty trimmed line.
fn parse_prefix(line: &str) -> (r: (String, String))
    ensures
        (r.0@, r.1@) == wt_prefix(line@),
{
    let bytes = line.as_bytes();
    let n = bytes.len();
    if n == 0 {
        return (String::new(), String::new());
    }
    if bytes[0] == 42 {
        let star = "*";
        proof {
            reveal_strlit("*");
        }
        return (String::from_str(star), String::new());
    }
    let chars = line.unicode_len();
    if bytes[0] == 77 && n >= 3 {
        let k = if chars < 3 {
            chars
        } else {
            3
        };
        let p = line.substring_char(0, k);
        let t = char_string(bytes[1] as char);
        return (String::from_str(p), t);
    }
    let b0 = bytes[0];
    let a0 = (65 <= b0 && b0 <= 90) || (97 <= b0 && b0 <= 122);
    let want: usize = if n >= 3 && a0 && {
        let b1 = bytes[1];
        (65 <= b1 && b1 <= 90) || (97 <= b1 && b1 <= 122)
    } && {
        let b2 = bytes[2];
        (65 <= b2 && b2 <= 90) || (97 <= b2 && b2 <= 122)
    } {
        3
    } else if n >= 2 && a0 && {
        let b1 = bytes[1];
        (65 <= b1 && b1 <= 90) || (97 <= b1 && b1 <= 122)
    } {
        2
    } else {
        1
    };
    let k = if chars < want {
        chars
    } else {
        want
    };
    let p = line.substring_char(0, k);
    (String::from_str(p), String::new())
}

} // verus!
