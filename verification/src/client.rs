//! Client identity: MAC + IP, its text forms and their parsing.

use vstd::prelude::*;

verus! {

broadcast use vstd::array::group_array_axioms;

/// An IP address by its octets.
#[derive(Debug, Clone, Copy, PartialEq, Eq, Hash)]
pub enum IpAddr {
    /// IPv4.
    V4([u8; 4]),
    /// IPv6.
    V6([u8; 16]),
}

/// The array holding a 16-octet sequence.
pub open spec fn array_of_16(g: Seq<u8>) -> [u8; 16] {
    [g[0], g[1], g[2], g[3], g[4], g[5], g[6], g[7], g[8], g[9], g[10], g[11], g[12], g[13], g[14], g[15]]
}

/// Decimal text of a byte, without leading zeros.
pub open spec fn dec_text(n: u8) -> Seq<char> {
    if n < 10 {
        seq![hex_char(n as int)]
    } else if n < 100 {
        seq![hex_char(n as int / 10), hex_char(n as int % 10)]
    } else {
        seq![hex_char(n as int / 100), hex_char((n as int / 10) % 10), hex_char(n as int % 10)]
    }
}

/// Lower-case hex text of a 16-bit group, without leading zeros.
pub open spec fn group_text(v: int) -> Seq<char>
    decreases v,
{
    if v < 16 {
        seq![hex_char(v)]
    } else {
        group_text(v / 16) + seq![hex_char(v % 16)]
    }
}

/// The eight 16-bit groups of an IPv6 address (big-endian octet pairs).
pub open spec fn v6_groups(o: Seq<u8>) -> Seq<int> {
    Seq::new(8, |i: int| o[2 * i] * 256 + o[2 * i + 1])
}

/// Groups joined by ':'.
pub open spec fn join_groups(g: Seq<int>) -> Seq<char>
    decreases g.len(),
{
    if g.len() == 0 {
        Seq::empty()
    } else if g.len() == 1 {
        group_text(g[0])
    } else {
        join_groups(g.drop_last()) + seq![':'] + group_text(g.last())
    }
}

/// Length of the run of zero groups starting at `i`.
pub open spec fn zero_run(g: Seq<int>, i: int) -> int
    decreases g.len() - i,
{
    if i < 0 || i >= g.len() || g[i] != 0 {
        0
    } else {
        1 + zero_run(g, i + 1)
    }
}

/// The longest zero run at or after `i` (its start and length), the first
/// one among equally long runs; length 0 when there is none.
pub open spec fn longest_run(g: Seq<int>, i: int) -> (int, int)
    decreases g.len() - i,
{
    if i < 0 || i >= g.len() {
        (i, 0)
    } else {
        let rest = longest_run(g, i + 1);
        if zero_run(g, i) >= rest.1 && zero_run(g, i) > 0 {
            (i, zero_run(g, i))
        } else {
            rest
        }
    }
}

/// RFC 5952 text of an IPv6 address as std formats it: IPv4-mapped
/// addresses as `::ffff:a.b.c.d`; otherwise lower-case groups with the first
/// longest run of two or more zero groups written as `::`.
pub open spec fn ipv6_text(o: Seq<u8>) -> Seq<char> {
    let g = v6_groups(o);
    if g[0] == 0 && g[1] == 0 && g[2] == 0 && g[3] == 0 && g[4] == 0 && g[5] == 0xffff {
        seq![':', ':', 'f', 'f', 'f', 'f', ':'] + ipv4_text(o.subrange(12, 16))
    } else {
        let (s, l) = longest_run(g, 0);
        if l > 1 {
            join_groups(g.subrange(0, s)) + seq![':', ':'] + join_groups(g.subrange(s + l, 8))
        } else {
            join_groups(g)
        }
    }
}

/// One IPv6 group: one to four hex digits.
pub open spec fn hex_group(s: Seq<char>) -> Option<int> {
    if s.len() == 0 || s.len() > 4 {
        None
    } else {
        hex_number(s)
    }
}

/// The groups that ':'-separated pieces stand for: each piece a hex group,
/// except that with `v4_last` the last piece may be a dotted IPv4 address,
/// which stands for two groups.
pub open spec fn piece_groups(p: Seq<Seq<char>>, v4_last: bool) -> Option<Seq<int>>
    decreases p.len(),
{
    if p.len() == 0 {
        Some(Seq::empty())
    } else {
        match piece_groups(p.drop_last(), false) {
            None => None,
            Some(front) => match hex_group(p.last()) {
                Some(v) => Some(front.push(v)),
                None => if v4_last {
                    match ipv4_parse(p.last()) {
                        Some(o) => Some(front.push(o[0] * 256 + o[1]).push(o[2] * 256 + o[3])),
                        None => None,
                    }
                } else {
                    None
                },
            },
        }
    }
}

/// Groups of a side of `::` (no pieces when the side is empty).
pub open spec fn side_groups(s: Seq<char>, v4_last: bool) -> Option<Seq<int>> {
    if s.len() == 0 {
        Some(Seq::empty())
    } else {
        piece_groups(split_on(s, ':'), v4_last)
    }
}

/// Index of the first "::" in `s`, or -1.
pub open spec fn double_colon(s: Seq<char>) -> int
    decreases s.len(),
{
    if s.len() < 2 {
        -1
    } else {
        let i = double_colon(s.drop_last());
        if i >= 0 {
            i
        } else if s[s.len() - 2] == ':' && s[s.len() - 1] == ':' {
            s.len() - 2
        } else {
            -1
        }
    }
}

/// The sixteen octets of eight groups.
pub open spec fn v6_octets(g: Seq<int>) -> Seq<u8> {
    Seq::new(16, |i: int| if i % 2 == 0 { (g[i / 2] / 256) as u8 } else { (g[i / 2] % 256) as u8 })
}

/// An IPv6 address text as std's parser reads it: eight groups, or groups
/// before and after one `::` that stands for at least one zero group; a
/// dotted IPv4 address may end the text (never before `::`).
pub open spec fn ipv6_parse(s: Seq<char>) -> Option<Seq<u8>> {
    let k = double_colon(s);
    if k >= 0 {
        match (side_groups(s.subrange(0, k), false), side_groups(s.subrange(k + 2, s.len() as int), true)) {
            (Some(h), Some(t)) => if h.len() + t.len() <= 7 {
                Some(v6_octets(h + Seq::new((8 - h.len() - t.len()) as nat, |i: int| 0int) + t))
            } else {
                None
            },
            _ => None,
        }
    } else {
        match piece_groups(split_on(s, ':'), true) {
            Some(g) => if g.len() == 8 { Some(v6_octets(g)) } else { None },
            None => None,
        }
    }
}

/// Dotted-decimal text of an IPv4 address.
pub open spec fn ipv4_text(o: Seq<u8>) -> Seq<char> {
    dec_text(o[0]) + seq!['.'] + dec_text(o[1]) + seq!['.'] + dec_text(o[2]) + seq!['.'] + dec_text(o[3])
}

/// Text of an address: dotted decimal for IPv4, RFC 5952 text for IPv6.
pub open spec fn ip_text(ip: IpAddr) -> Seq<char> {
    match ip {
        IpAddr::V4(o) => ipv4_text(o@),
        IpAddr::V6(g) => ipv6_text(g@),
    }
}

/// Value of a decimal digit character.
pub open spec fn dec_value(c: char) -> Option<int> {
    if '0' <= c && c <= '9' {
        Some(c as int - 48)
    } else {
        None
    }
}

/// Value of a run of decimal digits, or None when one is not a digit.
pub open spec fn dec_number(s: Seq<char>) -> Option<int>
    decreases s.len(),
{
    if s.len() == 0 {
        Some(0)
    } else {
        match (dec_number(s.drop_last()), dec_value(s.last())) {
            (Some(a), Some(d)) => Some(a * 10 + d),
            _ => None,
        }
    }
}

/// One octet of a dotted-decimal address: one to three digits, no leading
/// zero unless the octet is `0`, at most 255.
pub open spec fn dec_octet(s: Seq<char>) -> Option<u8> {
    if s.len() == 0 || s.len() > 3 || (s.len() > 1 && s[0] == '0') {
        None
    } else {
        match dec_number(s) {
            Some(v) => if v <= 255 { Some(v as u8) } else { None },
            None => None,
        }
    }
}

/// A dotted-decimal IPv4 address: exactly four octets.
pub open spec fn ipv4_parse(s: Seq<char>) -> Option<[u8; 4]> {
    let p = split_on(s, '.');
    if p.len() != 4 {
        None
    } else {
        match (dec_octet(p[0]), dec_octet(p[1]), dec_octet(p[2]), dec_octet(p[3])) {
            (Some(a), Some(b), Some(c), Some(d)) => Some([a, b, c, d]),
            _ => None,
        }
    }
}

/// An address text: IPv4 when it parses as one, else IPv6.
pub open spec fn ip_parse(s: Seq<char>) -> Option<IpAddr> {
    match ipv4_parse(s) {
        Some(o) => Some(IpAddr::V4(o)),
        None => match ipv6_parse(s) {
            Some(g) => Some(IpAddr::V6(array_of_16(g))),
            None => None,
        },
    }
}

/// The unspecified IPv4 address `0.0.0.0`.
pub open spec fn unspecified_v4() -> IpAddr {
    IpAddr::V4([0u8, 0u8, 0u8, 0u8])
}

/// Lower-case hex digit for `d < 16`.
pub open spec fn hex_char(d: int) -> char {
    if d < 10 {
        ((d + 48) as u32) as char
    } else {
        ((d + 87) as u32) as char
    }
}

/// Two lower-case hex digits of a byte.
pub open spec fn hex2(b: u8) -> Seq<char> {
    seq![hex_char(b as int / 16), hex_char(b as int % 16)]
}

/// `aa:bb:cc:dd:ee:ff` text of a MAC.
pub open spec fn mac_text(m: Seq<u8>) -> Seq<char> {
    hex2(m[0]) + seq![':'] + hex2(m[1]) + seq![':'] + hex2(m[2]) + seq![':'] + hex2(m[3]) + seq![':']
        + hex2(m[4]) + seq![':'] + hex2(m[5])
}

/// Value of a hex digit character (either case).
pub open spec fn hex_value(c: char) -> Option<int> {
    if '0' <= c && c <= '9' {
        Some(c as int - 48)
    } else if 'a' <= c && c <= 'f' {
        Some(c as int - 87)
    } else if 'A' <= c && c <= 'F' {
        Some(c as int - 55)
    } else {
        None
    }
}

/// Value of a run of hex digits, or None when one is not a hex digit.
pub open spec fn hex_number(s: Seq<char>) -> Option<int>
    decreases s.len(),
{
    if s.len() == 0 {
        Some(0)
    } else {
        match (hex_number(s.drop_last()), hex_value(s.last())) {
            (Some(a), Some(d)) => Some(a * 16 + d),
            _ => None,
        }
    }
}

/// `u8::from_str_radix(s, 16)`: an optional '+' then at least one hex digit,
/// with a value that fits a byte.
pub open spec fn hex_byte(s: Seq<char>) -> Option<u8> {
    let digits = if s.len() > 0 && s[0] == '+' { s.subrange(1, s.len() as int) } else { s };
    if digits.len() == 0 {
        None
    } else {
        match hex_number(digits) {
            Some(v) => if v <= 255 { Some(v as u8) } else { None },
            None => None,
        }
    }
}

/// The pieces of `s` between occurrences of `c` (always at least one).
pub open spec fn split_on(s: Seq<char>, c: char) -> Seq<Seq<char>>
    decreases s.len(),
{
    if s.len() == 0 {
        seq![Seq::<char>::empty()]
    } else {
        let t = split_on(s.drop_last(), c);
        if s.last() == c {
            t.push(Seq::<char>::empty())
        } else {
            t.update(t.len() - 1, t.last().push(s.last()))
        }
    }
}

/// A MAC from its text: exactly six ':'-separated pieces, each a hex byte.
pub open spec fn mac_parse(s: Seq<char>) -> Option<[u8; 6]> {
    let p = split_on(s, ':');
    if p.len() != 6 {
        None
    } else {
        match (hex_byte(p[0]), hex_byte(p[1]), hex_byte(p[2]), hex_byte(p[3]), hex_byte(p[4]), hex_byte(p[5])) {
            (Some(a), Some(b), Some(c), Some(d), Some(e), Some(f)) => Some([a, b, c, d, e, f]),
            _ => None,
        }
    }
}

/// Index of the first occurrence of `c` in `s`, or -1.
pub open spec fn first_index(s: Seq<char>, c: char) -> int
    decreases s.len(),
{
    if s.len() == 0 {
        -1
    } else {
        let i = first_index(s.drop_last(), c);
        if i >= 0 {
            i
        } else if s.last() == c {
            s.len() - 1
        } else {
            -1
        }
    }
}

/// The client a `mac` or `mac@ip` text names (a missing ip is `0.0.0.0`).
pub open spec fn client_parse(s: Seq<char>) -> Option<ClientId> {
    let at = first_index(s, '@');
    let mac_s = if at >= 0 { s.subrange(0, at) } else { s };
    let ip = if at >= 0 { ip_parse(s.subrange(at + 1, s.len() as int)) } else { Some(unspecified_v4()) };
    match (mac_parse(mac_s), ip) {
        (Some(mac), Some(ip)) => Some(ClientId { mac, ip }),
        _ => None,
    }
}

/// Unique client key: L2 MAC + L3 IP (a router MAC paired with the client's own IP).
#[derive(Debug, Clone, Copy, PartialEq, Eq, Hash)]
pub struct ClientId {
    /// Ethernet MAC.
    pub mac: [u8; 6],
    /// Client IP (IPv4 or IPv6).
    pub ip: IpAddr,
}

/// Error for a text that names no client.
#[derive(Debug, Clone, PartialEq, Eq)]
pub struct ClientRefParseError(pub String);

impl ClientId {
    /// `mac@ip` key text.
    pub open spec fn key_text(self) -> Seq<char> {
        mac_text(self.mac@) + seq!['@'] + ip_text(self.ip)
    }

    /// Construct a client id.
    pub fn new(mac: [u8; 6], ip: IpAddr) -> (r: ClientId)
        ensures
            r.mac == mac,
            r.ip == ip,
    {
        ClientId { mac, ip }
    }

    /// Format MAC as `aa:bb:cc:dd:ee:ff`.
    pub fn mac_string(&self) -> (r: String)
        ensures
            r@ == mac_text(self.mac@),
    {
        let mut s = hex_pair(self.mac[0]);
        let mut i: usize = 1;
        while i < 6
            invariant
                1 <= i <= 6,
                s@ == mac_prefix(self.mac@, i as int),
            decreases 6 - i,
        {
            s.append(":");
            let p = hex_pair(self.mac[i]);
            s.append(p.as_str());
            proof {
                reveal_strlit(":");
            }
            i = i + 1;
        }
        assert(mac_prefix(self.mac@, 6) =~= mac_text(self.mac@)) by {
            reveal_with_fuel(mac_prefix, 6);
        }
        s
    }

    /// Redis / wire key: `mac@ip`.
    pub fn storage_key(&self) -> (r: String)
        ensures
            r@ == self.key_text(),
    {
        let mut s = self.mac_string();
        s.append("@");
        let ip = ip_to_string(&self.ip);
        s.append(ip.as_str());
        proof {
            reveal_strlit("@");
        }
        s
    }

    /// Display form (the storage key).
    pub fn to_text(&self) -> (r: String)
        ensures
            r@ == self.key_text(),
    {
        self.storage_key()
    }

    /// Parse `aa:bb:cc:dd:ee:ff` or `aa:bb:cc:dd:ee:ff@1.2.3.4`.
    pub fn parse(s: &str) -> (r: Result<ClientId, ClientRefParseError>)
        ensures
            match r {
                Ok(c) => client_parse(s@) == Some(c),
                Err(ClientRefParseError(m)) => client_parse(s@) is None && m@ == s@,
            },
    {
        let n = s.unicode_len();
        let mut at: usize = 0;
        while at < n && s.get_char(at) != '@'
            invariant
                n == s@.len(),
                at <= n,
                forall|j: int| 0 <= j < at ==> s@[j] != '@',
            decreases n - at,
        {
            at = at + 1;
        }
        proof {
            lemma_first_index(s@, '@', at as int);
        }
        let mac_s = if at < n { s.substring_char(0, at) } else { s };
        let ip = if at < n {
            parse_ip(s.substring_char(at + 1, n))
        } else {
            Some(IpAddr::V4([0u8, 0u8, 0u8, 0u8]))
        };
        proof {
            if at >= n {
                assert(mac_s@ == s@);
            }
        }
        match (parse_mac(mac_s), ip) {
            (Some(mac), Some(ip)) => Ok(ClientId { mac, ip }),
            _ => Err(ClientRefParseError(s.to_string())),
        }
    }
}

impl ClientRefParseError {
    /// The message: `invalid client ref: ` and the text.
    pub fn message(&self) -> (r: String)
        ensures
            r@ == "invalid client ref: "@ + self.0@,
    {
        let head = String::from_str("invalid client ref: ");
        head.concat(self.0.as_str())
    }
}

impl std::str::FromStr for ClientId {
    type Err = ClientRefParseError;

    fn from_str(s: &str) -> (r: Result<ClientId, ClientRefParseError>)
        ensures
            match r {
                Ok(c) => client_parse(s@) == Some(c),
                Err(ClientRefParseError(m)) => client_parse(s@) is None && m@ == s@,
            },
    {
        ClientId::parse(s)
    }
}


/// The characters of a text.
pub fn str_chars(s: &str) -> (r: Vec<char>)
    ensures
        r@ == s@,
{
    let n = s.unicode_len();
    let mut r: Vec<char> = Vec::new();
    let mut i: usize = 0;
    while i < n
        invariant
            n == s@.len(),
            i <= n,
            r@ == s@.subrange(0, i as int),
        decreases n - i,
    {
        r.push(s.get_char(i));
        i = i + 1;
    }
    assert(r@ =~= s@);
    r
}

/// The characters `v[a..b]`.
pub fn sub_chars(v: &Vec<char>, a: usize, b: usize) -> (r: Vec<char>)
    requires
        a <= b <= v@.len(),
    ensures
        r@ == v@.subrange(a as int, b as int),
{
    let mut r: Vec<char> = Vec::new();
    let mut i: usize = a;
    while i < b
        invariant
            a <= i <= b <= v@.len(),
            r@ == v@.subrange(a as int, i as int),
        decreases b - i,
    {
        r.push(v[i]);
        i = i + 1;
    }
    r
}

/// The pieces of `v` between occurrences of `c`.
pub fn split_chars(v: &Vec<char>, c: char) -> (r: Vec<Vec<char>>)
    ensures
        r@.map_values(|p: Vec<char>| p@) == split_on(v@, c),
        r@.len() >= 1,
{
    let n = v.len();
    let mut parts: Vec<Vec<char>> = Vec::new();
    parts.push(Vec::new());
    assert(parts@.map_values(|p: Vec<char>| p@) =~= split_on(v@.subrange(0, 0), c));
    let mut i: usize = 0;
    while i < n
        invariant
            n == v@.len(),
            i <= n,
            parts@.len() >= 1,
            parts@.map_values(|p: Vec<char>| p@) == split_on(v@.subrange(0, i as int), c),
        decreases n - i,
    {
        let x = v[i];
        let ghost pv = parts@.map_values(|p: Vec<char>| p@);
        assert(v@.subrange(0, i + 1).drop_last() =~= v@.subrange(0, i as int));
        if x == c {
            parts.push(Vec::new());
            assert(parts@.map_values(|p: Vec<char>| p@) =~= pv.push(Seq::<char>::empty()));
        } else {
            let last = parts.len() - 1;
            let mut cur = parts.remove(last);
            let ghost c0 = cur@;
            cur.push(x);
            parts.push(cur);
            assert(parts@.map_values(|p: Vec<char>| p@) =~= pv.update(pv.len() - 1, c0.push(x)));
        }
        i = i + 1;
    }
    assert(v@.subrange(0, n as int) =~= v@);
    parts
}

/// Text of one decimal digit.
fn digit_str(d: u8) -> (r: &'static str)
    requires
        d < 10,
    ensures
        r@ == seq![hex_char(d as int)],
{
    hex_digit(d)
}

/// Decimal text of a byte, without leading zeros.
pub fn dec_string(n: u8) -> (r: String)
    ensures
        r@ == dec_text(n),
{
    if n < 10 {
        String::from_str(digit_str(n))
    } else if n < 100 {
        let r = String::from_str(digit_str(n / 10)).concat(digit_str(n % 10));
        assert(r@ =~= dec_text(n));
        r
    } else {
        let r = String::from_str(digit_str(n / 100)).concat(digit_str((n / 10) % 10)).concat(digit_str(n % 10));
        assert(r@ =~= dec_text(n));
        r
    }
}

/// Dotted-decimal text of an IPv4 address.
pub fn ipv4_string(o: &[u8; 4]) -> (r: String)
    ensures
        r@ == ipv4_text(o@),
{
    proof {
        reveal_strlit(".");
    }
    let mut s = dec_string(o[0]);
    s.append(".");
    s.append(dec_string(o[1]).as_str());
    s.append(".");
    s.append(dec_string(o[2]).as_str());
    s.append(".");
    s.append(dec_string(o[3]).as_str());
    assert(s@ =~= ipv4_text(o@));
    s
}

/// Lower-case hex text of a group, without leading zeros.
pub fn group_string(v: u16) -> (r: String)
    ensures
        r@ == group_text(v as int),
    decreases v,
{
    if v < 16 {
        String::from_str(hex_digit(v as u8))
    } else {
        let front = group_string(v / 16);
        let r = front.concat(hex_digit((v % 16) as u8));
        r
    }
}

/// Groups `g[a..b]` joined by ':'.
fn join_string(g: &Vec<u16>, a: usize, b: usize) -> (r: String)
    requires
        a <= b <= g@.len(),
    ensures
        r@ == join_groups(g@.subrange(a as int, b as int).map_values(|x: u16| x as int)),
{
    proof {
        reveal_strlit(":");
    }
    let mut s = String::new();
    let mut i: usize = a;
    while i < b
        invariant
            a <= i <= b <= g@.len(),
            s@ == join_groups(g@.subrange(a as int, i as int).map_values(|x: u16| x as int)),
        decreases b - i,
    {
        let ghost prev = g@.subrange(a as int, i as int).map_values(|x: u16| x as int);
        let ghost next = g@.subrange(a as int, i + 1).map_values(|x: u16| x as int);
        assert(next.drop_last() =~= prev);
        assert(next.last() == g@[i as int] as int);
        let ghost s0 = s@;
        proof {
            reveal_strlit(":");
        }
        if i > a {
            s.append(":");
        }
        let t = group_string(g[i]);
        s.append(t.as_str());
        proof {
            if i > a {
                assert(s@ =~= s0 + seq![':'] + group_text(g@[i as int] as int));
            } else {
                assert(s@ =~= group_text(g@[i as int] as int));
            }
        }
        i = i + 1;
    }
    s
}

/// RFC 5952 text of an IPv6 address, as std formats it.
pub fn ipv6_string(o: &[u8; 16]) -> (r: String)
    ensures
        r@ == ipv6_text(o@),
{
    let mut g: Vec<u16> = Vec::new();
    let mut i: usize = 0;
    while i < 8
        invariant
            i <= 8,
            g@.len() == i,
            forall|j: int| 0 <= j < i ==> g@[j] as int == v6_groups(o@)[j],
        decreases 8 - i,
    {
        g.push((o[2 * i] as u16) * 256 + (o[2 * i + 1] as u16));
        i = i + 1;
    }
    let ghost gv = g@.map_values(|x: u16| x as int);
    assert(gv =~= v6_groups(o@));
    if g[0] == 0 && g[1] == 0 && g[2] == 0 && g[3] == 0 && g[4] == 0 && g[5] == 0xffff {
        let v4 = [o[12], o[13], o[14], o[15]];
        assert(v4@ =~= o@.subrange(12, 16));
        let r = String::from_str("::ffff:").concat(ipv4_string(&v4).as_str());
        proof {
            reveal_strlit("::ffff:");
        }
        return r;
    }
    // longest run of zero groups, first among equals, scanning from the back
    let mut best_s: usize = 8;
    let mut best_l: usize = 0;
    let mut run: usize = 0;
    let mut k: usize = 8;
    while k > 0
        invariant
            k <= 8,
            gv == g@.map_values(|x: u16| x as int),
            g@.len() == 8,
            run as int == zero_run(gv, k as int),
            (best_s as int, best_l as int) == longest_run(gv, k as int),
            best_l <= 8 - k,
        decreases k,
    {
        k = k - 1;
        if g[k] == 0 {
            run = run + 1;
        } else {
            run = 0;
        }
        if run >= best_l && run > 0 {
            best_s = k;
            best_l = run;
        }
        proof {
            lemma_zero_run_bound(gv, k as int);
        }
    }
    if best_l > 1 {
        proof {
            lemma_longest_run_bounds(gv, 0);
            assert(g@.subrange(0, best_s as int).map_values(|x: u16| x as int) =~= gv.subrange(0, best_s as int));
            assert(g@.subrange((best_s + best_l) as int, 8).map_values(|x: u16| x as int) =~= gv.subrange(
                (best_s + best_l) as int,
                8,
            ));
            reveal_strlit("::");
        }
        let front = join_string(&g, 0, best_s);
        let back = join_string(&g, best_s + best_l, 8);
        front.concat("::").concat(back.as_str())
    } else {
        proof {
            assert(g@.subrange(0, 8).map_values(|x: u16| x as int) =~= gv);
        }
        join_string(&g, 0, 8)
    }
}

/// A zero run fits in what is left of the sequence.
proof fn lemma_zero_run_bound(g: Seq<int>, i: int)
    requires
        0 <= i <= g.len(),
    ensures
        0 <= zero_run(g, i) <= g.len() - i,
    decreases g.len() - i,
{
    if i < g.len() {
        lemma_zero_run_bound(g, i + 1);
    }
}

/// The longest run lies inside the sequence.
proof fn lemma_longest_run_bounds(g: Seq<int>, i: int)
    requires
        0 <= i <= g.len(),
    ensures
        longest_run(g, i).1 > 0 ==> i <= longest_run(g, i).0 && longest_run(g, i).0 + longest_run(g, i).1
            <= g.len(),
        longest_run(g, i).1 >= 0,
    decreases g.len() - i,
{
    if i < g.len() {
        lemma_longest_run_bounds(g, i + 1);
        lemma_zero_run_bound(g, i);
    }
}

/// Text of an address: dotted decimal for IPv4, RFC 5952 text for IPv6.
pub fn ip_to_string(ip: &IpAddr) -> (r: String)
    ensures
        r@ == ip_text(*ip),
{
    match ip {
        IpAddr::V4(o) => ipv4_string(o),
        IpAddr::V6(o) => ipv6_string(o),
    }
}

/// Value of a run of decimal digits (at most three), if all are digits.
fn parse_dec_octet(p: &Vec<char>) -> (r: Option<u8>)
    ensures
        r == dec_octet(p@),
{
    if p.len() == 0 || p.len() > 3 || (p.len() > 1 && p[0] == '0') {
        return None;
    }
    let mut v: u32 = 0;
    let mut i: usize = 0;
    while i < p.len()
        invariant
            i <= p@.len() <= 3,
            dec_number(p@.subrange(0, i as int)) == Some(v as int),
            v < 1000,
            i == 0 ==> v == 0,
            i == 1 ==> v < 10,
            i == 2 ==> v < 100,
        decreases p@.len() - i,
    {
        let c = p[i];
        assert(p@.subrange(0, i + 1).drop_last() =~= p@.subrange(0, i as int));
        if '0' <= c && c <= '9' {
            v = v * 10 + ((c as u32) - 48);
        } else {
            proof {
                lemma_dec_number_prefix_none(p@, i + 1);
            }
            return None;
        }
        i = i + 1;
    }
    assert(p@.subrange(0, p@.len() as int) =~= p@);
    if v <= 255 {
        Some(v as u8)
    } else {
        None
    }
}

/// A non-digit in a prefix spoils the whole decimal number.
proof fn lemma_dec_number_prefix_none(s: Seq<char>, n: int)
    requires
        0 < n <= s.len(),
        dec_number(s.subrange(0, n)) is None,
    ensures
        dec_number(s) is None,
    decreases s.len() - n,
{
    if n < s.len() {
        assert(s.subrange(0, n + 1).drop_last() =~= s.subrange(0, n));
        lemma_dec_number_prefix_none(s, n + 1);
    } else {
        assert(s.subrange(0, n) =~= s);
    }
}

/// A dotted-decimal IPv4 address.
fn parse_ipv4_chars(v: &Vec<char>) -> (r: Option<[u8; 4]>)
    ensures
        r == ipv4_parse(v@),
{
    let parts = split_chars(v, '.');
    if parts.len() != 4 {
        return None;
    }
    match (parse_dec_octet(&parts[0]), parse_dec_octet(&parts[1]), parse_dec_octet(&parts[2]), parse_dec_octet(&parts[3])) {
        (Some(a), Some(b), Some(c), Some(d)) => Some([a, b, c, d]),
        _ => None,
    }
}

/// One to four hex digits.
fn parse_hex_group(p: &Vec<char>) -> (r: Option<u16>)
    ensures
        match r {
            Some(x) => hex_group(p@) == Some(x as int),
            None => hex_group(p@) is None,
        },
{
    if p.len() == 0 || p.len() > 4 {
        return None;
    }
    let mut v: u32 = 0;
    let mut i: usize = 0;
    while i < p.len()
        invariant
            i <= p@.len() <= 4,
            hex_number(p@.subrange(0, i as int)) == Some(v as int),
            i == 0 ==> v == 0,
            i == 1 ==> v < 16,
            i == 2 ==> v < 256,
            i == 3 ==> v < 4096,
            i == 4 ==> v < 65536,
        decreases p@.len() - i,
    {
        let c = p[i];
        assert(p@.subrange(0, i + 1).drop_last() =~= p@.subrange(0, i as int));
        let d: u32 = if '0' <= c && c <= '9' {
            (c as u32) - 48
        } else if 'a' <= c && c <= 'f' {
            (c as u32) - 87
        } else if 'A' <= c && c <= 'F' {
            (c as u32) - 55
        } else {
            proof {
                lemma_hex_number_prefix_none(p@, i + 1);
            }
            return None;
        };
        v = v * 16 + d;
        i = i + 1;
    }
    assert(p@.subrange(0, p@.len() as int) =~= p@);
    Some(v as u16)
}

/// Groups of ':'-separated pieces, the last possibly a dotted IPv4 address.
fn parse_pieces(p: &Vec<Vec<char>>, v4_last: bool) -> (r: Option<Vec<u16>>)
    ensures
        match r {
            Some(g) => piece_groups(p@.map_values(|x: Vec<char>| x@), v4_last) == Some(
                g@.map_values(|x: u16| x as int),
            ),
            None => piece_groups(p@.map_values(|x: Vec<char>| x@), v4_last) is None,
        },
{
    let ghost pv = p@.map_values(|x: Vec<char>| x@);
    let mut g: Vec<u16> = Vec::new();
    if p.len() == 0 {
        assert(g@.map_values(|x: u16| x as int) =~= Seq::<int>::empty());
        return Some(g);
    }
    let n = p.len() - 1;
    let mut i: usize = 0;
    while i < n
        invariant
            n + 1 == p@.len(),
            i <= n,
            pv == p@.map_values(|x: Vec<char>| x@),
            piece_groups(pv.take(i as int), false) == Some(g@.map_values(|x: u16| x as int)),
        decreases n - i,
    {
        assert(pv.take(i + 1).drop_last() =~= pv.take(i as int));
        match parse_hex_group(&p[i]) {
            Some(x) => {
                let ghost g0 = g@.map_values(|x: u16| x as int);
                g.push(x);
                assert(g@.map_values(|x: u16| x as int) =~= g0.push(x as int));
            },
            None => {
                proof {
                    lemma_piece_groups_prefix_none(pv, i as int + 1, v4_last);
                }
                return None;
            },
        }
        i = i + 1;
    }
    assert(pv.drop_last() =~= pv.take(n as int));
    let ghost g0 = g@.map_values(|x: u16| x as int);
    match parse_hex_group(&p[n]) {
        Some(x) => {
            g.push(x);
            assert(g@.map_values(|x: u16| x as int) =~= g0.push(x as int));
            Some(g)
        },
        None => {
            if !v4_last {
                return None;
            }
            match parse_ipv4_chars(&p[n]) {
                Some(o) => {
                    g.push((o[0] as u16) * 256 + (o[1] as u16));
                    g.push((o[2] as u16) * 256 + (o[3] as u16));
                    assert(g@.map_values(|x: u16| x as int) =~= g0.push(o[0] * 256 + o[1]).push(o[2] * 256 + o[3]));
                    Some(g)
                },
                None => None,
            }
        },
    }
}

/// A failure on a prefix of pieces is a failure of the whole.
proof fn lemma_piece_groups_prefix_none(p: Seq<Seq<char>>, n: int, v4_last: bool)
    requires
        0 < n < p.len(),
        piece_groups(p.take(n), false) is None,
    ensures
        piece_groups(p, v4_last) is None,
    decreases p.len() - n,
{
    assert(p.drop_last().take(n) =~= p.take(n));
    if n < p.len() - 1 {
        lemma_piece_groups_prefix_none(p.drop_last(), n, false);
    } else {
        assert(p.drop_last() =~= p.take(n));
    }
}

/// Index of the first "::", if any.
fn find_double_colon(v: &Vec<char>) -> (r: Option<usize>)
    ensures
        match r {
            Some(k) => double_colon(v@) == k as int && k + 2 <= v@.len(),
            None => double_colon(v@) == -1,
        },
{
    let mut k: usize = 0;
    while k < v.len() && v.len() - k > 1
        invariant
            k <= v@.len(),
            forall|j: int| 0 <= j < k && j + 1 < v@.len() ==> !(#[trigger] v@[j] == ':' && v@[j + 1] == ':'),
        decreases v@.len() - k,
    {
        if v[k] == ':' && v[k + 1] == ':' {
            proof {
                lemma_double_colon(v@, k as int);
            }
            return Some(k);
        }
        k = k + 1;
    }
    proof {
        lemma_double_colon(v@, v@.len() as int);
    }
    None
}

/// `double_colon` is the first position of "::".
proof fn lemma_double_colon(s: Seq<char>, k: int)
    requires
        0 <= k <= s.len(),
        forall|j: int| 0 <= j < k && j + 1 < s.len() ==> !(#[trigger] s[j] == ':' && s[j + 1] == ':'),
        k == s.len() || (k + 1 < s.len() && s[k] == ':' && s[k + 1] == ':') || k + 1 == s.len(),
    ensures
        k + 1 < s.len() ==> double_colon(s) == k,
        k + 1 >= s.len() ==> double_colon(s) == -1,
    decreases s.len(),
{
    if s.len() >= 2 {
        if k + 1 < s.len() - 1 {
            lemma_double_colon(s.drop_last(), k);
        } else if k + 1 == s.len() - 1 {
            lemma_double_colon(s.drop_last(), k);
            assert(s.drop_last().len() == k + 1);
        } else {
            lemma_double_colon(s.drop_last(), (s.len() - 1) as int);
        }
    }
}

/// Groups of one side of `::`.
fn parse_side(v: &Vec<char>, v4_last: bool) -> (r: Option<Vec<u16>>)
    ensures
        match r {
            Some(g) => side_groups(v@, v4_last) == Some(g@.map_values(|x: u16| x as int)),
            None => side_groups(v@, v4_last) is None,
        },
{
    if v.len() == 0 {
        let g: Vec<u16> = Vec::new();
        assert(g@.map_values(|x: u16| x as int) =~= Seq::<int>::empty());
        return Some(g);
    }
    let parts = split_chars(v, ':');
    parse_pieces(&parts, v4_last)
}

/// The sixteen octets of eight groups.
fn octets_of(g: &Vec<u16>) -> (r: [u8; 16])
    requires
        g@.len() == 8,
    ensures
        r == array_of_16(v6_octets(g@.map_values(|x: u16| x as int))),
{
    let r = [
        (g[0] / 256) as u8, (g[0] % 256) as u8, (g[1] / 256) as u8, (g[1] % 256) as u8,
        (g[2] / 256) as u8, (g[2] % 256) as u8, (g[3] / 256) as u8, (g[3] % 256) as u8,
        (g[4] / 256) as u8, (g[4] % 256) as u8, (g[5] / 256) as u8, (g[5] % 256) as u8,
        (g[6] / 256) as u8, (g[6] % 256) as u8, (g[7] / 256) as u8, (g[7] % 256) as u8,
    ];
    assert(r =~= array_of_16(v6_octets(g@.map_values(|x: u16| x as int))));
    r
}

/// An IPv6 address text.
fn parse_ipv6_chars(v: &Vec<char>) -> (r: Option<[u8; 16]>)
    ensures
        r == (match ipv6_parse(v@) {
            Some(o) => Some(array_of_16(o)),
            None => None,
        }),
{
    let dc = find_double_colon(v);
    match dc {
        Some(k) => {
            let vlen = v.len();
            assert(k + 2 <= vlen);
            let head = sub_chars(v, 0, k);
            let tail = sub_chars(v, k + 2, vlen);
            match (parse_side(&head, false), parse_side(&tail, true)) {
                (Some(h), Some(t)) => {
                    if h.len() > 7 || t.len() > 7 - h.len() {
                        return None;
                    }
                    let mut g: Vec<u16> = Vec::new();
                    let mut i: usize = 0;
                    while i < h.len()
                        invariant
                            i <= h@.len(),
                            g@ == h@.subrange(0, i as int),
                        decreases h@.len() - i,
                    {
                        g.push(h[i]);
                        i = i + 1;
                    }
                    let zeros = 8 - h.len() - t.len();
                    let mut z: usize = 0;
                    while z < zeros
                        invariant
                            z <= zeros,
                            g@ == h@ + Seq::new(z as nat, |q: int| 0u16),
                        decreases zeros - z,
                    {
                        g.push(0);
                        z = z + 1;
                        assert(g@ =~= h@ + Seq::new(z as nat, |q: int| 0u16));
                    }
                    let mut j: usize = 0;
                    while j < t.len()
                        invariant
                            j <= t@.len(),
                            g@ == h@ + Seq::new(zeros as nat, |q: int| 0u16) + t@.subrange(0, j as int),
                        decreases t@.len() - j,
                    {
                        g.push(t[j]);
                        j = j + 1;
                        assert(g@ =~= h@ + Seq::new(zeros as nat, |q: int| 0u16) + t@.subrange(0, j as int));
                    }
                    assert(g@.map_values(|x: u16| x as int) =~= h@.map_values(|x: u16| x as int) + Seq::new(
                        (8 - h@.len() - t@.len()) as nat,
                        |q: int| 0int,
                    ) + t@.map_values(|x: u16| x as int));
                    Some(octets_of(&g))
                },
                _ => None,
            }
        },
        None => {
            let parts = split_chars(v, ':');
            match parse_pieces(&parts, true) {
                Some(g) => if g.len() == 8 {
                    Some(octets_of(&g))
                } else {
                    None
                },
                None => None,
            }
        },
    }
}

/// Parses an address text: IPv4 first, else IPv6.
pub fn parse_ip(s: &str) -> (r: Option<IpAddr>)
    ensures
        r == ip_parse(s@),
{
    let v = str_chars(s);
    match parse_ipv4_chars(&v) {
        Some(o) => Some(IpAddr::V4(o)),
        None => match parse_ipv6_chars(&v) {
            Some(g) => Some(IpAddr::V6(g)),
            None => None,
        },
    }
}

/// The first `i` ':'-joined hex pairs of a MAC.
pub open spec fn mac_prefix(m: Seq<u8>, i: int) -> Seq<char>
    decreases i,
{
    if i <= 1 {
        hex2(m[0])
    } else {
        mac_prefix(m, i - 1) + seq![':'] + hex2(m[i - 1])
    }
}

/// A lower-case hex digit as text.
fn hex_digit(d: u8) -> (r: &'static str)
    requires
        d < 16,
    ensures
        r@ == seq![hex_char(d as int)],
{
    proof {
        reveal_strlit("0");
        reveal_strlit("1");
        reveal_strlit("2");
        reveal_strlit("3");
        reveal_strlit("4");
        reveal_strlit("5");
        reveal_strlit("6");
        reveal_strlit("7");
        reveal_strlit("8");
        reveal_strlit("9");
        reveal_strlit("a");
        reveal_strlit("b");
        reveal_strlit("c");
        reveal_strlit("d");
        reveal_strlit("e");
        reveal_strlit("f");
    }
    match d {
        0 => "0",
        1 => "1",
        2 => "2",
        3 => "3",
        4 => "4",
        5 => "5",
        6 => "6",
        7 => "7",
        8 => "8",
        9 => "9",
        10 => "a",
        11 => "b",
        12 => "c",
        13 => "d",
        14 => "e",
        _ => "f",
    }
}

/// Two lower-case hex digits of a byte.
fn hex_pair(b: u8) -> (r: String)
    ensures
        r@ == hex2(b),
{
    let s = String::from_str(hex_digit(b / 16));
    let r = s.concat(hex_digit(b % 16));
    assert(r@ =~= hex2(b));
    r
}

/// `first_index` is the index of the first occurrence.
proof fn lemma_first_index(s: Seq<char>, c: char, j: int)
    requires
        0 <= j <= s.len(),
        forall|i: int| 0 <= i < j ==> s[i] != c,
        j == s.len() || s[j] == c,
    ensures
        first_index(s, c) == if j == s.len() { -1 } else { j },
    decreases s.len(),
{
    if s.len() > 0 {
        if j == s.len() {
            lemma_first_index(s.drop_last(), c, j - 1);
        } else {
            lemma_first_index(s.drop_last(), c, j);
        }
    }
}

/// `u8::from_str_radix(p, 16)` on one piece of a MAC.
fn parse_hex_byte(p: &Vec<char>) -> (r: Option<u8>)
    ensures
        r == hex_byte(p@),
{
    let start: usize = if p.len() > 0 && p[0] == '+' { 1 } else { 0 };
    let ghost digits = if p@.len() > 0 && p@[0] == '+' { p@.subrange(1, p@.len() as int) } else { p@ };
    assert(digits =~= p@.subrange(start as int, p@.len() as int));
    if start >= p.len() {
        return None;
    }
    let mut v: u32 = 0;
    let mut i: usize = start;
    while i < p.len()
        invariant
            start <= i <= p@.len(),
            digits =~= p@.subrange(start as int, p@.len() as int),
            digits == (if p@.len() > 0 && p@[0] == '+' { p@.subrange(1, p@.len() as int) } else { p@ }),
            hex_number(digits.subrange(0, i - start)) == Some(v as int),
            v <= 255,
        decreases p@.len() - i,
    {
        let c = p[i];
        let d: u32 = if '0' <= c && c <= '9' {
            (c as u32) - 48
        } else if 'a' <= c && c <= 'f' {
            (c as u32) - 87
        } else if 'A' <= c && c <= 'F' {
            (c as u32) - 55
        } else {
            proof {
                assert(digits.subrange(0, i + 1 - start).drop_last() =~= digits.subrange(0, i - start));
                lemma_hex_number_prefix_none(digits, i + 1 - start);
            }
            return None;
        };
        assert(digits.subrange(0, i + 1 - start).drop_last() =~= digits.subrange(0, i - start));
        let nv = v * 16 + d;
        if nv > 255 {
            proof {
                lemma_hex_number_prefix_big(digits, i + 1 - start);
            }
            return None;
        }
        v = nv;
        i = i + 1;
    }
    assert(digits.subrange(0, p@.len() - start) =~= digits);
    Some(v as u8)
}

/// A non-digit in a prefix spoils the whole number.
proof fn lemma_hex_number_prefix_none(s: Seq<char>, n: int)
    requires
        0 < n <= s.len(),
        hex_number(s.subrange(0, n)) is None,
    ensures
        hex_number(s) is None,
    decreases s.len() - n,
{
    if n < s.len() {
        assert(s.subrange(0, n + 1).drop_last() =~= s.subrange(0, n));
        lemma_hex_number_prefix_none(s, n + 1);
    } else {
        assert(s.subrange(0, n) =~= s);
    }
}

/// A prefix above 255 keeps the whole number above 255 (or spoils it).
proof fn lemma_hex_number_prefix_big(s: Seq<char>, n: int)
    requires
        0 < n <= s.len(),
        match hex_number(s.subrange(0, n)) {
            Some(v) => v > 255,
            None => true,
        },
    ensures
        match hex_number(s) {
            Some(v) => v > 255,
            None => true,
        },
    decreases s.len() - n,
{
    if n < s.len() {
        assert(s.subrange(0, n + 1).drop_last() =~= s.subrange(0, n));
        lemma_hex_number_nonneg(s.subrange(0, n));
        lemma_hex_number_prefix_big(s, n + 1);
    } else {
        assert(s.subrange(0, n) =~= s);
    }
}

/// Hex numbers are non-negative.
proof fn lemma_hex_number_nonneg(s: Seq<char>)
    ensures
        hex_number(s) matches Some(v) ==> v >= 0,
    decreases s.len(),
{
    if s.len() > 0 {
        lemma_hex_number_nonneg(s.drop_last());
    }
}

/// Parse `aa:bb:cc:dd:ee:ff`: six ':'-separated hex bytes.
pub fn parse_mac(s: &str) -> (r: Option<[u8; 6]>)
    ensures
        r == mac_parse(s@),
{
    let n = s.unicode_len();
    let mut parts: Vec<Vec<char>> = Vec::new();
    parts.push(Vec::new());
    let mut i: usize = 0;
    while i < n
        invariant
            n == s@.len(),
            i <= n,
            parts@.len() >= 1,
            parts@.map_values(|p: Vec<char>| p@) == split_on(s@.subrange(0, i as int), ':'),
        decreases n - i,
    {
        let c = s.get_char(i);
        let ghost pv = parts@.map_values(|p: Vec<char>| p@);
        assert(s@.subrange(0, i + 1).drop_last() =~= s@.subrange(0, i as int));
        if c == ':' {
            parts.push(Vec::new());
            assert(parts@.map_values(|p: Vec<char>| p@) =~= pv.push(Seq::<char>::empty()));
        } else {
            let last = parts.len() - 1;
            let mut cur = parts.remove(last);
            let ghost c0 = cur@;
            cur.push(c);
            parts.push(cur);
            assert(parts@.map_values(|p: Vec<char>| p@) =~= pv.update(pv.len() - 1, c0.push(c)));
        }
        i = i + 1;
    }
    assert(s@.subrange(0, n as int) =~= s@);
    if parts.len() != 6 {
        return None;
    }
    let a = parse_hex_byte(&parts[0]);
    let b = parse_hex_byte(&parts[1]);
    let c = parse_hex_byte(&parts[2]);
    let d = parse_hex_byte(&parts[3]);
    let e = parse_hex_byte(&parts[4]);
    let f = parse_hex_byte(&parts[5]);
    match (a, b, c, d, e, f) {
        (Some(a), Some(b), Some(c), Some(d), Some(e), Some(f)) => {
            let r = [a, b, c, d, e, f];
            assert(mac_parse(s@) == Some(r));
            Some(r)
        },
        _ => None,
    }
}

/// Equality of client ids, octet by octet.
pub fn same_client(a: &ClientId, b: &ClientId) -> (r: bool)
    ensures
        r == (*a == *b),
{
    let mut i: usize = 0;
    while i < 6
        invariant
            i <= 6,
            forall|j: int| 0 <= j < i ==> a.mac@[j] == b.mac@[j],
        decreases 6 - i,
    {
        if a.mac[i] != b.mac[i] {
            assert(a.mac@[i as int] != b.mac@[i as int]);
            return false;
        }
        i = i + 1;
    }
    assert(a.mac =~= b.mac);
    match (a.ip, b.ip) {
        (IpAddr::V4(x), IpAddr::V4(y)) => {
            let mut k: usize = 0;
            while k < 4
                invariant
                    k <= 4,
                    a.ip == IpAddr::V4(x),
                    b.ip == IpAddr::V4(y),
                    forall|j: int| 0 <= j < k ==> x@[j] == y@[j],
                decreases 4 - k,
            {
                if x[k] != y[k] {
                    assert(x@[k as int] != y@[k as int]);
                    assert(x != y);
                    return false;
                }
                k = k + 1;
            }
            assert(x =~= y);
            true
        },
        (IpAddr::V6(x), IpAddr::V6(y)) => {
            let mut k: usize = 0;
            while k < 16
                invariant
                    k <= 16,
                    a.ip == IpAddr::V6(x),
                    b.ip == IpAddr::V6(y),
                    forall|j: int| 0 <= j < k ==> x@[j] == y@[j],
                decreases 16 - k,
            {
                if x[k] != y[k] {
                    assert(x@[k as int] != y@[k as int]);
                    assert(x != y);
                    return false;
                }
                k = k + 1;
            }
            assert(x =~= y);
            true
        },
        _ => false,
    }
}

/// `t` holds no `c`.
pub open spec fn lacks(t: Seq<char>, c: char) -> bool {
    forall|i: int| 0 <= i < t.len() ==> t[i] != c
}

/// Splitting always gives at least one piece.
proof fn lemma_split_len(s: Seq<char>, c: char)
    ensures
        split_on(s, c).len() >= 1,
    decreases s.len(),
{
    if s.len() > 0 {
        lemma_split_len(s.drop_last(), c);
    }
}

/// A text without the separator splits into itself.
proof fn lemma_split_plain(w: Seq<char>, c: char)
    requires
        lacks(w, c),
    ensures
        split_on(w, c) == seq![w],
    decreases w.len(),
{
    if w.len() > 0 {
        lemma_split_plain(w.drop_last(), c);
        assert(w.drop_last().push(w.last()) =~= w);
        assert(seq![w.drop_last()].update(0, w.drop_last().push(w.last())) =~= seq![w]);
    } else {
        assert(w =~= Seq::<char>::empty());
    }
}

/// Splitting at a separator splits both sides.
proof fn lemma_split_join(x: Seq<char>, y: Seq<char>, c: char)
    ensures
        split_on(x + seq![c] + y, c) == split_on(x, c) + split_on(y, c),
    decreases y.len(),
{
    let s = x + seq![c] + y;
    if y.len() == 0 {
        assert(s.drop_last() =~= x);
        assert(y =~= Seq::<char>::empty());
        assert(split_on(x, c).push(Seq::<char>::empty()) =~= split_on(x, c) + split_on(y, c));
    } else {
        lemma_split_join(x, y.drop_last(), c);
        lemma_split_len(y.drop_last(), c);
        assert(s.drop_last() =~= x + seq![c] + y.drop_last());
        assert(s.last() == y.last());
        let a = split_on(x, c);
        let t = split_on(y.drop_last(), c);
        if y.last() == c {
            assert((a + t).push(Seq::<char>::empty()) =~= a + t.push(Seq::<char>::empty()));
        } else {
            assert((a + t).update((a + t).len() - 1, (a + t).last().push(y.last())) =~= a + t.update(
                t.len() - 1,
                t.last().push(y.last()),
            ));
        }
    }
}

/// Digits in text.
proof fn lemma_hex_char(d: int)
    requires
        0 <= d < 16,
    ensures
        hex_char(d) as int == if d < 10 {
            d + 48
        } else {
            d + 87
        },
        hex_value(hex_char(d)) == Some(d),
        d < 10 ==> dec_value(hex_char(d)) == Some(d),
{
}

/// Two hex digits hold no separator.
proof fn lemma_hex2_lacks(b: u8, c: char)
    requires
        c == ':' || c == '@' || c == '.' || c == '+',
    ensures
        lacks(hex2(b), c),
{
    lemma_hex_char(b as int / 16);
    lemma_hex_char(b as int % 16);
}

/// Two hex digits read back as their byte.
proof fn lemma_hex2_round_trip(b: u8)
    ensures
        hex_byte(hex2(b)) == Some(b),
{
    let s = hex2(b);
    lemma_hex_char(b as int / 16);
    lemma_hex_char(b as int % 16);
    lemma_hex2_lacks(b, '+');
    let e = Seq::<char>::empty();
    let one = s.drop_last();
    assert(one =~= seq![hex_char(b as int / 16)]);
    assert(one.drop_last() =~= e);
    assert(hex_number(e) == Some(0int));
    assert(one.last() == hex_char(b as int / 16));
    assert(hex_number(one) == Some(b as int / 16));
    assert(s.last() == hex_char(b as int % 16));
    assert(hex_number(s) == Some(b as int));
}

/// Decimal digits of a byte hold no separator.
proof fn lemma_dec_text_lacks(n: u8, c: char)
    requires
        c == '.' || c == ':' || c == '@',
    ensures
        lacks(dec_text(n), c),
{
    lemma_hex_char(n as int % 10);
    lemma_hex_char((n as int / 10) % 10);
    if n < 100 {
        lemma_hex_char(n as int / 10);
    } else {
        lemma_hex_char(n as int / 100);
    }
}

/// Decimal digits read back as their byte.
proof fn lemma_dec_round_trip(n: u8)
    ensures
        dec_octet(dec_text(n)) == Some(n),
{
    let s = dec_text(n);
    lemma_hex_char(n as int % 10);
    if n < 10 {
        assert(s.drop_last() =~= Seq::<char>::empty());
    } else if n < 100 {
        lemma_hex_char(n as int / 10);
        let one = s.drop_last();
        assert(one =~= seq![hex_char(n as int / 10)]);
        assert(one.drop_last() =~= Seq::<char>::empty());
        assert(dec_number(Seq::<char>::empty()) == Some(0int));
        assert(one.last() == hex_char(n as int / 10));
        assert(dec_number(one) == Some(n as int / 10));
        assert(s.last() == hex_char(n as int % 10));
    } else {
        lemma_hex_char(n as int / 100);
        lemma_hex_char((n as int / 10) % 10);
        let t = s.drop_last();
        assert(t =~= seq![hex_char(n as int / 100), hex_char((n as int / 10) % 10)]);
        let one = t.drop_last();
        assert(one =~= seq![hex_char(n as int / 100)]);
        assert(one.drop_last() =~= Seq::<char>::empty());
        assert(dec_number(Seq::<char>::empty()) == Some(0int));
        assert(one.last() == hex_char(n as int / 100));
        assert(dec_number(one) == Some(n as int / 100));
        assert(t.last() == hex_char((n as int / 10) % 10));
        assert(dec_number(t) == Some(n as int / 10));
        assert(s.last() == hex_char(n as int % 10));
    }
}

/// A joined text lacks a character both sides and the joint lack.
proof fn lemma_lacks_join(x: Seq<char>, j: char, y: Seq<char>, c: char)
    requires
        lacks(x, c),
        lacks(y, c),
        j != c,
    ensures
        lacks(x + seq![j] + y, c),
{
    let s = x + seq![j] + y;
    assert forall|i: int| 0 <= i < s.len() implies s[i] != c by {
        if i < x.len() {
            assert(s[i] == x[i]);
        } else if i > x.len() {
            assert(s[i] == y[i - x.len() - 1]);
        }
    }
}

/// A MAC's text reads back as the MAC.
proof fn lemma_mac_round_trip(m: [u8; 6])
    ensures
        mac_parse(mac_text(m@)) == Some(m),
        mac_text(m@).len() == 17,
        lacks(mac_text(m@), '@'),
{
    let c = ':';
    let a1 = hex2(m@[0]);
    let a2 = a1 + seq![c] + hex2(m@[1]);
    let a3 = a2 + seq![c] + hex2(m@[2]);
    let a4 = a3 + seq![c] + hex2(m@[3]);
    let a5 = a4 + seq![c] + hex2(m@[4]);
    let a6 = a5 + seq![c] + hex2(m@[5]);
    assert(a6 == mac_text(m@));
    lemma_hex2_lacks(m@[0], ':');
    lemma_hex2_lacks(m@[1], ':');
    lemma_hex2_lacks(m@[2], ':');
    lemma_hex2_lacks(m@[3], ':');
    lemma_hex2_lacks(m@[4], ':');
    lemma_hex2_lacks(m@[5], ':');
    lemma_hex2_lacks(m@[0], '@');
    lemma_hex2_lacks(m@[1], '@');
    lemma_hex2_lacks(m@[2], '@');
    lemma_hex2_lacks(m@[3], '@');
    lemma_hex2_lacks(m@[4], '@');
    lemma_hex2_lacks(m@[5], '@');
    lemma_hex2_round_trip(m@[0]);
    lemma_hex2_round_trip(m@[1]);
    lemma_hex2_round_trip(m@[2]);
    lemma_hex2_round_trip(m@[3]);
    lemma_hex2_round_trip(m@[4]);
    lemma_hex2_round_trip(m@[5]);
    lemma_split_plain(hex2(m@[0]), c);
    lemma_split_plain(hex2(m@[1]), c);
    lemma_split_plain(hex2(m@[2]), c);
    lemma_split_plain(hex2(m@[3]), c);
    lemma_split_plain(hex2(m@[4]), c);
    lemma_split_plain(hex2(m@[5]), c);
    lemma_split_join(a1, hex2(m@[1]), c);
    lemma_split_join(a2, hex2(m@[2]), c);
    lemma_split_join(a3, hex2(m@[3]), c);
    lemma_split_join(a4, hex2(m@[4]), c);
    lemma_split_join(a5, hex2(m@[5]), c);
    let p = split_on(a6, c);
    assert(p =~= seq![hex2(m@[0]), hex2(m@[1]), hex2(m@[2]), hex2(m@[3]), hex2(m@[4]), hex2(m@[5])]);
    assert([m@[0], m@[1], m@[2], m@[3], m@[4], m@[5]] =~= m);
    lemma_lacks_join(a1, c, hex2(m@[1]), '@');
    lemma_lacks_join(a2, c, hex2(m@[2]), '@');
    lemma_lacks_join(a3, c, hex2(m@[3]), '@');
    lemma_lacks_join(a4, c, hex2(m@[4]), '@');
    lemma_lacks_join(a5, c, hex2(m@[5]), '@');
}

/// An IPv4 address's text reads back as the address.
proof fn lemma_ipv4_round_trip(o: [u8; 4])
    ensures
        ip_parse(ipv4_text(o@)) == Some(IpAddr::V4(o)),
{
    let c = '.';
    let a1 = dec_text(o@[0]);
    let a2 = a1 + seq![c] + dec_text(o@[1]);
    let a3 = a2 + seq![c] + dec_text(o@[2]);
    let a4 = a3 + seq![c] + dec_text(o@[3]);
    assert(a4 == ipv4_text(o@));
    lemma_dec_text_lacks(o@[0], c);
    lemma_dec_text_lacks(o@[1], c);
    lemma_dec_text_lacks(o@[2], c);
    lemma_dec_text_lacks(o@[3], c);
    lemma_dec_round_trip(o@[0]);
    lemma_dec_round_trip(o@[1]);
    lemma_dec_round_trip(o@[2]);
    lemma_dec_round_trip(o@[3]);
    lemma_split_plain(dec_text(o@[0]), c);
    lemma_split_plain(dec_text(o@[1]), c);
    lemma_split_plain(dec_text(o@[2]), c);
    lemma_split_plain(dec_text(o@[3]), c);
    lemma_split_join(a1, dec_text(o@[1]), c);
    lemma_split_join(a2, dec_text(o@[2]), c);
    lemma_split_join(a3, dec_text(o@[3]), c);
    assert(split_on(a4, c) =~= seq![dec_text(o@[0]), dec_text(o@[1]), dec_text(o@[2]), dec_text(o@[3])]);
    assert([o@[0], o@[1], o@[2], o@[3]] =~= o);
}

/// No "::" anywhere in `s`.
pub open spec fn no_double_colon(s: Seq<char>) -> bool {
    forall|j: int| 0 <= j && j + 1 < s.len() ==> !(#[trigger] s[j] == ':' && s[j + 1] == ':')
}

/// A group's hex text: one to four digits that read back as the group.
proof fn lemma_group_text(v: int)
    requires
        0 <= v < 65536,
    ensures
        1 <= group_text(v).len() <= 4,
        v < 16 ==> group_text(v).len() == 1,
        v < 256 ==> group_text(v).len() <= 2,
        v < 4096 ==> group_text(v).len() <= 3,
        hex_number(group_text(v)) == Some(v),
        hex_group(group_text(v)) == Some(v),
        lacks(group_text(v), ':'),
        lacks(group_text(v), '.'),
    decreases v,
{
    let t = group_text(v);
    if v < 16 {
        lemma_hex_char(v);
        assert(t.drop_last() =~= Seq::<char>::empty());
        assert(hex_number(Seq::<char>::empty()) == Some(0int));
    } else {
        lemma_group_text(v / 16);
        lemma_hex_char(v % 16);
        let u = group_text(v / 16);
        assert(t == u + seq![hex_char(v % 16)]);
        assert(t.drop_last() =~= u);
        assert(t.last() == hex_char(v % 16));
        assert(hex_number(t) == Some((v / 16) * 16 + v % 16));
        assert forall|i: int| 0 <= i < t.len() implies t[i] != ':' && t[i] != '.' by {
            if i < u.len() {
                assert(t[i] == u[i]);
            }
        }
    }
}

/// Groups joined by ':' split back into the groups' texts, hold no "::"
/// and no '.', and neither begin nor end with ':'.
proof fn lemma_join_groups(g: Seq<int>)
    requires
        forall|i: int| 0 <= i < g.len() ==> 0 <= #[trigger] g[i] < 65536,
    ensures
        g.len() > 0 ==> split_on(join_groups(g), ':') == g.map_values(|v: int| group_text(v)),
        g.len() > 0 ==> join_groups(g).len() > 0 && join_groups(g)[0] != ':' && join_groups(g).last()
            != ':',
        g.len() == 0 ==> join_groups(g).len() == 0,
        lacks(join_groups(g), '.'),
        no_double_colon(join_groups(g)),
    decreases g.len(),
{
    let s = join_groups(g);
    if g.len() == 1 {
        lemma_group_text(g[0]);
        lemma_split_plain(s, ':');
        assert(g.map_values(|v: int| group_text(v)) =~= seq![s]);
    } else if g.len() >= 2 {
        let d = g.drop_last();
        assert forall|i: int| 0 <= i < d.len() implies 0 <= #[trigger] d[i] < 65536 by {
            assert(d[i] == g[i]);
        }
        lemma_join_groups(d);
        lemma_group_text(g.last());
        let x = join_groups(d);
        let y = group_text(g.last());
        assert(s == x + seq![':'] + y);
        lemma_split_join(x, y, ':');
        lemma_split_plain(y, ':');
        assert(g.map_values(|v: int| group_text(v)) =~= d.map_values(|v: int| group_text(v)) + seq![y]);
        lemma_lacks_join(x, ':', y, '.');
        assert(s[0] == x[0]);
        assert(s.last() == y.last());
        assert forall|j: int| 0 <= j && j + 1 < s.len() implies !(#[trigger] s[j] == ':' && s[j + 1]
            == ':') by {
            if j + 1 < x.len() {
                assert(s[j] == x[j] && s[j + 1] == x[j + 1]);
            } else if j + 1 == x.len() {
                assert(s[j] == x.last());
            } else if j == x.len() {
                assert(s[j + 1] == y[0]);
            } else {
                assert(s[j] == y[j - x.len() - 1]);
            }
        }
    }
}

/// The groups' texts read back as the groups.
proof fn lemma_pieces_of_groups(g: Seq<int>, v4_last: bool)
    requires
        forall|i: int| 0 <= i < g.len() ==> 0 <= #[trigger] g[i] < 65536,
    ensures
        piece_groups(g.map_values(|v: int| group_text(v)), v4_last) == Some(g),
    decreases g.len(),
{
    let p = g.map_values(|v: int| group_text(v));
    if g.len() > 0 {
        let d = g.drop_last();
        assert forall|i: int| 0 <= i < d.len() implies 0 <= #[trigger] d[i] < 65536 by {
            assert(d[i] == g[i]);
        }
        lemma_pieces_of_groups(d, false);
        lemma_group_text(g.last());
        assert(p.drop_last() =~= d.map_values(|v: int| group_text(v)));
        assert(p.last() == group_text(g.last()));
        assert(d.push(g.last()) =~= g);
    } else {
        assert(p =~= Seq::<Seq<char>>::empty());
        assert(g =~= Seq::<int>::empty());
    }
}

/// One side of `::` written as joined groups reads back as those groups.
proof fn lemma_side_of_groups(g: Seq<int>, v4_last: bool)
    requires
        forall|i: int| 0 <= i < g.len() ==> 0 <= #[trigger] g[i] < 65536,
    ensures
        side_groups(join_groups(g), v4_last) == Some(g),
{
    lemma_join_groups(g);
    if g.len() > 0 {
        lemma_pieces_of_groups(g, v4_last);
    } else {
        assert(g =~= Seq::<int>::empty());
    }
}

/// The groups a zero run covers are zero.
proof fn lemma_zero_run_zeros(g: Seq<int>, i: int)
    requires
        0 <= i <= g.len(),
    ensures
        forall|j: int| i <= j < i + zero_run(g, i) ==> g[j] == 0,
    decreases g.len() - i,
{
    if i < g.len() && g[i] == 0 {
        lemma_zero_run_zeros(g, i + 1);
    }
}

/// The longest run is a zero run.
proof fn lemma_longest_run_is_run(g: Seq<int>, i: int)
    requires
        0 <= i <= g.len(),
    ensures
        longest_run(g, i).1 > 0 ==> zero_run(g, longest_run(g, i).0) == longest_run(g, i).1,
    decreases g.len() - i,
{
    if i < g.len() {
        lemma_longest_run_is_run(g, i + 1);
    }
}

/// Octet pairs make groups below 65536, and the groups give the octets back.
proof fn lemma_octets_of_groups(o: Seq<u8>)
    requires
        o.len() == 16,
    ensures
        forall|i: int| 0 <= i < 8 ==> 0 <= #[trigger] v6_groups(o)[i] < 65536,
        v6_octets(v6_groups(o)) =~= o,
{
    let g = v6_groups(o);
    assert forall|i: int| 0 <= i < 8 implies 0 <= #[trigger] g[i] < 65536 by {
        let a = o[2 * i] as int;
        let b = o[2 * i + 1] as int;
        assert(0 <= a * 256 + b < 65536) by (nonlinear_arith)
            requires
                0 <= a < 256,
                0 <= b < 256,
        ;
    }
    assert forall|i: int| 0 <= i < 16 implies #[trigger] v6_octets(g)[i] == o[i] by {
        let k = i / 2;
        let a = o[2 * k] as int;
        let b = o[2 * k + 1] as int;
        assert(g[k] == a * 256 + b);
        assert((a * 256 + b) / 256 == a && (a * 256 + b) % 256 == b) by (nonlinear_arith)
            requires
                0 <= a < 256,
                0 <= b < 256,
        ;
    }
}

/// Dotted-decimal text holds no ':' and has at least seven characters.
proof fn lemma_ipv4_text_shape(o: Seq<u8>)
    requires
        o.len() == 4,
    ensures
        lacks(ipv4_text(o), ':'),
        ipv4_text(o).len() >= 7,
{
    let c = '.';
    let a1 = dec_text(o[0]);
    let a2 = a1 + seq![c] + dec_text(o[1]);
    let a3 = a2 + seq![c] + dec_text(o[2]);
    let a4 = a3 + seq![c] + dec_text(o[3]);
    assert(a4 == ipv4_text(o));
    lemma_dec_text_lacks(o[0], ':');
    lemma_dec_text_lacks(o[1], ':');
    lemma_dec_text_lacks(o[2], ':');
    lemma_dec_text_lacks(o[3], ':');
    lemma_lacks_join(a1, c, dec_text(o[1]), ':');
    lemma_lacks_join(a2, c, dec_text(o[2]), ':');
    lemma_lacks_join(a3, c, dec_text(o[3]), ':');
}

/// IPv4-mapped addresses are written `::ffff:` and dotted decimal.
pub open spec fn is_v4_mapped(g: Seq<int>) -> bool {
    g[0] == 0 && g[1] == 0 && g[2] == 0 && g[3] == 0 && g[4] == 0 && g[5] == 0xffff
}

/// The mapped form is no dotted-decimal text: its first '.'-piece is long.
proof fn lemma_mapped_not_v4(o: Seq<u8>)
    requires
        o.len() == 16,
        is_v4_mapped(v6_groups(o)),
    ensures
        ipv4_parse(ipv6_text(o)) is None,
{
    let s = ipv6_text(o);
    let a = o.subrange(12, 16);
    let ff = seq!['f', 'f', 'f', 'f'];
    let c = '.';
    let d0 = dec_text(a[0]);
    let head = seq![':', ':'] + ff + seq![':'] + d0;
    let b2 = head + seq![c] + dec_text(a[1]);
    let b3 = b2 + seq![c] + dec_text(a[2]);
    assert(s =~= b3 + seq![c] + dec_text(a[3]));
    lemma_dec_text_lacks(a[0], c);
    lemma_dec_text_lacks(a[1], c);
    lemma_dec_text_lacks(a[2], c);
    lemma_dec_text_lacks(a[3], c);
    assert forall|i: int| 0 <= i < head.len() implies head[i] != c by {
        if i >= 7 {
            assert(head[i] == d0[i - 7]);
        }
    }
    lemma_split_plain(head, c);
    lemma_split_plain(dec_text(a[1]), c);
    lemma_split_plain(dec_text(a[2]), c);
    lemma_split_plain(dec_text(a[3]), c);
    lemma_split_join(head, dec_text(a[1]), c);
    lemma_split_join(b2, dec_text(a[2]), c);
    lemma_split_join(b3, dec_text(a[3]), c);
    assert(split_on(s, c)[0] == head);
}

/// "ffff" is the text of the group 0xffff.
proof fn lemma_ffff()
    ensures
        hex_group(seq!['f', 'f', 'f', 'f']) == Some(65535int),
{
    lemma_group_text(65535);
    assert(group_text(15) == seq!['f']);
    assert(group_text(255) == seq!['f', 'f']);
    assert(group_text(4095) == seq!['f', 'f', 'f']);
    assert(group_text(65535) == seq!['f', 'f', 'f', 'f']);
}

/// `ffff:a.b.c.d` after `::` reads back as five zero groups, 0xffff and the
/// two groups of the IPv4 address.
proof fn lemma_mapped_parse(a: [u8; 4])
    ensures
        ipv6_parse(seq![':', ':', 'f', 'f', 'f', 'f', ':'] + ipv4_text(a@)) == Some(
            v6_octets(
                Seq::<int>::empty() + Seq::new(5, |i: int| 0int) + seq![65535int, a@[0] * 256 + a@[1], a@[2] * 256 + a@[3]],
            ),
        ),
{
    let v4 = ipv4_text(a@);
    let s = seq![':', ':', 'f', 'f', 'f', 'f', ':'] + v4;
    lemma_ipv4_round_trip(a);
    lemma_ipv4_text_shape(a@);
    let ff = seq!['f', 'f', 'f', 'f'];
    lemma_ffff();
    let right = ff + seq![':'] + v4;
    assert(s =~= seq![':', ':'] + right);
    lemma_double_colon(s, 0);
    assert(s.subrange(0, 0) =~= Seq::<char>::empty());
    assert(s.subrange(2, s.len() as int) =~= right);
    lemma_split_plain(ff, ':');
    lemma_split_plain(v4, ':');
    lemma_split_join(ff, v4, ':');
    let p = split_on(right, ':');
    assert(p =~= seq![ff, v4]);
    assert(p.drop_last() =~= seq![ff]);
    let e = Seq::<Seq<char>>::empty();
    assert(seq![ff].drop_last() =~= e);
    assert(piece_groups(e, false) == Some(Seq::<int>::empty()));
    assert(Seq::<int>::empty().push(65535int) =~= seq![65535int]);
    assert(piece_groups(seq![ff], false) == Some(seq![65535int]));
    assert(hex_group(v4) is None);
    let t = seq![65535int, a@[0] * 256 + a@[1], a@[2] * 256 + a@[3]];
    assert(seq![65535int].push(a@[0] * 256 + a@[1]).push(a@[2] * 256 + a@[3]) =~= t);
    assert(piece_groups(p, true) == Some(t));
    assert(side_groups(right, true) == Some(t));
}

/// The mapped form reads back as the address.
proof fn lemma_mapped_round_trip(o: Seq<u8>)
    requires
        o.len() == 16,
        is_v4_mapped(v6_groups(o)),
    ensures
        ipv6_parse(ipv6_text(o)) == Some(o),
{
    let g = v6_groups(o);
    let a: [u8; 4] = [o[12], o[13], o[14], o[15]];
    assert(a@ =~= o.subrange(12, 16));
    let t = seq![65535int, a@[0] * 256 + a@[1], a@[2] * 256 + a@[3]];
    let w = Seq::<int>::empty() + Seq::new(5, |i: int| 0int) + t;
    assert(w =~= g) by {
        assert(a@[0] == o[12] && a@[1] == o[13] && a@[2] == o[14] && a@[3] == o[15]);
        assert(g[6] == o[12] * 256 + o[13]);
        assert(g[7] == o[14] * 256 + o[15]);
    }
    assert(ipv6_text(o) == seq![':', ':', 'f', 'f', 'f', 'f', ':'] + ipv4_text(a@));
    lemma_mapped_parse(a);
    lemma_octets_of_groups(o);
}

/// Groups around a `::` that stands for at least two zero groups read back
/// as the groups with the zeros between them.
proof fn lemma_run_parse(h: Seq<int>, t: Seq<int>)
    requires
        forall|i: int| 0 <= i < h.len() ==> 0 <= #[trigger] h[i] < 65536,
        forall|i: int| 0 <= i < t.len() ==> 0 <= #[trigger] t[i] < 65536,
        h.len() + t.len() <= 6,
    ensures
        ipv6_parse(join_groups(h) + seq![':', ':'] + join_groups(t)) == Some(
            v6_octets(h + Seq::new((8 - h.len() - t.len()) as nat, |i: int| 0int) + t),
        ),
        ipv4_parse(join_groups(h) + seq![':', ':'] + join_groups(t)) is None,
{
    let x = join_groups(h);
    let y = join_groups(t);
    let s = x + seq![':', ':'] + y;
    lemma_join_groups(h);
    lemma_join_groups(t);
    lemma_side_of_groups(h, false);
    lemma_side_of_groups(t, true);
    let k = x.len() as int;
    assert forall|j: int| 0 <= j < k && j + 1 < s.len() implies !(#[trigger] s[j] == ':' && s[j + 1]
        == ':') by {
        if j + 1 < k {
            assert(s[j] == x[j] && s[j + 1] == x[j + 1]);
        } else {
            assert(s[j] == x.last());
        }
    }
    lemma_double_colon(s, k);
    assert(s.subrange(0, k) =~= x);
    assert(s.subrange(k + 2, s.len() as int) =~= y);
    let w = seq![':'] + y;
    assert(s =~= x + seq![':'] + w);
    assert forall|i: int| 0 <= i < w.len() implies w[i] != '.' by {
        if i > 0 {
            assert(w[i] == y[i - 1]);
        }
    }
    lemma_lacks_join(x, ':', w, '.');
    lemma_split_plain(s, '.');
}

/// The form with a `::` for the longest zero run reads back as the address.
#[verifier::rlimit(60)]
proof fn lemma_run_round_trip(o: Seq<u8>)
    requires
        o.len() == 16,
        !is_v4_mapped(v6_groups(o)),
        longest_run(v6_groups(o), 0).1 > 1,
    ensures
        ipv6_parse(ipv6_text(o)) == Some(o),
        ipv4_parse(ipv6_text(o)) is None,
{
    let g = v6_groups(o);
    lemma_octets_of_groups(o);
    let (st, l) = longest_run(g, 0);
    lemma_longest_run_bounds(g, 0);
    lemma_longest_run_is_run(g, 0);
    lemma_zero_run_zeros(g, st);
    let h = g.subrange(0, st);
    let t = g.subrange(st + l, 8);
    assert forall|i: int| 0 <= i < h.len() implies 0 <= #[trigger] h[i] < 65536 by {
        assert(h[i] == g[i]);
    }
    assert forall|i: int| 0 <= i < t.len() implies 0 <= #[trigger] t[i] < 65536 by {
        assert(t[i] == g[st + l + i]);
    }
    lemma_run_parse(h, t);
    assert(ipv6_text(o) == join_groups(h) + seq![':', ':'] + join_groups(t));
    assert(h + Seq::new((8 - h.len() - t.len()) as nat, |i: int| 0int) + t =~= g);
}

/// The form with every group written reads back as the address.
proof fn lemma_plain_round_trip(o: Seq<u8>)
    requires
        o.len() == 16,
        !is_v4_mapped(v6_groups(o)),
        longest_run(v6_groups(o), 0).1 <= 1,
    ensures
        ipv6_parse(ipv6_text(o)) == Some(o),
        ipv4_parse(ipv6_text(o)) is None,
{
    let g = v6_groups(o);
    lemma_octets_of_groups(o);
    let s = ipv6_text(o);
    assert(s == join_groups(g));
    lemma_join_groups(g);
    lemma_pieces_of_groups(g, true);
    lemma_double_colon(s, s.len() as int);
    lemma_split_plain(s, '.');
}

/// An IPv6 address's text reads back as the address.
proof fn lemma_ipv6_round_trip(o: [u8; 16])
    ensures
        ip_parse(ipv6_text(o@)) == Some(IpAddr::V6(o)),
{
    assert(array_of_16(o@) =~= o);
    if is_v4_mapped(v6_groups(o@)) {
        lemma_mapped_not_v4(o@);
        lemma_mapped_round_trip(o@);
    } else if longest_run(v6_groups(o@), 0).1 > 1 {
        lemma_run_round_trip(o@);
    } else {
        lemma_plain_round_trip(o@);
    }
}

/// An address's text reads back as the address.
proof fn lemma_ip_round_trip(ip: IpAddr)
    ensures
        ip_parse(ip_text(ip)) == Some(ip),
{
    match ip {
        IpAddr::V4(o) => lemma_ipv4_round_trip(o),
        IpAddr::V6(o) => lemma_ipv6_round_trip(o),
    }
}

/// The storage key of a client reads back as the client.
pub proof fn lemma_key_round_trip(c: ClientId)
    ensures
        client_parse(c.key_text()) == Some(c),
{
    lemma_mac_round_trip(c.mac);
    lemma_ip_round_trip(c.ip);
    let m = mac_text(c.mac@);
    let s = c.key_text();
    assert(s == m + seq!['@'] + ip_text(c.ip));
    assert forall|i: int| 0 <= i < 17 implies s[i] != '@' by {
        assert(s[i] == m[i]);
    }
    lemma_first_index(s, '@', 17);
    assert(s.subrange(0, 17) =~= m);
    assert(s.subrange(18, s.len() as int) =~= ip_text(c.ip));
}

/// A client's MAC text alone reads back as the client with that MAC and
/// the unspecified IPv4 address `0.0.0.0`.
pub proof fn lemma_mac_text_round_trip(c: ClientId)
    ensures
        client_parse(mac_text(c.mac@)) == Some(ClientId { mac: c.mac, ip: unspecified_v4() }),
{
    lemma_mac_round_trip(c.mac);
    let s = mac_text(c.mac@);
    lemma_first_index(s, '@', s.len() as int);
}

} // verus!
