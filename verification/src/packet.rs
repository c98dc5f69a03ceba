//! Sniffer decisions: Ethernet/IPv4/TCP/UDP header parsing, the flow table
//! that tells new connections from old ones, and the dispatch of one frame
//! to per-(client, rule) counter bumps through the L7 detectors and each
//! rule's CEL match.

use vstd::prelude::*;

use crate::assoc::{
    assoc_map, keys_distinct, lemma_assoc_contains, lemma_assoc_len, lemma_assoc_push, lemma_assoc_remove,
    lemma_assoc_update, lemma_assoc_value,
};

verus! {

/// Ethertype of IPv4.
pub const ETH_P_IP: u16 = 0x0800;

/// IP protocol number of TCP.
pub const IPPROTO_TCP: u8 = 6;

/// IP protocol number of UDP.
pub const IPPROTO_UDP: u8 = 17;

/// Most flows the flow table holds.
pub const FLOW_MAX: usize = 8192;

/// A flow not seen for this long (ms) is forgotten.
pub const FLOW_IDLE_MS: u64 = 60000;

/// A flow: IPv4 addresses (as big-endian integers), ports and protocol.
#[derive(Debug, Clone, Copy, PartialEq, Eq, Structural)]
pub struct FlowKey {
    /// Source address.
    pub src: u32,
    /// Source port.
    pub sport: u16,
    /// Destination address.
    pub dst: u32,
    /// Destination port.
    pub dport: u16,
    /// IP protocol.
    pub proto: u8,
}

/// Key of a flow-table entry.
pub open spec fn flow_key(e: (FlowKey, u64)) -> FlowKey {
    e.0
}

/// Last-seen time of a flow-table entry.
pub open spec fn flow_time(e: (FlowKey, u64)) -> u64 {
    e.1
}

/// Time since `t` at `now`, zero for a time in the future.
pub open spec fn flow_age(now: u64, t: u64) -> int {
    if now >= t {
        now - t
    } else {
        0
    }
}

/// The flows of `m` seen within the idle time before `now`.
pub open spec fn live_flows(m: Map<FlowKey, u64>, now: u64) -> Map<FlowKey, u64> {
    Map::new(|k: FlowKey| m.contains_key(k) && flow_age(now, m[k]) < FLOW_IDLE_MS, |k: FlowKey| m[k])
}

/// `o` is a flow of `m` seen no later than any other.
pub open spec fn is_oldest(m: Map<FlowKey, u64>, o: FlowKey) -> bool {
    m.contains_key(o) && forall|k: FlowKey| m.contains_key(k) ==> m[o] <= #[trigger] m[k]
}

/// Observing `key` at `now` turns the flows `old` into `new`: idle flows
/// are dropped; a known flow is refreshed; a new flow is added, after
/// dropping one of the oldest flows when the table is full.
pub open spec fn flow_step(old: Map<FlowKey, u64>, key: FlowKey, now: u64, new: Map<FlowKey, u64>) -> bool {
    let live = live_flows(old, now);
    if live.contains_key(key) || live.len() < FLOW_MAX {
        new == live.insert(key, now)
    } else {
        exists|o: FlowKey| is_oldest(live, o) && new == live.remove(o).insert(key, now)
    }
}

/// Flow table for connection counting: at most `FLOW_MAX` flows, each with
/// the time it was last seen.
#[derive(Debug)]
pub struct FlowTable {
    flows: Vec<(FlowKey, u64)>,
}

impl FlowTable {
    #[verifier::type_invariant]
    spec fn table_wf(&self) -> bool {
        &&& keys_distinct(self.flows@, |e: (FlowKey, u64)| flow_key(e))
        &&& self.flows@.len() <= FLOW_MAX
    }

    /// Each flow with the time it was last seen.
    pub closed spec fn contents(&self) -> Map<FlowKey, u64> {
        assoc_map(self.flows@, |e: (FlowKey, u64)| flow_key(e), |e: (FlowKey, u64)| flow_time(e))
    }

    /// No flows.
    pub fn new() -> (r: FlowTable)
        ensures
            r.contents() == Map::<FlowKey, u64>::empty(),
    {
        let r = FlowTable { flows: Vec::new() };
        assert(r.contents() =~= Map::<FlowKey, u64>::empty());
        r
    }

    /// Observe a packet of flow `key` at `now`; true when the flow is new.
    pub fn observe(&mut self, key: FlowKey, now: u64) -> (r: bool)
        ensures
            r == !live_flows(old(self).contents(), now).contains_key(key),
            flow_step(old(self).contents(), key, now, final(self).contents()),
            final(self).contents().dom().finite(),
            final(self).contents().len() <= FLOW_MAX,
    {
        proof {
            use_type_invariant(&*self);
        }
        let ghost kf = |e: (FlowKey, u64)| flow_key(e);
        let ghost tf = |e: (FlowKey, u64)| flow_time(e);
        let ghost s = self.flows@;
        let mut kept: Vec<(FlowKey, u64)> = Vec::new();
        let mut i: usize = 0;
        while i < self.flows.len()
            invariant
                kf == (|e: (FlowKey, u64)| flow_key(e)),
                tf == (|e: (FlowKey, u64)| flow_time(e)),
                s == self.flows@,
                i <= s.len() <= FLOW_MAX,
                keys_distinct(s, kf),
                keys_distinct(kept@, kf),
                kept@.len() <= i,
                assoc_map(kept@, kf, tf) == live_flows(assoc_map(s.take(i as int), kf, tf), now),
            decreases s.len() - i,
        {
            let e = self.flows[i];
            let ghost m = assoc_map(s.take(i as int), kf, tf);
            let ghost k0 = assoc_map(kept@, kf, tf);
            proof {
                assert(s.take(i + 1).drop_last() =~= s.take(i as int));
                assert(s.take(i + 1).last() == e);
                lemma_assoc_contains(s.take(i as int), kf, tf, e.0);
                assert(!m.contains_key(e.0)) by {
                    if m.contains_key(e.0) {
                        let j = choose|j: int| 0 <= j < i && kf(s.take(i as int)[j]) == e.0;
                        assert(s.take(i as int)[j] == s[j]);
                        assert(e == s[i as int]);
                        assert(kf(s[i as int]) == e.0);
                        assert(kf(s[j]) == kf(s[i as int]));
                    }
                }
                lemma_assoc_contains(kept@, kf, tf, e.0);
                assert(!k0.contains_key(e.0));
            }
            let ghost ks = kept@;
            let age: u64 = if now >= e.1 {
                now - e.1
            } else {
                0
            };
            if age < FLOW_IDLE_MS {
                kept.push(e);
                proof {
                    lemma_assoc_push(ks, kf, tf, e);
                    assert(ks.push(e) =~= kept@);
                    assert forall|a: int, b: int| 0 <= a < b < kept@.len() implies kf(kept@[a]) != kf(kept@[b]) by {
                        if b == kept@.len() - 1 {
                            assert(kept@[a] == ks[a]);
                            if kf(ks[a]) == e.0 {
                                assert(k0.contains_key(e.0));
                            }
                        } else {
                            assert(kept@[a] == ks[a]);
                            assert(kept@[b] == ks[b]);
                        }
                    }
                    assert(assoc_map(kept@, kf, tf) =~= live_flows(m.insert(e.0, e.1), now));
                }
            } else {
                proof {
                    assert(k0 =~= live_flows(m.insert(e.0, e.1), now));
                }
            }
            i = i + 1;
        }
        assert(s.take(s.len() as int) =~= s);
        let ghost live = live_flows(self.contents(), now);
        proof {
            lemma_assoc_len(kept@, kf, tf);
        }
        let mut j: usize = 0;
        while j < kept.len() && !(kept[j].0 == key)
            invariant
                j <= kept@.len(),
                forall|q: int| 0 <= q < j ==> kept@[q].0 != key,
            decreases kept@.len() - j,
        {
            j = j + 1;
        }
        proof {
            lemma_assoc_contains(kept@, kf, tf, key);
        }
        if j < kept.len() {
            let ghost k1 = kept@;
            kept.set(j, (key, now));
            proof {
                lemma_assoc_update(k1, kf, tf, j as int, (key, now));
                assert(kept@ =~= k1.update(j as int, (key, now)));
                lemma_assoc_len(kept@, kf, tf);
            }
            self.flows = kept;
            return false;
        }
        assert(!live.contains_key(key)) by {
            if live.contains_key(key) {
                let q = choose|q: int| 0 <= q < kept@.len() && kf(kept@[q]) == key;
            }
        }
        if kept.len() >= FLOW_MAX {
            let mut o: usize = 0;
            let mut k: usize = 1;
            while k < kept.len()
                invariant
                    0 <= o < k <= kept@.len(),
                    forall|q: int| 0 <= q < k ==> kept@[o as int].1 <= #[trigger] kept@[q].1,
                decreases kept@.len() - k,
            {
                if kept[k].1 < kept[o].1 {
                    o = k;
                }
                k = k + 1;
            }
            let ghost k1 = kept@;
            let ghost victim = k1[o as int].0;
            proof {
                lemma_assoc_value(k1, kf, tf, o as int);
                assert forall|c: FlowKey| live.contains_key(c) implies live[victim] <= #[trigger] live[c] by {
                    lemma_assoc_contains(k1, kf, tf, c);
                    let q = choose|q: int| 0 <= q < k1.len() && kf(k1[q]) == c;
                    lemma_assoc_value(k1, kf, tf, q);
                }
                assert(is_oldest(live, victim));
            }
            kept.remove(o);
            proof {
                lemma_assoc_remove(k1, kf, tf, o as int);
                assert(kept@ =~= k1.remove(o as int));
                lemma_assoc_contains(kept@, kf, tf, key);
            }
            let ghost k2 = kept@;
            kept.push((key, now));
            proof {
                lemma_assoc_push(k2, kf, tf, (key, now));
                assert(k2.push((key, now)) =~= kept@);
                assert forall|a: int, b: int| 0 <= a < b < kept@.len() implies kf(kept@[a]) != kf(kept@[b]) by {
                    if b == kept@.len() - 1 {
                        assert(kept@[a] == k2[a]);
                    } else {
                        assert(kept@[a] == k2[a]);
                        assert(kept@[b] == k2[b]);
                    }
                }
                lemma_assoc_len(kept@, kf, tf);
            }
            self.flows = kept;
        } else {
            let ghost k2 = kept@;
            kept.push((key, now));
            proof {
                lemma_assoc_push(k2, kf, tf, (key, now));
                assert(k2.push((key, now)) =~= kept@);
                assert forall|a: int, b: int| 0 <= a < b < kept@.len() implies kf(kept@[a]) != kf(kept@[b]) by {
                    if b == kept@.len() - 1 {
                        assert(kept@[a] == k2[a]);
                    } else {
                        assert(kept@[a] == k2[a]);
                        assert(kept@[b] == k2[b]);
                    }
                }
                lemma_assoc_len(kept@, kf, tf);
            }
            self.flows = kept;
        }
        true
    }
}

/// After one step for `key` at `now`, every flow is live and `key` was
/// seen at `now`: a second observation at the same time changes nothing
/// and reports an old flow.
pub proof fn lemma_observe_settles(old: Map<FlowKey, u64>, key: FlowKey, now: u64, new: Map<FlowKey, u64>)
    requires
        flow_step(old, key, now, new),
    ensures
        live_flows(new, now) == new,
        live_flows(new, now).contains_key(key),
        flow_step(new, key, now, new),
{
    let live = live_flows(old, now);
    if !(live.contains_key(key) || live.len() < FLOW_MAX) {
        let o = choose|o: FlowKey| is_oldest(live, o) && new == live.remove(o).insert(key, now);
        assert(new == live.remove(o).insert(key, now));
    }
    assert(live_flows(new, now) =~= new);
    assert(new.insert(key, now) =~= new);
}

/// Transport header of a frame.
#[derive(Debug, Clone, Copy, PartialEq, Eq)]
pub enum Transport {
    /// TCP; `syn` is a SYN without ACK.
    Tcp { sport: u16, dport: u16, syn: bool },
    /// UDP.
    Udp { sport: u16, dport: u16 },
}

/// What the sniffer reads from an Ethernet frame: the source MAC, the IPv4
/// addresses, the transport header and where the payload starts (it runs
/// to the end of the frame).
#[derive(Debug, Clone, Copy, PartialEq, Eq)]
pub struct FrameHead {
    /// Source MAC.
    pub mac: [u8; 6],
    /// IPv4 source.
    pub src: [u8; 4],
    /// IPv4 destination.
    pub dst: [u8; 4],
    /// Transport header.
    pub transport: Transport,
    /// Offset of the payload in the frame.
    pub payload_at: usize,
}

/// Big-endian 16-bit value at `i`.
pub open spec fn be16(f: Seq<u8>, i: int) -> u16 {
    (f[i] as int * 256 + f[i + 1] as int) as u16
}

/// Big-endian value of four octets.
pub open spec fn be32(a: [u8; 4]) -> u32 {
    (a[0] as int * 16777216 + a[1] as int * 65536 + a[2] as int * 256 + a[3] as int) as u32
}

/// The head of an Ethernet frame carrying IPv4 with a TCP header (at least
/// 20 bytes) or a UDP header (at least 8 bytes) after the IP header of IHL
/// words; `None` for anything else or anything shorter.
pub open spec fn frame_head(f: Seq<u8>) -> Option<FrameHead> {
    if f.len() < 14 || be16(f, 12) != ETH_P_IP || f.len() < 34 {
        None
    } else {
        let l4 = 14 + (f[14] % 16) as int * 4;
        if f.len() < l4 {
            None
        } else {
            let mac = [f[6], f[7], f[8], f[9], f[10], f[11]];
            let src = [f[26], f[27], f[28], f[29]];
            let dst = [f[30], f[31], f[32], f[33]];
            if f[23] == IPPROTO_TCP && f.len() - l4 >= 20 {
                let flags = f[l4 + 13];
                let data_off = (f[l4 + 12] / 16) as int * 4;
                let at = if f.len() - l4 > data_off {
                    l4 + data_off
                } else {
                    f.len() as int
                };
                Some(
                    FrameHead {
                        mac,
                        src,
                        dst,
                        transport: Transport::Tcp {
                            sport: be16(f, l4),
                            dport: be16(f, l4 + 2),
                            syn: (flags / 2) % 2 == 1 && (flags / 16) % 2 == 0,
                        },
                        payload_at: at as usize,
                    },
                )
            } else if f[23] == IPPROTO_UDP && f.len() - l4 >= 8 {
                Some(
                    FrameHead {
                        mac,
                        src,
                        dst,
                        transport: Transport::Udp { sport: be16(f, l4), dport: be16(f, l4 + 2) },
                        payload_at: (l4 + 8) as usize,
                    },
                )
            } else {
                None
            }
        }
    }
}

/// Big-endian 16-bit value at `i`.
fn read_be16(f: &[u8], i: usize) -> (r: u16)
    requires
        i + 1 < f@.len(),
    ensures
        r == be16(f@, i as int),
{
    f[i] as u16 * 256 + f[i + 1] as u16
}

/// Big-endian value of four octets.
pub fn be32_of(a: [u8; 4]) -> (r: u32)
    ensures
        r == be32(a),
{
    a[0] as u32 * 16777216 + a[1] as u32 * 65536 + a[2] as u32 * 256 + a[3] as u32
}

/// Parse the Ethernet, IPv4 and TCP/UDP headers of a frame.
pub fn parse_frame(frame: &[u8]) -> (r: Option<FrameHead>)
    ensures
        r == frame_head(frame@),
{
    let n = frame.len();
    if n < 14 || read_be16(frame, 12) != ETH_P_IP || n < 34 {
        return None;
    }
    let l4: usize = 14 + (frame[14] % 16) as usize * 4;
    if n < l4 {
        return None;
    }
    let mac = [frame[6], frame[7], frame[8], frame[9], frame[10], frame[11]];
    let src = [frame[26], frame[27], frame[28], frame[29]];
    let dst = [frame[30], frame[31], frame[32], frame[33]];
    if frame[23] == IPPROTO_TCP && n - l4 >= 20 {
        let flags = frame[l4 + 13];
        let data_off: usize = (frame[l4 + 12] / 16) as usize * 4;
        let at = if n - l4 > data_off {
            l4 + data_off
        } else {
            n
        };
        let syn = (flags / 2) % 2 == 1 && (flags / 16) % 2 == 0;
        let r = FrameHead {
            mac,
            src,
            dst,
            transport: Transport::Tcp { sport: read_be16(frame, l4), dport: read_be16(frame, l4 + 2), syn },
            payload_at: at,
        };
        assert(r.mac =~= frame_head(frame@)->0.mac);
        assert(r.src =~= frame_head(frame@)->0.src);
        assert(r.dst =~= frame_head(frame@)->0.dst);
        Some(r)
    } else if frame[23] == IPPROTO_UDP && n - l4 >= 8 {
        let r = FrameHead {
            mac,
            src,
            dst,
            transport: Transport::Udp { sport: read_be16(frame, l4), dport: read_be16(frame, l4 + 2) },
            payload_at: l4 + 8,
        };
        assert(r.mac =~= frame_head(frame@)->0.mac);
        assert(r.src =~= frame_head(frame@)->0.src);
        assert(r.dst =~= frame_head(frame@)->0.dst);
        Some(r)
    } else {
        None
    }
}

/// TCP connections marked as WebSocket after an upgrade handshake.
#[derive(Debug, Clone, Copy, PartialEq, Eq, Structural)]
pub struct WsKey {
    /// Source address.
    pub src: u32,
    /// Source port.
    pub sport: u16,
    /// Destination address.
    pub dst: u32,
    /// Destination port.
    pub dport: u16,
}

/// The set of connections that completed a WebSocket upgrade.
#[derive(Debug)]
pub struct WsConns {
    keys: Vec<WsKey>,
}

impl WsConns {
    /// The marked connections.
    pub closed spec fn contents(&self) -> Set<WsKey> {
        self.keys@.to_set()
    }

    /// None marked.
    pub fn new() -> (r: WsConns)
        ensures
            r.contents() == Set::<WsKey>::empty(),
    {
        let r = WsConns { keys: Vec::new() };
        assert(r.contents() =~= Set::<WsKey>::empty());
        r
    }

    /// Whether `k` is marked.
    pub fn contains(&self, k: &WsKey) -> (r: bool)
        ensures
            r == self.contents().contains(*k),
    {
        let mut i: usize = 0;
        while i < self.keys.len()
            invariant
                i <= self.keys@.len(),
                forall|q: int| 0 <= q < i ==> self.keys@[q] != *k,
            decreases self.keys@.len() - i,
        {
            if self.keys[i] == *k {
                assert(self.keys@.contains(*k));
                return true;
            }
            i = i + 1;
        }
        false
    }

    /// Mark `k`.
    pub fn mark(&mut self, k: WsKey)
        ensures
            final(self).contents() == old(self).contents().insert(k),
    {
        if !self.contains(&k) {
            self.keys.push(k);
            assert(self.keys@.to_set() =~= old(self).keys@.to_set().insert(k)) by {
                assert(self.keys@ == old(self).keys@.push(k));
                assert forall|x: WsKey| self.keys@.contains(x) <==> (old(self).keys@.contains(x) || x == k) by {
                    if self.keys@.contains(x) && x != k {
                        let q = choose|q: int| 0 <= q < self.keys@.len() && self.keys@[q] == x;
                        assert(old(self).keys@[q] == x);
                    }
                    if old(self).keys@.contains(x) {
                        let q = choose|q: int| 0 <= q < old(self).keys@.len() && old(self).keys@[q] == x;
                        assert(self.keys@[q] == x);
                    }
                    if x == k {
                        assert(self.keys@[self.keys@.len() - 1] == k);
                    }
                }
            }
        } else {
            assert(old(self).contents().insert(k) =~= old(self).contents());
        }
    }
}

/// A frame's payload starts right after its transport header: for TCP at
/// the end of the IP header (14 + 4 * IHL) plus 4 times the TCP data offset
/// (the high nibble of TCP byte 12), so TCP options are never payload, or
/// at the frame's end when that header claims more than the frame holds;
/// for UDP 8 bytes after the IP header.
pub proof fn lemma_payload_after_header(f: Seq<u8>)
    ensures
        frame_head(f) matches Some(h) ==> ({
            let ip_end = 14 + (f[14] % 16) as int * 4;
            match h.transport {
                Transport::Tcp { .. } => {
                    let end = ip_end + (f[ip_end + 12] >> 4u8) as int * 4;
                    h.payload_at == if end <= f.len() { end } else { f.len() as int }
                },
                Transport::Udp { .. } => h.payload_at == ip_end + 8,
            }
        }),
{
    if let Some(h) = frame_head(f) {
        let ip_end = 14 + (f[14] % 16) as int * 4;
        if h.transport is Tcp {
            let b = f[ip_end + 12];
            assert(b >> 4u8 == b / 16) by (bit_vector);
        }
    }
}

} // verus!
