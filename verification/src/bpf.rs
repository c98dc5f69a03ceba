//! XDP enforcement: the userspace policy map (keyed by source MAC and IPv4
//! address), the enforcer that writes it, and the verdict the XDP program
//! takes for a packet from the entry it finds.

use vstd::prelude::*;

use crate::assoc::{assoc_map, keys_distinct, lemma_assoc_contains, lemma_assoc_push, lemma_assoc_remove, lemma_assoc_update};
use crate::client::{ClientId, IpAddr};
use crate::enforcer::Enforcer;
use crate::packet::{be16, ETH_P_IP};
use crate::policy::EffectiveAction;

verus! {

/// Most clients the kernel policy map holds.
pub const MAX_CLIENTS: u32 = 8192;

/// Policy entry as the XDP program reads it.
#[derive(Debug, Clone, Copy, PartialEq, Eq)]
pub struct ClientPolicyEntry {
    /// 1 = block all packets.
    pub blocked: u8,
    /// Drop percentage 0..=100.
    pub drop_rate: u8,
    /// Padding / reserved.
    pub _pad: [u8; 2],
    /// Expiry as unix seconds (0 = never).
    pub until_unix: u32,
}

/// What the XDP program does with a packet.
#[derive(Debug, Clone, Copy, PartialEq, Eq, Structural)]
pub enum XdpAction {
    /// Let it through.
    Pass,
    /// Drop it.
    Drop,
}

/// The map key of a client: its MAC then its IPv4 octets; IPv6 clients
/// have none.
pub open spec fn policy_key(c: ClientId) -> Option<Seq<u8>> {
    match c.ip {
        IpAddr::V4(o) => Some(c.mac@ + o@),
        IpAddr::V6(_) => None,
    }
}

/// The key the XDP program looks up for a frame (source MAC, IPv4 source);
/// `None`, and the packet passes, when the frame is too short for the
/// Ethernet and IPv4 headers, is not IPv4, or has an IHL under 20 bytes.
pub open spec fn xdp_key_of(f: Seq<u8>) -> Option<Seq<u8>> {
    if f.len() < 14 || be16(f, 12) != ETH_P_IP || f.len() < 34 || (f[14] % 16) as int * 4 < 20 {
        None
    } else {
        Some(f.subrange(6, 12) + f.subrange(26, 30))
    }
}

/// The verdict for a packet whose client has entry `policy` (if any), with
/// `rand` the program's random draw: blocked drops; a drop rate above 0
/// drops when `rand % 100` is below it; anything else passes.
pub open spec fn xdp_verdict_of(policy: Option<ClientPolicyEntry>, rand: u32) -> XdpAction {
    match policy {
        None => XdpAction::Pass,
        Some(p) => if p.blocked != 0 {
            XdpAction::Drop
        } else if p.drop_rate > 0 && rand % 100 < p.drop_rate {
            XdpAction::Drop
        } else {
            XdpAction::Pass
        },
    }
}

/// The map key the XDP program looks up for a frame.
pub fn xdp_key(frame: &[u8]) -> (r: Option<[u8; 10]>)
    ensures
        match r {
            Some(k) => xdp_key_of(frame@) == Some(k@),
            None => xdp_key_of(frame@) is None,
        },
{
    let n = frame.len();
    if n < 14 || (frame[12] as u16 * 256 + frame[13] as u16) != ETH_P_IP || n < 34 || (frame[14] % 16) as usize * 4 < 20 {
        return None;
    }
    let k = [
        frame[6],
        frame[7],
        frame[8],
        frame[9],
        frame[10],
        frame[11],
        frame[26],
        frame[27],
        frame[28],
        frame[29],
    ];
    assert(k@ =~= frame@.subrange(6, 12) + frame@.subrange(26, 30));
    Some(k)
}

/// The XDP verdict for a packet.
pub fn xdp_verdict(policy: Option<ClientPolicyEntry>, rand: u32) -> (r: XdpAction)
    ensures
        r == xdp_verdict_of(policy, rand),
{
    match policy {
        None => XdpAction::Pass,
        Some(p) => {
            if p.blocked != 0 {
                XdpAction::Drop
            } else if p.drop_rate > 0 && rand % 100 < p.drop_rate as u32 {
                XdpAction::Drop
            } else {
                XdpAction::Pass
            }
        },
    }
}

/// Key of a map entry.
pub open spec fn entry_key(e: ([u8; 10], (bool, u8))) -> Seq<u8> {
    e.0@
}

/// Value of a map entry.
pub open spec fn entry_value(e: ([u8; 10], (bool, u8))) -> (bool, u8) {
    e.1
}

/// Whether two keys are equal.
fn same_key(a: &[u8; 10], b: &[u8; 10]) -> (r: bool)
    ensures
        r == (a@ == b@),
{
    let mut i: usize = 0;
    while i < 10
        invariant
            i <= 10,
            a@.len() == 10,
            b@.len() == 10,
            forall|j: int| 0 <= j < i ==> a@[j] == b@[j],
        decreases 10 - i,
    {
        if a[i] != b[i] {
            return false;
        }
        i = i + 1;
    }
    assert(a@ =~= b@);
    true
}

/// The policy map as userspace keeps it: per key, (blocked, drop rate).
#[derive(Debug)]
pub struct BpfHandle {
    policies: Vec<([u8; 10], (bool, u8))>,
}

impl BpfHandle {
    #[verifier::type_invariant]
    spec fn handle_wf(&self) -> bool {
        keys_distinct(self.policies@, |e: ([u8; 10], (bool, u8))| entry_key(e))
    }

    /// The entries.
    pub closed spec fn contents(&self) -> Map<Seq<u8>, (bool, u8)> {
        assoc_map(
            self.policies@,
            |e: ([u8; 10], (bool, u8))| entry_key(e),
            |e: ([u8; 10], (bool, u8))| entry_value(e),
        )
    }

    /// No entries.
    pub fn empty() -> (r: BpfHandle)
        ensures
            r.contents() == Map::<Seq<u8>, (bool, u8)>::empty(),
    {
        let r = BpfHandle { policies: Vec::new() };
        assert(r.contents() =~= Map::<Seq<u8>, (bool, u8)>::empty());
        r
    }

    /// The map key of a client (MAC then IPv4 octets); `None` for IPv6.
    pub fn key(client: &ClientId) -> (r: Option<[u8; 10]>)
        ensures
            match r {
                Some(k) => policy_key(*client) == Some(k@),
                None => policy_key(*client) is None,
            },
    {
        match client.ip {
            IpAddr::V4(o) => {
                let m = client.mac;
                let k = [m[0], m[1], m[2], m[3], m[4], m[5], o[0], o[1], o[2], o[3]];
                assert(k@ =~= m@ + o@);
                Some(k)
            },
            IpAddr::V6(_) => None,
        }
    }

    fn find(&self, key: &[u8; 10]) -> (r: Option<usize>)
        ensures
            match r {
                Some(i) => i < self.policies@.len() && self.policies@[i as int].0@ == key@,
                None => forall|j: int| 0 <= j < self.policies@.len() ==> self.policies@[j].0@ != key@,
            },
    {
        let mut i: usize = 0;
        while i < self.policies.len()
            invariant
                i <= self.policies@.len(),
                forall|j: int| 0 <= j < i ==> self.policies@[j].0@ != key@,
            decreases self.policies@.len() - i,
        {
            if same_key(&self.policies[i].0, key) {
                return Some(i);
            }
            i = i + 1;
        }
        None
    }

    /// The entry for `key`.
    pub fn get(&self, key: &[u8; 10]) -> (r: Option<(bool, u8)>)
        ensures
            match r {
                Some(v) => self.contents().contains_key(key@) && self.contents()[key@] == v,
                None => !self.contents().contains_key(key@),
            },
    {
        proof {
            use_type_invariant(self);
            lemma_assoc_contains(
                self.policies@,
                |e: ([u8; 10], (bool, u8))| entry_key(e),
                |e: ([u8; 10], (bool, u8))| entry_value(e),
                key@,
            );
        }
        match self.find(key) {
            Some(i) => {
                proof {
                    crate::assoc::lemma_assoc_value(
                        self.policies@,
                        |e: ([u8; 10], (bool, u8))| entry_key(e),
                        |e: ([u8; 10], (bool, u8))| entry_value(e),
                        i as int,
                    );
                }
                Some(self.policies[i].1)
            },
            None => None,
        }
    }

    /// Set the entry for `key`.
    pub fn insert(&mut self, key: [u8; 10], v: (bool, u8))
        ensures
            final(self).contents() == old(self).contents().insert(key@, v),
    {
        proof {
            use_type_invariant(&*self);
        }
        let ghost kf = |e: ([u8; 10], (bool, u8))| entry_key(e);
        let ghost vf = |e: ([u8; 10], (bool, u8))| entry_value(e);
        let mut p: Vec<([u8; 10], (bool, u8))> = Vec::new();
        std::mem::swap(&mut p, &mut self.policies);
        let ghost s0 = p@;
        let mut i: usize = 0;
        let mut at: Option<usize> = None;
        while i < p.len()
            invariant
                i <= p@.len(),
                p@ == s0,
                at is None ==> forall|j: int| 0 <= j < i ==> p@[j].0@ != key@,
                at matches Some(a) ==> a < p@.len() && p@[a as int].0@ == key@,
            decreases p@.len() - i,
        {
            if at.is_none() && same_key(&p[i].0, &key) {
                at = Some(i);
            }
            i = i + 1;
        }
        match at {
            Some(a) => {
                p.set(a, (key, v));
                proof {
                    lemma_assoc_update(s0, kf, vf, a as int, (key, v));
                }
            },
            None => {
                p.push((key, v));
                proof {
                    lemma_assoc_push(s0, kf, vf, (key, v));
                    assert forall|x: int, y: int| 0 <= x < y < p@.len() implies kf(p@[x]) != kf(p@[y]) by {
                        if y == p@.len() - 1 {
                            assert(p@[x] == s0[x]);
                        } else {
                            assert(p@[x] == s0[x]);
                            assert(p@[y] == s0[y]);
                        }
                    }
                }
            },
        }
        self.policies = p;
    }

    /// Remove the entry for `key`.
    pub fn remove(&mut self, key: &[u8; 10])
        ensures
            final(self).contents() == old(self).contents().remove(key@),
    {
        proof {
            use_type_invariant(&*self);
            lemma_assoc_contains(
                self.policies@,
                |e: ([u8; 10], (bool, u8))| entry_key(e),
                |e: ([u8; 10], (bool, u8))| entry_value(e),
                key@,
            );
        }
        match self.find(key) {
            Some(i) => {
                let ghost kf = |e: ([u8; 10], (bool, u8))| entry_key(e);
                let ghost vf = |e: ([u8; 10], (bool, u8))| entry_value(e);
                let mut p: Vec<([u8; 10], (bool, u8))> = Vec::new();
                std::mem::swap(&mut p, &mut self.policies);
                let ghost s0 = p@;
                p.remove(i);
                proof {
                    lemma_assoc_remove(s0, kf, vf, i as int);
                    assert(p@ =~= s0.remove(i as int));
                }
                self.policies = p;
            },
            None => {
                assert(old(self).contents().remove(key@) =~= old(self).contents());
            },
        }
    }
}

/// Load and attach the XDP program to `interface`. In this build the
/// program is not loaded: the handle is the userspace policy map only, which
/// records policies but drops no packets.
pub fn load_and_attach(interface: &str) -> (r: Result<BpfHandle, String>)
    ensures
        r is Ok,
        r.unwrap().contents() == Map::<Seq<u8>, (bool, u8)>::empty(),
{
    Ok(BpfHandle::empty())
}

/// Enforcer that writes the policy map.
#[derive(Debug)]
pub struct BpfEnforcer {
    handle: BpfHandle,
}

impl BpfEnforcer {
    /// Wrap a handle.
    pub fn new(handle: BpfHandle) -> (r: BpfEnforcer)
        ensures
            r.entries() == handle.contents(),
    {
        BpfEnforcer { handle }
    }

    /// The map entries.
    pub closed spec fn entries(&self) -> Map<Seq<u8>, (bool, u8)> {
        self.handle.contents()
    }

    /// The map entry of a client.
    pub fn entry(&self, client: &ClientId) -> (r: Option<(bool, u8)>)
        ensures
            match policy_key(*client) {
                None => r is None,
                Some(k) => match r {
                    Some(v) => self.entries().contains_key(k) && self.entries()[k] == v,
                    None => !self.entries().contains_key(k),
                },
            },
    {
        match BpfHandle::key(client) {
            Some(k) => self.handle.get(&k),
            None => None,
        }
    }
}

/// The map entry an action writes: blocked with rate 100, or not blocked
/// with the throttle's rate; passing writes none.
pub open spec fn entry_of(action: EffectiveAction) -> Option<(bool, u8)> {
    match action {
        EffectiveAction::Pass => None,
        EffectiveAction::Block => Some((true, 100u8)),
        EffectiveAction::Throttle { drop_rate } => Some((false, drop_rate)),
    }
}

impl Enforcer for BpfEnforcer {
    fn apply(&mut self, client: ClientId, action: EffectiveAction)
        ensures
            final(self).entries() == match policy_key(client) {
                None => old(self).entries(),
                Some(k) => match entry_of(action) {
                    None => old(self).entries().remove(k),
                    Some(v) => old(self).entries().insert(k, v),
                },
            },
    {
        let key = match BpfHandle::key(&client) {
            Some(k) => k,
            None => {
                return;
            },
        };
        let (blocked, drop_rate) = match action {
            EffectiveAction::Pass => {
                self.handle.remove(&key);
                return;
            },
            EffectiveAction::Block => (true, 100u8),
            EffectiveAction::Throttle { drop_rate } => (false, drop_rate),
        };
        self.handle.insert(key, (blocked, drop_rate));
    }

    fn clear(&mut self, client: ClientId)
        ensures
            final(self).entries() == match policy_key(client) {
                None => old(self).entries(),
                Some(k) => old(self).entries().remove(k),
            },
    {
        if let Some(key) = BpfHandle::key(&client) {
            self.handle.remove(&key);
        }
    }
}

/// An interface name must not be empty.
pub fn require_iface(iface: &str) -> (r: Result<(), String>)
    ensures
        match r {
            Ok(()) => iface@.len() > 0,
            Err(m) => iface@.len() == 0 && m@ == "empty interface"@,
        },
{
    if iface.unicode_len() == 0 {
        return Err(String::from_str("empty interface"));
    }
    Ok(())
}

} // verus!
