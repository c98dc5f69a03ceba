//! Monotonic counters per (client, rule) and per-client diagnostics.

use vstd::prelude::*;

use crate::assoc::{assoc_map, keys_distinct, lemma_assoc_contains, lemma_assoc_push, lemma_assoc_update, lemma_assoc_value};
use crate::client::{same_client, ClientId};
use crate::client_map::ClientMap;
use crate::rule::{Metric, RuleId};
use crate::window::sat_u64;

verus! {

/// Cumulative diagnostic counters (per client).
#[derive(Debug, Clone, Copy, PartialEq, Eq, Structural)]
pub struct CumulativeCounters {
    /// Requests.
    pub requests: u64,
    /// Bytes.
    pub bytes: u64,
    /// Connections.
    pub connections: u64,
    /// WS handshakes.
    pub ws_connections: u64,
}

impl CumulativeCounters {
    /// All zero.
    pub open spec fn zero() -> CumulativeCounters {
        CumulativeCounters { requests: 0, bytes: 0, connections: 0, ws_connections: 0 }
    }
}

impl Default for CumulativeCounters {
    fn default() -> (r: CumulativeCounters)
        ensures
            r == CumulativeCounters::zero(),
    {
        CumulativeCounters { requests: 0, bytes: 0, connections: 0, ws_connections: 0 }
    }
}

/// Key for a per-rule counter.
#[derive(Debug, Clone, PartialEq, Eq)]
pub struct CounterKey {
    /// Client.
    pub client: ClientId,
    /// Rule id.
    pub rule_id: RuleId,
}

impl CounterKey {
    /// Abstract key: client and rule id text.
    pub open spec fn key(self) -> (ClientId, Seq<char>) {
        (self.client, self.rule_id@)
    }

    /// An equal copy.
    pub fn duplicate(&self) -> (r: CounterKey)
        ensures
            r == *self,
    {
        CounterKey { client: self.client, rule_id: self.rule_id.clone() }
    }
}

/// Counts of requests, bytes and connections.
pub type Triple = (u64, u64, u64);

/// Key of a counter entry.
pub open spec fn counter_key(e: (CounterKey, Triple)) -> (ClientId, Seq<char>) {
    e.0.key()
}

/// Value of a counter entry.
pub open spec fn counter_value(e: (CounterKey, Triple)) -> Triple {
    e.1
}

/// Per (client, rule) counters: requests, bytes, connections.
#[derive(Debug, Clone)]
pub struct RuleCounters {
    /// One entry per (client, rule id).
    pub entries: Vec<(CounterKey, Triple)>,
}

impl View for RuleCounters {
    type V = Map<(ClientId, Seq<char>), Triple>;

    open spec fn view(&self) -> Map<(ClientId, Seq<char>), Triple> {
        assoc_map(self.entries@, |e: (CounterKey, Triple)| counter_key(e), |e: (CounterKey, Triple)| counter_value(e))
    }
}

/// A missing counter reads zero.
pub open spec fn count_or_zero(m: Map<(ClientId, Seq<char>), Triple>, k: (ClientId, Seq<char>)) -> Triple {
    if m.contains_key(k) {
        m[k]
    } else {
        (0, 0, 0)
    }
}

impl RuleCounters {
    /// At most one entry per (client, rule id).
    pub open spec fn wf(&self) -> bool {
        keys_distinct(self.entries@, |e: (CounterKey, Triple)| counter_key(e))
    }

    /// No counters.
    pub fn new() -> (r: RuleCounters)
        ensures
            r.wf(),
            r@ == Map::<(ClientId, Seq<char>), Triple>::empty(),
    {
        RuleCounters { entries: Vec::new() }
    }

    /// Index of the entry for (client, rule id), if any.
    fn find(&self, client: &ClientId, rule_id: &String) -> (r: Option<usize>)
        requires
            self.wf(),
        ensures
            match r {
                Some(i) => i < self.entries@.len() && counter_key(self.entries@[i as int]) == (*client, rule_id@),
                None => !self@.contains_key((*client, rule_id@)),
            },
    {
        let mut i: usize = 0;
        while i < self.entries.len()
            invariant
                i <= self.entries@.len(),
                forall|j: int| 0 <= j < i ==> counter_key(self.entries@[j]) != (*client, rule_id@),
            decreases self.entries@.len() - i,
        {
            if same_client(&self.entries[i].0.client, client) && self.entries[i].0.rule_id == *rule_id {
                return Some(i);
            }
            i = i + 1;
        }
        proof {
            lemma_assoc_contains(self.entries@, |e: (CounterKey, Triple)| counter_key(e), |e: (CounterKey, Triple)| counter_value(e), (*client, rule_id@));
        }
        None
    }

    /// The counts for (client, rule id); zeros when absent.
    pub fn get(&self, client: &ClientId, rule_id: &str) -> (r: Triple)
        requires
            self.wf(),
        ensures
            r == count_or_zero(self@, (*client, rule_id@)),
    {
        let key = String::from_str(rule_id);
        match self.find(client, &key) {
            Some(i) => {
                proof {
                    lemma_assoc_value(self.entries@, |e: (CounterKey, Triple)| counter_key(e), |e: (CounterKey, Triple)| counter_value(e), i as int);
                }
                self.entries[i].1
            },
            None => (0, 0, 0),
        }
    }

    /// Raise the counts of (client, rule id), saturating.
    pub fn bump(&mut self, client: ClientId, rule_id: &str, req: u64, bytes: u64, conn: u64)
        requires
            old(self).wf(),
        ensures
            final(self).wf(),
            final(self)@ == old(self)@.insert(
                (client, rule_id@),
                ({
                    let t = count_or_zero(old(self)@, (client, rule_id@));
                    (sat_u64(t.0 + req), sat_u64(t.1 + bytes), sat_u64(t.2 + conn))
                }),
            ),
    {
        let key = String::from_str(rule_id);
        let ghost kf = |e: (CounterKey, Triple)| counter_key(e);
        let ghost vf = |e: (CounterKey, Triple)| counter_value(e);
        let ghost s0 = self.entries@;
        match self.find(&client, &key) {
            Some(i) => {
                proof {
                    lemma_assoc_value(s0, kf, vf, i as int);
                }
                let (k, t) = self.entries.remove(i);
                let nt = (t.0.saturating_add(req), t.1.saturating_add(bytes), t.2.saturating_add(conn));
                self.entries.insert(i, (k, nt));
                proof {
                    assert(self.entries@ =~= s0.update(i as int, (k, nt)));
                    lemma_assoc_update(s0, kf, vf, i as int, (k, nt));
                }
            },
            None => {
                let e = (CounterKey { client, rule_id: key }, (req, bytes, conn));
                self.entries.push(e);
                proof {
                    lemma_assoc_push(s0, kf, vf, e);
                    assert forall|j: int| 0 <= j < s0.len() implies kf(s0[j]) != kf(e) by {
                        lemma_assoc_contains(s0, kf, vf, kf(e));
                    }
                }
            },
        }
    }

    /// An equal copy.
    pub fn snapshot(&self) -> (r: RuleCounters)
        ensures
            r.entries@ == self.entries@,
    {
        let mut out: Vec<(CounterKey, Triple)> = Vec::new();
        let mut i: usize = 0;
        while i < self.entries.len()
            invariant
                i <= self.entries@.len(),
                out@ == self.entries@.subrange(0, i as int),
            decreases self.entries@.len() - i,
        {
            out.push((self.entries[i].0.duplicate(), self.entries[i].1));
            i = i + 1;
        }
        assert(out@ =~= self.entries@);
        RuleCounters { entries: out }
    }
}

/// Thread-unaware monotonic counters (the daemon serialises access).
#[derive(Debug, Clone)]
pub struct CounterStore {
    /// Per (client, rule) metric counters: (requests, bytes, connections).
    pub by_rule: RuleCounters,
    /// Per-client diagnostics.
    pub by_client: ClientMap<CumulativeCounters>,
}

/// A missing client reads zero counters.
pub open spec fn cumulative_or_zero(m: Map<ClientId, CumulativeCounters>, c: ClientId) -> CumulativeCounters {
    if m.contains_key(c) {
        m[c]
    } else {
        CumulativeCounters::zero()
    }
}

impl CounterStore {
    /// Both maps well formed.
    pub open spec fn wf(&self) -> bool {
        self.by_rule.wf() && self.by_client.wf()
    }

    /// No counts.
    pub fn new() -> (r: CounterStore)
        ensures
            r.wf(),
            r.by_rule@ == Map::<(ClientId, Seq<char>), Triple>::empty(),
            r.by_client@ == Map::<ClientId, CumulativeCounters>::empty(),
    {
        CounterStore { by_rule: RuleCounters::new(), by_client: ClientMap::new() }
    }

    fn add(&mut self, client: ClientId, rule_id: &str, req: u64, bytes: u64, conn: u64)
        requires
            old(self).wf(),
        ensures
            final(self).wf(),
            final(self).by_rule@ == old(self).by_rule@.insert(
                (client, rule_id@),
                ({
                    let t = count_or_zero(old(self).by_rule@, (client, rule_id@));
                    (sat_u64(t.0 + req), sat_u64(t.1 + bytes), sat_u64(t.2 + conn))
                }),
            ),
            final(self).by_client@ == old(self).by_client@.insert(
                client,
                ({
                    let c = cumulative_or_zero(old(self).by_client@, client);
                    CumulativeCounters {
                        requests: sat_u64(c.requests + req),
                        bytes: sat_u64(c.bytes + bytes),
                        connections: sat_u64(c.connections + conn),
                        ws_connections: c.ws_connections,
                    }
                }),
            ),
    {
        self.by_rule.bump(client, rule_id, req, bytes, conn);
        let cur = match self.by_client.get(&client) {
            Some(c) => *c,
            None => CumulativeCounters::default(),
        };
        let next = CumulativeCounters {
            requests: cur.requests.saturating_add(req),
            bytes: cur.bytes.saturating_add(bytes),
            connections: cur.connections.saturating_add(conn),
            ws_connections: cur.ws_connections,
        };
        self.by_client.insert(client, next);
    }

    /// Increment requests for a rule.
    pub fn add_requests(&mut self, client: ClientId, rule_id: &str, n: u64)
        requires
            old(self).wf(),
        ensures
            final(self).wf(),
            final(self).by_rule@ == old(self).by_rule@.insert(
                (client, rule_id@),
                ({
                    let t = count_or_zero(old(self).by_rule@, (client, rule_id@));
                    (sat_u64(t.0 + n), t.1, t.2)
                }),
            ),
            final(self).by_client@ == old(self).by_client@.insert(
                client,
                ({
                    let c = cumulative_or_zero(old(self).by_client@, client);
                    CumulativeCounters { requests: sat_u64(c.requests + n), ..c }
                }),
            ),
    {
        self.add(client, rule_id, n, 0, 0);
    }

    /// Increment bytes for a rule.
    pub fn add_bytes(&mut self, client: ClientId, rule_id: &str, n: u64)
        requires
            old(self).wf(),
        ensures
            final(self).wf(),
            final(self).by_rule@ == old(self).by_rule@.insert(
                (client, rule_id@),
                ({
                    let t = count_or_zero(old(self).by_rule@, (client, rule_id@));
                    (t.0, sat_u64(t.1 + n), t.2)
                }),
            ),
            final(self).by_client@ == old(self).by_client@.insert(
                client,
                ({
                    let c = cumulative_or_zero(old(self).by_client@, client);
                    CumulativeCounters { bytes: sat_u64(c.bytes + n), ..c }
                }),
            ),
    {
        self.add(client, rule_id, 0, n, 0);
    }

    /// Increment connections for a rule.
    pub fn add_connections(&mut self, client: ClientId, rule_id: &str, n: u64)
        requires
            old(self).wf(),
        ensures
            final(self).wf(),
            final(self).by_rule@ == old(self).by_rule@.insert(
                (client, rule_id@),
                ({
                    let t = count_or_zero(old(self).by_rule@, (client, rule_id@));
                    (t.0, t.1, sat_u64(t.2 + n))
                }),
            ),
            final(self).by_client@ == old(self).by_client@.insert(
                client,
                ({
                    let c = cumulative_or_zero(old(self).by_client@, client);
                    CumulativeCounters { connections: sat_u64(c.connections + n), ..c }
                }),
            ),
    {
        self.add(client, rule_id, 0, 0, n);
    }

    /// Increment WS handshake diagnostic.
    pub fn add_ws_connection(&mut self, client: ClientId)
        requires
            old(self).wf(),
        ensures
            final(self).wf(),
            final(self).by_rule@ == old(self).by_rule@,
            final(self).by_client@ == old(self).by_client@.insert(
                client,
                ({
                    let c = cumulative_or_zero(old(self).by_client@, client);
                    CumulativeCounters { ws_connections: sat_u64(c.ws_connections + 1), ..c }
                }),
            ),
    {
        let cur = match self.by_client.get(&client) {
            Some(c) => *c,
            None => CumulativeCounters::default(),
        };
        let next = CumulativeCounters { ws_connections: cur.ws_connections.saturating_add(1), ..cur };
        self.by_client.insert(client, next);
    }

    /// Snapshot all per-rule counters.
    pub fn snapshot_rules(&self) -> (r: RuleCounters)
        ensures
            r.entries@ == self.by_rule.entries@,
    {
        self.by_rule.snapshot()
    }

    /// Snapshot per-client diagnostics (in first-count order).
    pub fn snapshot_clients(&self) -> (r: Vec<(ClientId, CumulativeCounters)>)
        ensures
            r@ == self.by_client.entries@,
    {
        let mut out: Vec<(ClientId, CumulativeCounters)> = Vec::new();
        let mut i: usize = 0;
        while i < self.by_client.entries.len()
            invariant
                i <= self.by_client.entries@.len(),
                out@ == self.by_client.entries@.subrange(0, i as int),
            decreases self.by_client.entries@.len() - i,
        {
            out.push(self.by_client.entries[i]);
            i = i + 1;
        }
        assert(out@ =~= self.by_client.entries@);
        out
    }

    /// Get one rule counter.
    pub fn get_rule(&self, client: ClientId, rule_id: &str) -> (r: Triple)
        requires
            self.wf(),
        ensures
            r == count_or_zero(self.by_rule@, (client, rule_id@)),
    {
        self.by_rule.get(&client, rule_id)
    }
}

/// One counter increment that a frame causes for its client.
#[derive(Debug, Clone, PartialEq, Eq)]
pub enum Bump {
    /// Add `amount` to the `metric` counter of rule `rule_id`.
    Rule {
        /// Rule id.
        rule_id: String,
        /// Which counter.
        metric: Metric,
        /// How much.
        amount: u64,
    },
    /// One more WebSocket handshake.
    WsHandshake,
}

/// A bump as plain values.
pub enum BumpView {
    /// Add `amount` to the `metric` counter of rule `rule_id`.
    Rule { rule_id: Seq<char>, metric: Metric, amount: u64 },
    /// One more WebSocket handshake.
    WsHandshake,
}

impl View for Bump {
    type V = BumpView;

    open spec fn view(&self) -> BumpView {
        match self {
            Bump::Rule { rule_id, metric, amount } => BumpView::Rule { rule_id: rule_id@, metric: *metric, amount: *amount },
            Bump::WsHandshake => BumpView::WsHandshake,
        }
    }
}

/// The counters after one bump for `client`: the per-rule triple and the
/// client's totals grow by the amount, saturating.
pub open spec fn apply_bump(
    c: (Map<(ClientId, Seq<char>), Triple>, Map<ClientId, CumulativeCounters>),
    client: ClientId,
    b: BumpView,
) -> (Map<(ClientId, Seq<char>), Triple>, Map<ClientId, CumulativeCounters>) {
    let cc = cumulative_or_zero(c.1, client);
    match b {
        BumpView::Rule { rule_id, metric, amount } => {
            let t = count_or_zero(c.0, (client, rule_id));
            match metric {
                Metric::Requests => (
                    c.0.insert((client, rule_id), (sat_u64(t.0 + amount), t.1, t.2)),
                    c.1.insert(client, CumulativeCounters { requests: sat_u64(cc.requests + amount), ..cc }),
                ),
                Metric::Bytes => (
                    c.0.insert((client, rule_id), (t.0, sat_u64(t.1 + amount), t.2)),
                    c.1.insert(client, CumulativeCounters { bytes: sat_u64(cc.bytes + amount), ..cc }),
                ),
                Metric::Connections => (
                    c.0.insert((client, rule_id), (t.0, t.1, sat_u64(t.2 + amount))),
                    c.1.insert(client, CumulativeCounters { connections: sat_u64(cc.connections + amount), ..cc }),
                ),
            }
        },
        BumpView::WsHandshake => (
            c.0,
            c.1.insert(client, CumulativeCounters { ws_connections: sat_u64(cc.ws_connections + 1), ..cc }),
        ),
    }
}

/// The counters after each bump in turn.
pub open spec fn apply_bumps(
    c: (Map<(ClientId, Seq<char>), Triple>, Map<ClientId, CumulativeCounters>),
    client: ClientId,
    bs: Seq<BumpView>,
) -> (Map<(ClientId, Seq<char>), Triple>, Map<ClientId, CumulativeCounters>)
    decreases bs.len(),
{
    if bs.len() == 0 {
        c
    } else {
        apply_bump(apply_bumps(c, client, bs.drop_last()), client, bs.last())
    }
}

impl CounterStore {
    /// Apply one bump for `client`.
    pub fn apply_bump(&mut self, client: ClientId, b: &Bump)
        requires
            old(self).wf(),
        ensures
            final(self).wf(),
            (final(self).by_rule@, final(self).by_client@) == apply_bump(
                (old(self).by_rule@, old(self).by_client@),
                client,
                b@,
            ),
    {
        match b {
            Bump::Rule { rule_id, metric, amount } => match metric {
                Metric::Requests => self.add_requests(client, rule_id.as_str(), *amount),
                Metric::Bytes => self.add_bytes(client, rule_id.as_str(), *amount),
                Metric::Connections => self.add_connections(client, rule_id.as_str(), *amount),
            },
            Bump::WsHandshake => self.add_ws_connection(client),
        }
    }

    /// Apply each bump for `client` in turn.
    pub fn apply_bumps(&mut self, client: ClientId, bumps: &Vec<Bump>)
        requires
            old(self).wf(),
        ensures
            final(self).wf(),
            (final(self).by_rule@, final(self).by_client@) == apply_bumps(
                (old(self).by_rule@, old(self).by_client@),
                client,
                bumps@.map_values(|b: Bump| b@),
            ),
    {
        let ghost c0 = (self.by_rule@, self.by_client@);
        let ghost bv = bumps@.map_values(|b: Bump| b@);
        let mut i: usize = 0;
        while i < bumps.len()
            invariant
                i <= bumps@.len(),
                self.wf(),
                bv == bumps@.map_values(|b: Bump| b@),
                (self.by_rule@, self.by_client@) == apply_bumps(c0, client, bv.take(i as int)),
            decreases bumps@.len() - i,
        {
            assert(bv.take(i + 1).drop_last() =~= bv.take(i as int));
            self.apply_bump(client, &bumps[i]);
            i = i + 1;
        }
        assert(bv.take(bumps@.len() as int) =~= bv);
    }
}

impl Default for CounterStore {
    fn default() -> (r: CounterStore)
        ensures
            r.wf(),
            r.by_rule@ == Map::<(ClientId, Seq<char>), Triple>::empty(),
            r.by_client@ == Map::<ClientId, CumulativeCounters>::empty(),
    {
        CounterStore::new()
    }
}

} // verus!
