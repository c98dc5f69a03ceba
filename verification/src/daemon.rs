//! Daemon state and the decision tick: counters → windows → rule engine →
//! policies → enforcement orders.

use vstd::prelude::*;

use std::sync::Arc;

use crate::client::{same_client, ClientId};
use crate::client_map::ClientMap;
use crate::config::{DaemonConfig, LiveConfig, SetsConfig};
use crate::counters::{count_or_zero, CounterKey, CounterStore, RuleCounters, Triple};
use crate::enforcer::Mode;
use crate::version::{info, Info};
use crate::policy::{
    merge_policy, merged, strongest_auto, strongest_index, AutoPolicy, ClientPolicy, EffectiveAction,
    ManualPolicy,
};
use crate::rule::{share_rules, violations_of, Metric, RuleEngine, RuleSet, Violation, ViolationView};
use crate::window::{RuleWindows, WindowView};

verus! {

/// The value of `c` in `m`, if any.
pub open spec fn opt_get<V>(m: Map<ClientId, V>, c: ClientId) -> Option<V> {
    if m.contains_key(c) {
        Some(m[c])
    } else {
        None
    }
}

/// The windows after adding `delta` of `metric` to rule `rule` at `now`
/// (creating the rule's window when it has none).
pub open spec fn win_add(
    m: Map<Seq<char>, WindowView>,
    rule: Seq<char>,
    metric: Metric,
    delta: u64,
    now: u64,
) -> Map<Seq<char>, WindowView> {
    m.insert(
        rule,
        (if m.contains_key(rule) {
            m[rule]
        } else {
            WindowView::fresh(now)
        }).add(metric, delta, now),
    )
}

/// The windows after one counter entry's growth since the last tick:
/// requests, bytes and connections, each only when it grew.
pub open spec fn delta_step(
    m: Map<Seq<char>, WindowView>,
    rule: Seq<char>,
    cur: Triple,
    prev: Triple,
    now: u64,
) -> Map<Seq<char>, WindowView> {
    let m1 = if cur.0 > prev.0 {
        win_add(m, rule, Metric::Requests, (cur.0 - prev.0) as u64, now)
    } else {
        m
    };
    let m2 = if cur.1 > prev.1 {
        win_add(m1, rule, Metric::Bytes, (cur.1 - prev.1) as u64, now)
    } else {
        m1
    };
    if cur.2 > prev.2 {
        win_add(m2, rule, Metric::Connections, (cur.2 - prev.2) as u64, now)
    } else {
        m2
    }
}

/// The windows of client `c` after the growth of its first `n` counter
/// entries (in snapshot order) relative to the last snapshot.
pub open spec fn apply_deltas(
    m: Map<Seq<char>, WindowView>,
    snap: Seq<(CounterKey, Triple)>,
    last: Map<(ClientId, Seq<char>), Triple>,
    c: ClientId,
    now: u64,
    n: int,
) -> Map<Seq<char>, WindowView>
    decreases n,
{
    if n <= 0 {
        m
    } else {
        let m0 = apply_deltas(m, snap, last, c, now, n - 1);
        let e = snap[n - 1];
        if e.0.client == c {
            delta_step(m0, e.0.rule_id@, e.1, count_or_zero(last, (c, e.0.rule_id@)), now)
        } else {
            m0
        }
    }
}

/// The windows of client `c` after a tick at `now`: its windows (none for a
/// new client) advanced to `now`, then the counter growth added.
pub open spec fn tick_windows(
    wins: Map<ClientId, RuleWindows>,
    snap: Seq<(CounterKey, Triple)>,
    last: Map<(ClientId, Seq<char>), Triple>,
    c: ClientId,
    now: u64,
) -> Map<Seq<char>, WindowView> {
    let base = if wins.contains_key(c) {
        wins[c]@
    } else {
        Map::<Seq<char>, WindowView>::empty()
    };
    apply_deltas(base.map_values(|w: WindowView| w.advance(now)), snap, last, c, now, snap.len() as int)
}

/// A manual overlay kept only while it has not expired.
pub open spec fn keep_live_manual(m: Option<ManualPolicy>, now: u64) -> Option<ManualPolicy> {
    match m {
        Some(x) => if x.expired(now) {
            None
        } else {
            Some(x)
        },
        None => None,
    }
}

/// An auto policy kept only while it has not expired.
pub open spec fn keep_live_auto(a: Option<AutoPolicy>, now: u64) -> Option<AutoPolicy> {
    match a {
        Some(x) => if x.expired(now) {
            None
        } else {
            Some(x)
        },
        None => None,
    }
}

/// `new` is the policy after a tick, from `old` (none for a new client) and
/// the violations found: the strongest violation sets the auto policy for
/// `cooldown` ms; without violations an expired auto policy is dropped; an
/// expired manual overlay is dropped.
pub open spec fn tick_policy(
    old: Option<ClientPolicy>,
    new: ClientPolicy,
    viols: Seq<ViolationView>,
    now: u64,
    cooldown: u64,
) -> bool {
    let p = match old {
        Some(p) => p,
        None => ClientPolicy { manual: None, auto: None },
    };
    &&& new.manual == keep_live_manual(p.manual, now)
    &&& if viols.len() > 0 {
        let v = viols[strongest_index(viols, viols.len() as int)];
        new.auto matches Some(a) && a.rule_id@ == v.rule_id && a == AutoPolicy::of_action(
            a.rule_id,
            v.action,
            now,
            cooldown,
        )
    } else {
        new.auto == keep_live_auto(p.auto, now)
    }
}

/// The would-be record of a client after an effective action is decided:
/// cleared for no action, recorded in permissive mode, else unchanged.
pub open spec fn next_would_be(old: Option<EffectiveAction>, eff: EffectiveAction, mode: Mode) -> Option<
    EffectiveAction,
> {
    if eff == EffectiveAction::Pass {
        None
    } else if mode == Mode::Permissive {
        Some(eff)
    } else {
        old
    }
}

/// The first occurrences among the first `n` clients of `s`, in order.
pub open spec fn dedup(s: Seq<ClientId>, n: int) -> Seq<ClientId>
    decreases n,
{
    if n <= 0 {
        seq![]
    } else {
        let d = dedup(s, n - 1);
        if d.contains(s[n - 1]) {
            d
        } else {
            d.push(s[n - 1])
        }
    }
}

/// Clients of the counter entries, in entry order.
pub open spec fn counter_clients(snap: Seq<(CounterKey, Triple)>) -> Seq<ClientId> {
    snap.map_values(|e: (CounterKey, Triple)| e.0.client)
}

/// The clients a tick visits: those with counters (in counter order), then
/// those with a policy, each once.
pub open spec fn touched(st: DaemonState) -> Seq<ClientId> {
    let s = counter_clients(st.counters.by_rule.entries@) + st.policies.key_seq();
    dedup(s, s.len() as int)
}

/// Process-wide daemon state (the decisions; locking and I/O live outside).
#[derive(Debug)]
pub struct DaemonState {
    /// Run mode (immutable after start).
    pub mode: Mode,
    /// Interface name.
    pub interface: String,
    /// Live rules + daemon knobs + sets.
    pub live: LiveConfig,
    /// Per-client policies.
    pub policies: ClientMap<ClientPolicy>,
    /// Per-client sliding windows.
    pub windows: ClientMap<RuleWindows>,
    /// Sniffer counters.
    pub counters: CounterStore,
    /// Last counter snapshot for deltas.
    pub last_counters: RuleCounters,
    /// Would-be actions in permissive mode.
    pub would_be: ClientMap<EffectiveAction>,
    /// Build metadata reported by `info`.
    pub build: Info,
}

impl DaemonState {
    /// Maps well formed, every client's windows well formed.
    pub open spec fn wf(&self) -> bool {
        &&& self.policies.wf()
        &&& self.windows.wf()
        &&& self.counters.wf()
        &&& self.last_counters.wf()
        &&& self.would_be.wf()
        &&& forall|c: ClientId| self.windows@.contains_key(c) ==> (#[trigger] self.windows@[c]).wf()
    }

    /// Auto-policy cooldown in ms (at least one second).
    pub open spec fn cooldown_ms(&self) -> int {
        (if self.live.daemon.cooldown_secs < 1 {
            1
        } else {
            self.live.daemon.cooldown_secs as int
        }) * 1000
    }

    /// Construct.
    pub fn new(mode: Mode, interface: String, live: LiveConfig) -> (r: DaemonState)
        ensures
            r.wf(),
            r.mode == mode,
            r.interface == interface,
            r.live == live,
            r.policies@ == Map::<ClientId, ClientPolicy>::empty(),
            r.windows@ == Map::<ClientId, RuleWindows>::empty(),
            r.counters.by_rule@ == Map::<(ClientId, Seq<char>), Triple>::empty(),
            r.counters.by_client@.len() == 0,
            r.last_counters@ == Map::<(ClientId, Seq<char>), Triple>::empty(),
            r.would_be@ == Map::<ClientId, EffectiveAction>::empty(),
            r.build.version@ == "dev"@,
            r.build.commit@ == "unknown"@,
            r.build.build_time@ == Seq::<char>::empty(),
    {
        DaemonState {
            mode,
            interface,
            live,
            policies: ClientMap::new(),
            windows: ClientMap::new(),
            counters: CounterStore::new(),
            last_counters: RuleCounters::new(),
            would_be: ClientMap::new(),
            build: info(),
        }
    }

    /// Record an applied action (the would-be log in permissive mode; the
    /// enforcer itself is driven by the caller).
    pub fn apply(&mut self, client: ClientId, action: EffectiveAction)
        requires
            old(self).would_be.wf(),
        ensures
            final(self).would_be.wf(),
            final(self).would_be@ == (if old(self).mode == Mode::Permissive {
                old(self).would_be@.insert(client, action)
            } else {
                old(self).would_be@
            }),
            final(self).mode == old(self).mode,
            final(self).interface == old(self).interface,
            final(self).build == old(self).build,
            final(self).live == old(self).live,
            final(self).policies == old(self).policies,
            final(self).windows == old(self).windows,
            final(self).counters == old(self).counters,
            final(self).last_counters == old(self).last_counters,
    {
        if self.mode == Mode::Permissive {
            self.would_be.insert(client, action);
        }
    }

    /// Clear enforcement (drops the would-be record).
    pub fn clear(&mut self, client: ClientId)
        requires
            old(self).would_be.wf(),
        ensures
            final(self).would_be.wf(),
            final(self).would_be@ == old(self).would_be@.remove(client),
            final(self).mode == old(self).mode,
            final(self).interface == old(self).interface,
            final(self).build == old(self).build,
            final(self).live == old(self).live,
            final(self).policies == old(self).policies,
            final(self).windows == old(self).windows,
            final(self).counters == old(self).counters,
            final(self).last_counters == old(self).last_counters,
    {
        self.would_be.remove(&client);
    }

    /// Current rule set.
    pub fn rules(&self) -> (r: Arc<RuleSet>)
        ensures
            r == self.live.rules,
    {
        share_rules(&self.live.rules)
    }

    /// Current sets.
    pub fn sets(&self) -> (r: SetsConfig)
        ensures
            r.sets@.len() == self.live.sets.sets@.len(),
            forall|i: int| 0 <= i < r.sets@.len() ==> (#[trigger] r.sets@[i]).0 == self.live.sets.sets@[i].0
                && r.sets@[i].1@ == self.live.sets.sets@[i].1@,
    {
        self.live.sets.duplicate()
    }

    /// Daemon config snapshot.
    pub fn daemon_cfg(&self) -> (r: DaemonConfig)
        ensures
            r.same_as(self.live.daemon),
    {
        self.live.daemon.duplicate()
    }

    /// Allow users.
    pub fn allow_users(&self) -> (r: Vec<String>)
        ensures
            r@ == self.live.daemon.allow_users@,
    {
        self.daemon_cfg().allow_users
    }

    /// Swap live config.
    pub fn swap_live(&mut self, live: LiveConfig)
        ensures
            final(self).live == live,
            final(self).mode == old(self).mode,
            final(self).interface == old(self).interface,
            final(self).build == old(self).build,
            final(self).policies == old(self).policies,
            final(self).windows == old(self).windows,
            final(self).counters == old(self).counters,
            final(self).last_counters == old(self).last_counters,
            final(self).would_be == old(self).would_be,
    {
        self.live = live;
    }

    /// Add the counter growth of client `c` to its windows `w`.
    fn add_deltas(&self, w: &mut RuleWindows, c: &ClientId, now: u64)
        requires
            self.wf(),
            old(w).wf(),
        ensures
            final(w).wf(),
            final(w)@ == apply_deltas(
                old(w)@,
                self.counters.by_rule.entries@,
                self.last_counters@,
                *c,
                now,
                self.counters.by_rule.entries@.len() as int,
            ),
    {
        let entries = &self.counters.by_rule.entries;
        let mut j: usize = 0;
        while j < entries.len()
            invariant
                self.wf(),
                *entries == self.counters.by_rule.entries,
                j <= entries@.len(),
                w.wf(),
                w@ == apply_deltas(old(w)@, entries@, self.last_counters@, *c, now, j as int),
            decreases entries@.len() - j,
        {
            let e = &entries[j];
            if same_client(&e.0.client, c) {
                let rule = e.0.rule_id.as_str();
                let prev = self.last_counters.get(c, rule);
                let cur = e.1;
                if cur.0 > prev.0 {
                    w.add(rule, Metric::Requests, cur.0 - prev.0, now);
                }
                if cur.1 > prev.1 {
                    w.add(rule, Metric::Bytes, cur.1 - prev.1, now);
                }
                if cur.2 > prev.2 {
                    w.add(rule, Metric::Connections, cur.2 - prev.2, now);
                }
            }
            j = j + 1;
        }
    }

    /// One client's part of a tick; returns its effective action.
    fn process_client(&mut self, c: ClientId, engine: &RuleEngine, now: u64, cooldown: u64) -> (eff:
        EffectiveAction)
        requires
            old(self).wf(),
            engine.rules == old(self).live.rules,
            now + cooldown <= u64::MAX,
        ensures
            final(self).wf(),
            final(self).mode == old(self).mode,
            final(self).interface == old(self).interface,
            final(self).build == old(self).build,
            final(self).live == old(self).live,
            final(self).counters == old(self).counters,
            final(self).last_counters == old(self).last_counters,
            final(self).windows@.contains_key(c),
            final(self).windows@ == old(self).windows@.insert(c, final(self).windows@[c]),
            final(self).windows@[c]@ == tick_windows(
                old(self).windows@,
                old(self).counters.by_rule.entries@,
                old(self).last_counters@,
                c,
                now,
            ),
            final(self).policies@.contains_key(c),
            final(self).policies@ == old(self).policies@.insert(c, final(self).policies@[c]),
            tick_policy(
                opt_get(old(self).policies@, c),
                final(self).policies@[c],
                violations_of(
                    old(self).live.rules.rules@,
                    final(self).windows@[c]@,
                    old(self).live.rules.rules@.len() as int,
                ),
                now,
                cooldown,
            ),
            eff == merged(final(self).policies@[c], now),
            opt_get(final(self).would_be@, c) == next_would_be(opt_get(old(self).would_be@, c), eff, old(self).mode),
            forall|d: ClientId| d != c ==> opt_get(#[trigger] final(self).would_be@, d) == opt_get(old(self).would_be@, d),
    {
        let mut w = match self.windows.remove(&c) {
            Some(w) => w,
            None => RuleWindows::new(),
        };
        let ghost base = if old(self).windows@.contains_key(c) {
            old(self).windows@[c]@
        } else {
            Map::<Seq<char>, WindowView>::empty()
        };
        assert(w@ == base);
        w.advance_all(now);
        self.add_deltas(&mut w, &c, now);
        let violations = engine.evaluate(&w);
        let mut policy = match self.policies.remove(&c) {
            Some(p) => p,
            None => ClientPolicy { manual: None, auto: None },
        };
        let ghost p0 = policy;
        match strongest_auto(&violations, now, cooldown) {
            Some(a) => {
                policy.auto = Some(a);
            },
            None => {
                let expired = match &policy.auto {
                    Some(a) => a.is_expired(now),
                    None => false,
                };
                if expired {
                    policy.auto = None;
                }
            },
        }
        let mexp = match &policy.manual {
            Some(m) => m.is_expired(now),
            None => false,
        };
        if mexp {
            policy.manual = None;
        }
        proof {
            let vs = violations@.map_values(|v: Violation| v@);
            if vs.len() > 0 {
                let si = strongest_index(vs, vs.len() as int);
                assert(vs[si].rule_id == violations@[si].rule_id@);
                assert(vs[si].action == violations@[si].action);
            }
            assert(p0 == (match opt_get(old(self).policies@, c) {
                Some(p) => p,
                None => ClientPolicy { manual: None, auto: None },
            }));
        }
        let eff = merge_policy(&policy, now);
        self.windows.insert(c, w);
        self.policies.insert(c, policy);
        proof {
            assert(self.windows@.remove(c).insert(c, w) =~= old(self).windows@.insert(c, w));
        }
        if eff == EffectiveAction::Pass {
            self.clear(c);
        } else {
            self.apply(c, eff);
        }
        eff
    }
}


/// The first occurrences hold no repeats, and hold exactly the clients among
/// the first `n`.
pub proof fn lemma_dedup(s: Seq<ClientId>, n: int)
    requires
        0 <= n <= s.len(),
    ensures
        forall|i: int, j: int| 0 <= i < j < dedup(s, n).len() ==> dedup(s, n)[i] != dedup(s, n)[j],
        forall|x: ClientId| dedup(s, n).contains(x) <==> s.subrange(0, n).contains(x),
    decreases n,
{
    if n > 0 {
        lemma_dedup(s, n - 1);
        let d = dedup(s, n - 1);
        assert forall|x: ClientId| dedup(s, n).contains(x) <==> s.subrange(0, n).contains(x) by {
            if s.subrange(0, n).contains(x) {
                let sub = s.subrange(0, n);
                let k = choose|k: int| 0 <= k < sub.len() && sub[k] == x;
                if k < n - 1 {
                    assert(s.subrange(0, n - 1)[k] == x);
                    assert(d.contains(x));
                    if !d.contains(s[n - 1]) {
                        let j = choose|j: int| 0 <= j < d.len() && d[j] == x;
                        assert(d.push(s[n - 1])[j] == x);
                    }
                } else {
                    if !d.contains(s[n - 1]) {
                        assert(d.push(s[n - 1])[d.len() as int] == x);
                    }
                }
            }
            if dedup(s, n).contains(x) {
                let j = choose|j: int| 0 <= j < dedup(s, n).len() && dedup(s, n)[j] == x;
                if j < d.len() {
                    assert(d[j] == x);
                    assert(d.contains(x));
                    let sub = s.subrange(0, n - 1);
                    let k = choose|k: int| 0 <= k < sub.len() && sub[k] == x;
                    assert(s.subrange(0, n)[k] == x);
                } else {
                    assert(s.subrange(0, n)[n - 1] == x);
                }
            }
        }
    }
}

/// Append `c` unless it is already listed.
pub fn push_new(out: &mut Vec<ClientId>, c: ClientId)
    ensures
        final(out)@ == (if old(out)@.contains(c) {
            old(out)@
        } else {
            old(out)@.push(c)
        }),
{
    let mut k: usize = 0;
    while k < out.len()
        invariant
            k <= out@.len(),
            forall|j: int| 0 <= j < k ==> out@[j] != c,
        decreases out@.len() - k,
    {
        if same_client(&out[k], &c) {
            assert(out@[k as int] == c);
            return;
        }
        k = k + 1;
    }
    out.push(c);
}

impl DaemonState {
    /// The clients a tick visits, in order.
    pub fn touched_clients(&self) -> (r: Vec<ClientId>)
        ensures
            r@ == touched(*self),
    {
        let ghost s = counter_clients(self.counters.by_rule.entries@) + self.policies.key_seq();
        let entries = &self.counters.by_rule.entries;
        let n1 = entries.len();
        let mut out: Vec<ClientId> = Vec::new();
        let mut j: usize = 0;
        while j < n1
            invariant
                n1 == entries@.len(),
                *entries == self.counters.by_rule.entries,
                s == counter_clients(self.counters.by_rule.entries@) + self.policies.key_seq(),
                j <= n1,
                out@ == dedup(s, j as int),
            decreases n1 - j,
        {
            assert(s[j as int] == entries@[j as int].0.client);
            push_new(&mut out, entries[j].0.client);
            j = j + 1;
        }
        let pe = &self.policies.entries;
        let mut k: usize = 0;
        while k < pe.len()
            invariant
                n1 == self.counters.by_rule.entries@.len(),
                *pe == self.policies.entries,
                s == counter_clients(self.counters.by_rule.entries@) + self.policies.key_seq(),
                k <= pe@.len(),
                out@ == dedup(s, n1 + k),
            decreases pe@.len() - k,
        {
            assert(s[n1 + k] == pe@[k as int].0);
            push_new(&mut out, pe[k].0);
            k = k + 1;
        }
        out
    }

    /// One decision tick at `now` (ms): every client with counters or a
    /// policy gets its windows advanced and fed with the counter growth since
    /// the last tick, its rules evaluated, its policy updated and its
    /// effective action decided. Returns the enforcement orders, one per
    /// visited client in visiting order (`Pass` means clear).
    #[verifier::rlimit(50)]
    pub fn tick(&mut self, now: u64) -> (r: Vec<(ClientId, EffectiveAction)>)
        requires
            old(self).wf(),
            now + old(self).cooldown_ms() <= u64::MAX,
        ensures
            final(self).wf(),
            final(self).mode == old(self).mode,
            final(self).interface == old(self).interface,
            final(self).build == old(self).build,
            final(self).live == old(self).live,
            final(self).counters == old(self).counters,
            final(self).last_counters@ == old(self).counters.by_rule@,
            r@.map_values(|p: (ClientId, EffectiveAction)| p.0) == touched(*old(self)),
            forall|k: int| 0 <= k < r@.len() ==> (#[trigger] r@[k]).1 == merged(final(self).policies@[r@[k].0], now),
            forall|c: ClientId| #[trigger] touched(*old(self)).contains(c) ==> {
                &&& final(self).windows@.contains_key(c)
                &&& final(self).windows@[c]@ == tick_windows(
                    old(self).windows@,
                    old(self).counters.by_rule.entries@,
                    old(self).last_counters@,
                    c,
                    now,
                )
                &&& final(self).policies@.contains_key(c)
                &&& tick_policy(
                    opt_get(old(self).policies@, c),
                    final(self).policies@[c],
                    violations_of(
                        old(self).live.rules.rules@,
                        final(self).windows@[c]@,
                        old(self).live.rules.rules@.len() as int,
                    ),
                    now,
                    old(self).cooldown_ms() as u64,
                )
                &&& opt_get(final(self).would_be@, c) == next_would_be(
                    opt_get(old(self).would_be@, c),
                    merged(final(self).policies@[c], now),
                    old(self).mode,
                )
            },
            forall|c: ClientId| !(#[trigger] touched(*old(self)).contains(c)) ==> {
                &&& opt_get(final(self).windows@, c) == opt_get(old(self).windows@, c)
                &&& opt_get(final(self).policies@, c) == opt_get(old(self).policies@, c)
                &&& opt_get(final(self).would_be@, c) == opt_get(old(self).would_be@, c)
            },
    {
        let secs = if self.live.daemon.cooldown_secs < 1 {
            1
        } else {
            self.live.daemon.cooldown_secs
        };
        let cooldown = secs * 1000;
        let engine = RuleEngine::new(share_rules(&self.live.rules));
        let clients = self.touched_clients();
        let ghost t = clients@;
        let ghost init = *self;
        proof {
            let s = counter_clients(self.counters.by_rule.entries@) + self.policies.key_seq();
            lemma_dedup(s, s.len() as int);
        }
        let mut out: Vec<(ClientId, EffectiveAction)> = Vec::new();
        let mut i: usize = 0;
        while i < clients.len()
            invariant
                self.wf(),
                t == clients@,
                t == touched(init),
                forall|a: int, b: int| 0 <= a < b < t.len() ==> t[a] != t[b],
                cooldown == init.cooldown_ms(),
                now + cooldown <= u64::MAX,
                engine.rules == init.live.rules,
                self.mode == init.mode,
                self.interface == init.interface,
                self.build == init.build,
                self.live == init.live,
                self.counters == init.counters,
                self.last_counters == init.last_counters,
                i <= t.len(),
                out@.len() == i,
                forall|k: int| 0 <= k < i ==> (#[trigger] out@[k]).0 == t[k] && out@[k].1 == merged(
                    self.policies@[t[k]],
                    now,
                ),
                forall|c: ClientId| #[trigger] t.subrange(0, i as int).contains(c) ==> {
                    &&& self.windows@.contains_key(c)
                    &&& self.windows@[c]@ == tick_windows(
                        init.windows@,
                        init.counters.by_rule.entries@,
                        init.last_counters@,
                        c,
                        now,
                    )
                    &&& self.policies@.contains_key(c)
                    &&& tick_policy(
                        opt_get(init.policies@, c),
                        self.policies@[c],
                        violations_of(init.live.rules.rules@, self.windows@[c]@, init.live.rules.rules@.len() as int),
                        now,
                        cooldown,
                    )
                    &&& opt_get(self.would_be@, c) == next_would_be(
                        opt_get(init.would_be@, c),
                        merged(self.policies@[c], now),
                        init.mode,
                    )
                },
                forall|c: ClientId| !(#[trigger] t.subrange(0, i as int).contains(c)) ==> {
                    &&& opt_get(self.windows@, c) == opt_get(init.windows@, c)
                    &&& opt_get(self.policies@, c) == opt_get(init.policies@, c)
                    &&& opt_get(self.would_be@, c) == opt_get(init.would_be@, c)
                },
            decreases t.len() - i,
        {
            let c = clients[i];
            let ghost pre = *self;
            proof {
                assert(!t.subrange(0, i as int).contains(c)) by {
                    if t.subrange(0, i as int).contains(c) {
                        let k = choose|k: int| 0 <= k < i && t.subrange(0, i as int)[k] == c;
                        assert(t[k] == t[i as int]);
                    }
                }
                assert(opt_get(pre.windows@, c) == opt_get(init.windows@, c));
                assert(tick_windows(pre.windows@, pre.counters.by_rule.entries@, pre.last_counters@, c, now)
                    == tick_windows(init.windows@, init.counters.by_rule.entries@, init.last_counters@, c, now));
            }
            let eff = self.process_client(c, &engine, now, cooldown);
            out.push((c, eff));
            proof {
                let done0 = t.subrange(0, i as int);
                let done1 = t.subrange(0, i + 1);
                assert(done1 =~= done0.push(c));
                assert forall|d: ClientId| #[trigger] done1.contains(d) implies {
                    &&& self.windows@.contains_key(d)
                    &&& self.windows@[d]@ == tick_windows(
                        init.windows@,
                        init.counters.by_rule.entries@,
                        init.last_counters@,
                        d,
                        now,
                    )
                    &&& self.policies@.contains_key(d)
                    &&& tick_policy(
                        opt_get(init.policies@, d),
                        self.policies@[d],
                        violations_of(init.live.rules.rules@, self.windows@[d]@, init.live.rules.rules@.len() as int),
                        now,
                        cooldown,
                    )
                    &&& opt_get(self.would_be@, d) == next_would_be(
                        opt_get(init.would_be@, d),
                        merged(self.policies@[d], now),
                        init.mode,
                    )
                } by {
                    if d != c {
                        assert(done0.contains(d)) by {
                            let k = choose|k: int| 0 <= k < done1.len() && done1[k] == d;
                            assert(k < i);
                            assert(done0[k] == d);
                        }
                        assert(opt_get(self.would_be@, d) == opt_get(pre.would_be@, d));
                    } else {
                        assert(opt_get(pre.policies@, c) == opt_get(init.policies@, c));
                        assert(opt_get(pre.would_be@, c) == opt_get(init.would_be@, c));
                    }
                }
                assert forall|d: ClientId| !(#[trigger] done1.contains(d)) implies {
                    &&& opt_get(self.windows@, d) == opt_get(init.windows@, d)
                    &&& opt_get(self.policies@, d) == opt_get(init.policies@, d)
                    &&& opt_get(self.would_be@, d) == opt_get(init.would_be@, d)
                } by {
                    assert(done1[i as int] == c);
                    assert(d != c);
                    assert(!done0.contains(d)) by {
                        if done0.contains(d) {
                            let k = choose|k: int| 0 <= k < done0.len() && done0[k] == d;
                            assert(done1[k] == d);
                        }
                    }
                    assert(opt_get(self.would_be@, d) == opt_get(pre.would_be@, d));
                }
                assert forall|k: int| 0 <= k < i + 1 implies (#[trigger] out@[k]).0 == t[k] && out@[k].1 == merged(
                    self.policies@[t[k]],
                    now,
                ) by {
                    if k < i {
                        assert(t[k] != c);
                        assert(done0.contains(t[k])) by {
                            assert(done0[k] == t[k]);
                        }
                        assert(self.policies@[t[k]] == pre.policies@[t[k]]);
                    }
                }
            }
            i = i + 1;
        }
        self.last_counters = self.counters.snapshot_rules();
        proof {
            assert(t.subrange(0, t.len() as int) =~= t);
            assert(out@.map_values(|p: (ClientId, EffectiveAction)| p.0) =~= t);
        }
        out
    }
}

} // verus!
