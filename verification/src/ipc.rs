//! Answers to socket requests: what each request reads from and does to the
//! daemon state (the socket, peer checks and the store live outside).

use vstd::prelude::*;

use crate::client::{client_parse, ip_text, ip_to_string, mac_text, ClientId, IpAddr};
use crate::client_map::ClientMap;
use crate::config::copy_opt_string;
use crate::counters::CumulativeCounters;
use crate::daemon::{dedup, opt_get, push_new, DaemonState};
use crate::enforcer::Mode;
use crate::policy::{merge_policy, merged, stored_until, ClientPolicy, EffectiveAction, ManualPolicy, StoredManualPolicy};
use crate::rule::{Action, Rule, RuleSet};
use crate::text::{concat3, text_is};
use crate::window::{windows_sum, WindowView};
use crate::wire::{
    ActionWire, BlockParams, ClientEntry, ClientParams, ClientRef, ClientStatsWire, ClientsResult, EmptyResult,
    ErrorBody, InfoResult, Params, Request, RequestKind, Response, ResultBody, RuleWire, RulesResult,
    ThrottleParams, TopColumn, TopParams, ViolationWire,
};

verus! {

/// Wire form of a rule action.
pub open spec fn action_wire(a: Action) -> ActionWire {
    match a {
        Action::Throttle { drop_rate } => ActionWire::Throttle { drop_rate },
        Action::Block => ActionWire::Block,
    }
}

/// Wire form of an effective action.
pub open spec fn effective_wire(a: EffectiveAction) -> ActionWire {
    match a {
        EffectiveAction::Pass => ActionWire::Pass,
        EffectiveAction::Throttle { drop_rate } => ActionWire::Throttle { drop_rate },
        EffectiveAction::Block => ActionWire::Block,
    }
}

/// Rule action to wire.
pub fn action_to_wire(a: Action) -> (r: ActionWire)
    ensures
        r == action_wire(a),
{
    match a {
        Action::Throttle { drop_rate } => ActionWire::Throttle { drop_rate },
        Action::Block => ActionWire::Block,
    }
}

/// Effective action to wire.
pub fn effective_to_wire(a: EffectiveAction) -> (r: ActionWire)
    ensures
        r == effective_wire(a),
{
    match a {
        EffectiveAction::Pass => ActionWire::Pass,
        EffectiveAction::Throttle { drop_rate } => ActionWire::Throttle { drop_rate },
        EffectiveAction::Block => ActionWire::Block,
    }
}

/// `r` names client `c`: its MAC text and its IP text.
pub open spec fn ref_of(r: ClientRef, c: ClientId) -> bool {
    r.mac@ == mac_text(c.mac@) && (r.ip matches Some(s) && s@ == ip_text(c.ip))
}

/// Client to wire ref.
pub fn client_to_ref(c: ClientId) -> (r: ClientRef)
    ensures
        ref_of(r, c),
{
    ClientRef { mac: c.mac_string(), ip: Some(ip_to_string(&c.ip)) }
}

/// The text a ref stands for: `mac@ip`, or the MAC alone.
pub open spec fn ref_text(r: ClientRef) -> Seq<char> {
    match r.ip {
        Some(ip) => r.mac@ + seq!['@'] + ip@,
        None => r.mac@,
    }
}

/// Wire ref to client; the error is the parse error's message.
pub fn parse_ref(r: &ClientRef) -> (res: Result<ClientId, String>)
    ensures
        match res {
            Ok(c) => client_parse(ref_text(*r)) == Some(c),
            Err(m) => client_parse(ref_text(*r)) is None && m@ == "invalid client ref: "@ + ref_text(*r),
        },
{
    let s = match &r.ip {
        Some(ip) => concat3(r.mac.as_str(), "@", ip.as_str()),
        None => r.mac.clone(),
    };
    proof {
        reveal_strlit("@");
        assert(s@ =~= ref_text(*r));
    }
    match ClientId::parse(s.as_str()) {
        Ok(c) => Ok(c),
        Err(e) => Err(e.message()),
    }
}

/// Diagnostic stats on the wire.
pub open spec fn stats_of(s: CumulativeCounters) -> ClientStatsWire {
    ClientStatsWire {
        requests: s.requests,
        bytes: s.bytes,
        connections: s.connections,
        ws_connections: s.ws_connections,
    }
}

/// Stats to wire.
pub fn stats_to_wire(s: CumulativeCounters) -> (r: ClientStatsWire)
    ensures
        r == stats_of(s),
{
    ClientStatsWire {
        requests: s.requests,
        bytes: s.bytes,
        connections: s.connections,
        ws_connections: s.ws_connections,
    }
}

/// A client's diagnostic stats, when it has counters.
pub open spec fn client_stats(st: DaemonState, c: ClientId) -> Option<ClientStatsWire> {
    if st.counters.by_client@.contains_key(c) {
        Some(stats_of(st.counters.by_client@[c]))
    } else {
        None
    }
}

/// The would-be action shown for a client whose effective action is `eff`:
/// its recorded would-be action, else (in permissive mode) `eff`.
pub open spec fn would_be_shown(st: DaemonState, c: ClientId, eff: EffectiveAction) -> Option<ActionWire> {
    if st.would_be@.contains_key(c) {
        Some(effective_wire(st.would_be@[c]))
    } else if st.mode == Mode::Permissive {
        Some(effective_wire(eff))
    } else {
        None
    }
}

/// The effective action of a client at `now` (none without a policy).
pub open spec fn client_effective(st: DaemonState, c: ClientId, now: u64) -> EffectiveAction {
    if st.policies@.contains_key(c) {
        merged(st.policies@[c], now)
    } else {
        EffectiveAction::Pass
    }
}

/// `e` is the row of client `c` in a client listing: its ref, effective
/// and would-be actions and stats; `hot` and the observations are given.
pub open spec fn row_of(st: DaemonState, c: ClientId, now: u64, e: ClientEntry, hot: bool) -> bool {
    let eff = client_effective(st, c, now);
    &&& ref_of(e.client, c)
    &&& e.action == Some(effective_wire(eff))
    &&& e.would_be_action == would_be_shown(st, c, eff)
    &&& e.hot == hot
    &&& e.stats == client_stats(st, c)
}

/// The counter entries, in order, of clients without a policy.
pub open spec fn stats_only(entries: Seq<(ClientId, CumulativeCounters)>, pol: Map<ClientId, ClientPolicy>, n: int) -> Seq<
    (ClientId, CumulativeCounters),
>
    decreases n,
{
    if n <= 0 {
        seq![]
    } else {
        let p = stats_only(entries, pol, n - 1);
        if pol.contains_key(entries[n - 1].0) {
            p
        } else {
            p.push(entries[n - 1])
        }
    }
}

/// `r` lists every client with a policy (in policy order), then every
/// client with counters but no policy (in counter order), without
/// observations or columns.
pub open spec fn clients_listing(st: DaemonState, now: u64, r: ClientsResult) -> bool {
    let np = st.policies.entries@.len();
    let extra = stats_only(st.counters.by_client.entries@, st.policies@, st.counters.by_client.entries@.len() as int);
    &&& r.clients@.len() == np + extra.len()
    &&& forall|i: int| 0 <= i < np ==> row_of(st, st.policies.entries@[i].0, now, #[trigger] r.clients@[i], false)
        && r.clients@[i].violations@.len() == 0
    &&& forall|j: int| 0 <= j < extra.len() ==> row_of(st, extra[j].0, now, #[trigger] r.clients@[np + j], false)
        && r.clients@[np + j].violations@.len() == 0
    &&& r.columns@.len() == 0
}

/// The wire form of one rule.
pub open spec fn rule_wire_of(w: RuleWire, r: Rule) -> bool {
    &&& w.id@ == r.id@
    &&& w.protocol@ == r.protocol.name()
    &&& w.ports@ == (match r.ports {
        Some(p) => p@,
        None => Seq::<u16>::empty(),
    })
    &&& w.metric@ == r.metric.name()
    &&& w.window@ == r.window.name()
    &&& w.limit == r.limit
    &&& w.action == action_wire(r.action)
    &&& w.min_threshold == r.min_threshold
    &&& w.matcher == r.match_src
}

/// A copy of a port list.
fn copy_ports(p: &Vec<u16>) -> (r: Vec<u16>)
    ensures
        r@ == p@,
{
    let mut out: Vec<u16> = Vec::new();
    let mut i: usize = 0;
    while i < p.len()
        invariant
            i <= p@.len(),
            out@ == p@.subrange(0, i as int),
        decreases p@.len() - i,
    {
        out.push(p[i]);
        i = i + 1;
    }
    assert(out@ =~= p@);
    out
}

/// Wire form of a rule.
pub fn rule_to_wire(r: &Rule) -> (w: RuleWire)
    ensures
        rule_wire_of(w, *r),
{
    RuleWire {
        id: r.id.clone(),
        protocol: String::from_str(r.protocol.as_str()),
        ports: match &r.ports {
            Some(p) => copy_ports(p),
            None => Vec::new(),
        },
        metric: String::from_str(r.metric.as_str()),
        window: String::from_str(r.window.as_str()),
        limit: r.limit,
        action: action_to_wire(r.action),
        min_threshold: r.min_threshold,
        matcher: copy_opt_string(&r.match_src),
    }
}

impl DaemonState {
    /// `info`: build metadata, mode and interface.
    pub fn info_result(&self) -> (r: InfoResult)
        ensures
            r.version@ == self.build.version@,
            r.commit@ == self.build.commit@,
            r.build_time@ == self.build.build_time@,
            r.mode@ == self.mode.name(),
            r.interface@ == self.interface@,
    {
        InfoResult {
            version: self.build.version.clone(),
            commit: self.build.commit.clone(),
            build_time: self.build.build_time.clone(),
            mode: String::from_str(self.mode.as_str()),
            interface: self.interface.clone(),
        }
    }

    /// `listRules`: every loaded rule, in load order.
    pub fn list_rules(&self) -> (r: RulesResult)
        ensures
            r.rules@.len() == self.live.rules.rules@.len(),
            forall|i: int| 0 <= i < r.rules@.len() ==> rule_wire_of(#[trigger] r.rules@[i], self.live.rules.rules@[i]),
    {
        let rules = &self.live.rules.rules;
        let mut out: Vec<RuleWire> = Vec::new();
        let mut i: usize = 0;
        while i < rules.len()
            invariant
                *rules == self.live.rules.rules,
                i <= rules@.len(),
                out@.len() == i,
                forall|k: int| 0 <= k < i ==> rule_wire_of(#[trigger] out@[k], rules@[k]),
            decreases rules@.len() - i,
        {
            out.push(rule_to_wire(&rules[i]));
            i = i + 1;
        }
        RulesResult { rules: out }
    }

    /// The would-be action shown for `c` with effective action `eff`.
    fn would_be_for(&self, c: &ClientId, eff: EffectiveAction) -> (r: Option<ActionWire>)
        requires
            self.wf(),
        ensures
            r == would_be_shown(*self, *c, eff),
    {
        match self.would_be.get(c) {
            Some(a) => Some(effective_to_wire(*a)),
            None => if self.mode == Mode::Permissive {
                Some(effective_to_wire(eff))
            } else {
                None
            },
        }
    }

    /// The stats shown for `c`.
    fn stats_for(&self, c: &ClientId) -> (r: Option<ClientStatsWire>)
        requires
            self.wf(),
        ensures
            r == client_stats(*self, *c),
    {
        match self.counters.by_client.get(c) {
            Some(s) => Some(stats_to_wire(*s)),
            None => None,
        }
    }

    /// The effective action of `c` at `now`.
    fn effective_for(&self, c: &ClientId, now: u64) -> (r: EffectiveAction)
        requires
            self.wf(),
        ensures
            r == client_effective(*self, *c, now),
    {
        match self.policies.get(c) {
            Some(p) => merge_policy(p, now),
            None => EffectiveAction::Pass,
        }
    }

    /// A listing row for `c`.
    fn row(&self, c: ClientId, now: u64, violations: Vec<ViolationWire>, hot: bool) -> (e: ClientEntry)
        requires
            self.wf(),
        ensures
            row_of(*self, c, now, e, hot),
            e.violations == violations,
    {
        let eff = self.effective_for(&c, now);
        ClientEntry {
            client: client_to_ref(c),
            action: Some(effective_to_wire(eff)),
            would_be_action: self.would_be_for(&c, eff),
            violations,
            hot,
            stats: self.stats_for(&c),
        }
    }

    /// `listClients`: every client with a policy (in policy order), then every
    /// client with counters but no policy (in counter order).
    pub fn list_clients(&self, now: u64) -> (r: ClientsResult)
        requires
            self.wf(),
        ensures
            clients_listing(*self, now, r),
    {
        let mut clients: Vec<ClientEntry> = Vec::new();
        let pe = &self.policies.entries;
        let np = pe.len();
        let mut i: usize = 0;
        while i < np
            invariant
                self.wf(),
                *pe == self.policies.entries,
                np == pe@.len(),
                i <= np,
                clients@.len() == i,
                forall|k: int| 0 <= k < i ==> row_of(*self, pe@[k].0, now, #[trigger] clients@[k], false)
                    && clients@[k].violations@.len() == 0,
            decreases np - i,
        {
            let e = self.row(pe[i].0, now, Vec::new(), false);
            clients.push(e);
            i = i + 1;
        }
        let se = &self.counters.by_client.entries;
        let ghost extra_all = stats_only(se@, self.policies@, se@.len() as int);
        let mut j: usize = 0;
        while j < se.len()
            invariant
                self.wf(),
                *se == self.counters.by_client.entries,
                np == self.policies.entries@.len(),
                j <= se@.len(),
                clients@.len() == np + stats_only(se@, self.policies@, j as int).len(),
                forall|k: int| 0 <= k < np ==> row_of(*self, self.policies.entries@[k].0, now, #[trigger] clients@[k], false)
                    && clients@[k].violations@.len() == 0,
                forall|k: int| 0 <= k < stats_only(se@, self.policies@, j as int).len() ==> row_of(
                    *self,
                    stats_only(se@, self.policies@, j as int)[k].0,
                    now,
                    #[trigger] clients@[np + k],
                    false,
                ) && clients@[np + k].violations@.len() == 0,
            decreases se@.len() - j,
        {
            let c = se[j].0;
            let ghost before = stats_only(se@, self.policies@, j as int);
            if !self.policies.contains(&c) {
                let e = self.row(c, now, Vec::new(), false);
                clients.push(e);
                proof {
                    let after = stats_only(se@, self.policies@, j + 1);
                    assert(after == before.push(se@[j as int]));
                    assert forall|k: int| 0 <= k < after.len() implies row_of(
                        *self,
                        after[k].0,
                        now,
                        #[trigger] clients@[np + k],
                        false,
                    ) && clients@[np + k].violations@.len() == 0 by {
                        if k < before.len() {
                            assert(after[k] == before[k]);
                        }
                    }
                }
            }
            j = j + 1;
        }
        ClientsResult { clients, columns: Vec::new() }
    }
}


/// A rule passes the `top` filters: rule id, protocol and metric, each when given.
pub open spec fn rule_selected(r: Rule, p: TopParams) -> bool {
    &&& (p.rule_id matches Some(id) ==> r.id@ == id@)
    &&& (p.protocol matches Some(x) ==> r.protocol.name() == x@)
    &&& (p.metric matches Some(m) ==> r.metric.name() == m@)
}

/// The rules among the first `n` that pass the filters, in load order.
pub open spec fn selected(rules: Seq<Rule>, p: TopParams, n: int) -> Seq<Rule>
    decreases n,
{
    if n <= 0 {
        seq![]
    } else {
        let s = selected(rules, p, n - 1);
        if rule_selected(rules[n - 1], p) {
            s.push(rules[n - 1])
        } else {
            s
        }
    }
}

/// The rules `top` reports on are exactly those of the first `n` that pass
/// every filter given: each selected rule has the requested id, protocol
/// name and metric name (a rule of another protocol is never selected),
/// each comes from the rule list, and every rule passing all the filters is
/// selected.
pub proof fn lemma_top_filters(rules: Seq<Rule>, p: TopParams, n: int)
    requires
        0 <= n <= rules.len(),
    ensures
        forall|k: int|
            #![trigger selected(rules, p, n)[k]]
            0 <= k < selected(rules, p, n).len() ==> {
                let r = selected(rules, p, n)[k];
                &&& (p.rule_id matches Some(id) ==> r.id@ == id@)
                &&& (p.protocol matches Some(x) ==> r.protocol.name() == x@)
                &&& (p.metric matches Some(m) ==> r.metric.name() == m@)
                &&& exists|i: int| 0 <= i < n && rules[i] == r
            },
        forall|i: int|
            #![trigger rules[i]]
            0 <= i < n && (p.rule_id matches Some(id) ==> rules[i].id@ == id@) && (p.protocol matches Some(x)
                ==> rules[i].protocol.name() == x@) && (p.metric matches Some(m) ==> rules[i].metric.name() == m@)
                ==> exists|k: int| 0 <= k < selected(rules, p, n).len() && #[trigger] selected(rules, p, n)[k] == rules[i],
    decreases n,
{
    if n > 0 {
        lemma_top_filters(rules, p, n - 1);
        let prev = selected(rules, p, n - 1);
        let cur = selected(rules, p, n);
        assert forall|k: int| 0 <= k < prev.len() implies #[trigger] cur[k] == prev[k] by {}
        if rule_selected(rules[n - 1], p) {
            assert(cur[prev.len() as int] == rules[n - 1]);
        }
        assert forall|k: int| #![trigger cur[k]] 0 <= k < cur.len() implies exists|i: int| 0 <= i < n && rules[i] == cur[k] by {
            if k < prev.len() {
                let i = choose|i: int| 0 <= i < n - 1 && rules[i] == prev[k];
                assert(rules[i] == cur[k]);
            } else {
                assert(rules[n - 1] == cur[k]);
            }
        }
        assert forall|i: int|
            #![trigger rules[i]]
            0 <= i < n && (p.rule_id matches Some(id) ==> rules[i].id@ == id@) && (p.protocol matches Some(x)
                ==> rules[i].protocol.name() == x@) && (p.metric matches Some(m) ==> rules[i].metric.name() == m@)
                implies exists|k: int| 0 <= k < cur.len() && #[trigger] cur[k] == rules[i] by {
            if i < n - 1 {
                let k = choose|k: int| 0 <= k < prev.len() && #[trigger] prev[k] == rules[i];
                assert(cur[k] == rules[i]);
            } else {
                assert(cur[prev.len() as int] == rules[i]);
            }
        }
    }
}

/// A rule's current windowed value in a client's windows.
pub open spec fn rule_value(win: Map<Seq<char>, WindowView>, r: Rule) -> u64 {
    windows_sum(win, r.id@, r.metric, r.window.spec_secs() as int)
}

/// The largest value over the first `n` rules (0 when none).
pub open spec fn best_value(win: Map<Seq<char>, WindowView>, sel: Seq<Rule>, n: int) -> u64
    decreases n,
{
    if n <= 0 {
        0
    } else {
        let b = best_value(win, sel, n - 1);
        let v = rule_value(win, sel[n - 1]);
        if v > b {
            v
        } else {
            b
        }
    }
}

/// Some rule's value is at least its `min_threshold`.
pub open spec fn is_hot(win: Map<Seq<char>, WindowView>, sel: Seq<Rule>) -> bool {
    exists|i: int| 0 <= i < sel.len() && rule_value(win, #[trigger] sel[i]) >= sel[i].min_threshold
}

/// `e` holds one observation per rule: id, value, limit and action.
pub open spec fn obs_of(e: Seq<ViolationWire>, win: Map<Seq<char>, WindowView>, sel: Seq<Rule>) -> bool {
    &&& e.len() == sel.len()
    &&& forall|i: int| 0 <= i < sel.len() ==> {
        &&& (#[trigger] e[i]).rule_id@ == sel[i].id@
        &&& e[i].value == rule_value(win, sel[i])
        &&& e[i].limit == sel[i].limit
        &&& e[i].action == action_wire(sel[i].action)
    }
}

/// A client's windows (none for a client without any).
pub open spec fn client_wins(st: DaemonState, c: ClientId) -> Map<Seq<char>, WindowView> {
    if st.windows@.contains_key(c) {
        st.windows@[c]@
    } else {
        Map::<Seq<char>, WindowView>::empty()
    }
}

/// The clients `top` ranks: those with windows, then with policies, then
/// with counters, each once.
pub open spec fn top_clients(st: DaemonState) -> Seq<ClientId> {
    let s = st.windows.key_seq() + st.policies.key_seq() + st.counters.by_client.key_seq();
    dedup(s, s.len() as int)
}

/// The ranking key of a client: (client, best value, hot).
pub type TopKey = (ClientId, u64, bool);

/// The ranking key of `c` under the selected rules.
pub open spec fn top_key(st: DaemonState, sel: Seq<Rule>, c: ClientId) -> TopKey {
    (c, best_value(client_wins(st, c), sel, sel.len() as int), is_hot(client_wins(st, c), sel))
}

/// Lexicographic `a < b` from position `i` on.
pub open spec fn lex_lt(a: Seq<u8>, b: Seq<u8>, i: int) -> bool
    decreases a.len() - i,
{
    if i < 0 || i >= a.len() || i >= b.len() {
        false
    } else if a[i] < b[i] {
        true
    } else if a[i] > b[i] {
        false
    } else {
        lex_lt(a, b, i + 1)
    }
}

/// Address order: every IPv4 address before every IPv6 one, octets compared
/// in order within a family.
pub open spec fn ip_lt(a: IpAddr, b: IpAddr) -> bool {
    match (a, b) {
        (IpAddr::V4(x), IpAddr::V4(y)) => lex_lt(x@, y@, 0),
        (IpAddr::V4(_), IpAddr::V6(_)) => true,
        (IpAddr::V6(_), IpAddr::V4(_)) => false,
        (IpAddr::V6(x), IpAddr::V6(y)) => lex_lt(x@, y@, 0),
    }
}

/// `a` ranks before `b`: hot first, then higher value, then lower MAC, then
/// lower IP.
pub open spec fn ranks_before(a: TopKey, b: TopKey) -> bool {
    ||| (a.2 && !b.2)
    ||| (a.2 == b.2 && a.1 > b.1)
    ||| (a.2 == b.2 && a.1 == b.1 && lex_lt(a.0.mac@, b.0.mac@, 0))
    ||| (a.2 == b.2 && a.1 == b.1 && a.0.mac@ == b.0.mac@ && ip_lt(a.0.ip, b.0.ip))
}

/// `x` placed before the first key of `s` it ranks before.
pub open spec fn insert_sorted(s: Seq<TopKey>, x: TopKey) -> Seq<TopKey>
    decreases s.len(),
{
    if s.len() == 0 {
        seq![x]
    } else if ranks_before(x, s[0]) {
        seq![x] + s
    } else {
        seq![s[0]] + insert_sorted(s.drop_first(), x)
    }
}

/// The keys in ranking order (insertion sort).
pub open spec fn sort_keys(s: Seq<TopKey>, n: int) -> Seq<TopKey>
    decreases n,
{
    if n <= 0 {
        seq![]
    } else {
        insert_sorted(sort_keys(s, n - 1), s[n - 1])
    }
}

/// The columns `top` reports: one per selected rule.
pub open spec fn columns_of(cols: Seq<TopColumn>, sel: Seq<Rule>) -> bool {
    &&& cols.len() == sel.len()
    &&& forall|i: int| 0 <= i < sel.len() ==> {
        &&& (#[trigger] cols[i]).rule_id@ == sel[i].id@
        &&& cols[i].window@ == sel[i].window.name()
        &&& cols[i].limit == sel[i].limit
        &&& cols[i].min_threshold == sel[i].min_threshold
    }
}

/// The ranked clients of `st` under the filters `params`.
pub open spec fn top_ranking(st: DaemonState, params: TopParams) -> Seq<TopKey> {
    let sel = selected(st.live.rules.rules@, params, st.live.rules.rules@.len() as int);
    let cs = top_clients(st);
    let keys = cs.map_values(|c: ClientId| top_key(st, sel, c));
    sort_keys(keys, keys.len() as int)
}

/// `r` is the `top` answer: one column per selected rule; the ranked
/// clients (hot band first, then by value, MAC and IP), cut to `limit` when
/// it is positive, each with one observation per selected rule.
pub open spec fn top_listing(st: DaemonState, params: TopParams, now: u64, r: ClientsResult) -> bool {
    let sel = selected(st.live.rules.rules@, params, st.live.rules.rules@.len() as int);
    let sorted = top_ranking(st, params);
    let k = if params.limit > 0 && params.limit < sorted.len() {
        params.limit as int
    } else {
        sorted.len() as int
    };
    &&& columns_of(r.columns@, sel)
    &&& r.clients@.len() == k
    &&& forall|i: int| 0 <= i < k ==> {
        &&& row_of(st, sorted[i].0, now, #[trigger] r.clients@[i], sorted[i].2)
        &&& obs_of(r.clients@[i].violations@, client_wins(st, sorted[i].0), sel)
    }
}

/// Inserting at the first position where `x` ranks before the key there.
proof fn lemma_insert_sorted(s: Seq<TopKey>, x: TopKey, p: int)
    requires
        0 <= p <= s.len(),
        forall|j: int| 0 <= j < p ==> !ranks_before(x, #[trigger] s[j]),
        p < s.len() ==> ranks_before(x, s[p]),
    ensures
        insert_sorted(s, x) == s.subrange(0, p) + seq![x] + s.subrange(p, s.len() as int),
    decreases s.len(),
{
    if s.len() == 0 {
        assert(insert_sorted(s, x) =~= s.subrange(0, p) + seq![x] + s.subrange(p, s.len() as int));
    } else if p == 0 {
        assert(insert_sorted(s, x) =~= s.subrange(0, p) + seq![x] + s.subrange(p, s.len() as int));
    } else {
        let t = s.drop_first();
        assert forall|j: int| 0 <= j < p - 1 implies !ranks_before(x, #[trigger] t[j]) by {
            assert(t[j] == s[j + 1]);
        }
        lemma_insert_sorted(t, x, p - 1);
        assert(insert_sorted(s, x) =~= s.subrange(0, p) + seq![x] + s.subrange(p, s.len() as int));
    }
}

/// The keys after an insertion are the old ones and the inserted one.
proof fn lemma_insert_sorted_elems(s: Seq<TopKey>, x: TopKey)
    ensures
        forall|y: TopKey| #[trigger] insert_sorted(s, x).contains(y) <==> (s.contains(y) || y == x),
    decreases s.len(),
{
    if s.len() > 0 && !ranks_before(x, s[0]) {
        lemma_insert_sorted_elems(s.drop_first(), x);
        assert forall|y: TopKey| #[trigger] insert_sorted(s, x).contains(y) <==> (s.contains(y) || y == x) by {
            let t = insert_sorted(s.drop_first(), x);
            assert(insert_sorted(s, x) == seq![s[0]] + t);
            if insert_sorted(s, x).contains(y) {
                let k = choose|k: int| 0 <= k < insert_sorted(s, x).len() && insert_sorted(s, x)[k] == y;
                if k > 0 {
                    assert(t[k - 1] == y);
                    assert(t.contains(y));
                    if s.drop_first().contains(y) {
                        let m = choose|m: int| 0 <= m < s.drop_first().len() && s.drop_first()[m] == y;
                        assert(s[m + 1] == y);
                    }
                } else {
                    assert(s[0] == y);
                }
            }
            if s.contains(y) {
                let m = choose|m: int| 0 <= m < s.len() && s[m] == y;
                if m == 0 {
                    assert(insert_sorted(s, x)[0] == y);
                } else {
                    assert(s.drop_first()[m - 1] == y);
                    assert(t.contains(y));
                    let k = choose|k: int| 0 <= k < t.len() && t[k] == y;
                    assert(insert_sorted(s, x)[k + 1] == y);
                }
            }
            if y == x {
                assert(t.contains(x));
                let k = choose|k: int| 0 <= k < t.len() && t[k] == x;
                assert(insert_sorted(s, x)[k + 1] == x);
            }
        }
    } else if s.len() > 0 {
        assert forall|y: TopKey| #[trigger] insert_sorted(s, x).contains(y) <==> (s.contains(y) || y == x) by {
            assert(insert_sorted(s, x) == seq![x] + s);
            if insert_sorted(s, x).contains(y) {
                let k = choose|k: int| 0 <= k < insert_sorted(s, x).len() && insert_sorted(s, x)[k] == y;
                if k > 0 {
                    assert(s[k - 1] == y);
                }
            }
            if s.contains(y) {
                let m = choose|m: int| 0 <= m < s.len() && s[m] == y;
                assert(insert_sorted(s, x)[m + 1] == y);
            }
            if y == x {
                assert(insert_sorted(s, x)[0] == x);
            }
        }
    } else {
        assert forall|y: TopKey| #[trigger] insert_sorted(s, x).contains(y) <==> (s.contains(y) || y == x) by {
            assert(insert_sorted(s, x) == seq![x]);
            if y == x {
                assert(insert_sorted(s, x)[0] == x);
            }
        }
    }
}

/// Every ranked key is one of the first `n` keys.
proof fn lemma_sort_keys_elems(keys: Seq<TopKey>, n: int)
    requires
        0 <= n <= keys.len(),
    ensures
        forall|y: TopKey| #[trigger] sort_keys(keys, n).contains(y) ==> keys.subrange(0, n).contains(y),
    decreases n,
{
    if n > 0 {
        lemma_sort_keys_elems(keys, n - 1);
        lemma_insert_sorted_elems(sort_keys(keys, n - 1), keys[n - 1]);
        assert forall|y: TopKey| #[trigger] sort_keys(keys, n).contains(y) implies keys.subrange(0, n).contains(y) by {
            if sort_keys(keys, n - 1).contains(y) {
                assert(keys.subrange(0, n - 1).contains(y));
                let sub = keys.subrange(0, n - 1);
                let m = choose|m: int| 0 <= m < sub.len() && sub[m] == y;
                assert(keys.subrange(0, n)[m] == y);
            } else {
                assert(keys.subrange(0, n)[n - 1] == y);
            }
        }
    }
}

/// Every ranked key is the key of its own client.
proof fn lemma_sorted_key_shape(st: DaemonState, s: Seq<Rule>, cs: Seq<ClientId>, j: int)
    requires
        0 <= j < sort_keys(cs.map_values(|c: ClientId| top_key(st, s, c)), cs.len() as int).len(),
    ensures
        ({
            let x = sort_keys(cs.map_values(|c: ClientId| top_key(st, s, c)), cs.len() as int)[j];
            x == top_key(st, s, x.0)
        }),
{
    let keys = cs.map_values(|c: ClientId| top_key(st, s, c));
    let sorted = sort_keys(keys, cs.len() as int);
    lemma_sort_keys_elems(keys, cs.len() as int);
    assert(sorted.contains(sorted[j]));
    assert(keys.subrange(0, cs.len() as int) =~= keys);
    let m = choose|m: int| 0 <= m < keys.len() && keys[m] == sorted[j];
    assert(keys[m] == top_key(st, s, cs[m]));
}

/// Keys in ranking order: no key ranks before an earlier one.
pub open spec fn ranked(s: Seq<TopKey>) -> bool {
    forall|i: int, j: int| 0 <= i < j < s.len() ==> !ranks_before(#[trigger] s[j], #[trigger] s[i])
}

/// Byte order is transitive.
proof fn lemma_lex_lt_trans(a: Seq<u8>, b: Seq<u8>, c: Seq<u8>, i: int)
    requires
        lex_lt(a, b, i),
        lex_lt(b, c, i),
    ensures
        lex_lt(a, c, i),
    decreases a.len() - i,
{
    if a[i] == b[i] && b[i] == c[i] {
        lemma_lex_lt_trans(a, b, c, i + 1);
    }
}

/// No byte string is below itself.
proof fn lemma_lex_lt_irrefl(a: Seq<u8>, i: int)
    ensures
        !lex_lt(a, a, i),
    decreases a.len() - i,
{
    if 0 <= i < a.len() {
        lemma_lex_lt_irrefl(a, i + 1);
    }
}

/// Ranking is a strict order: irreflexive and transitive.
proof fn lemma_ranks_order(a: TopKey, b: TopKey, c: TopKey)
    ensures
        !ranks_before(a, a),
        ranks_before(a, b) && ranks_before(b, c) ==> ranks_before(a, c),
{
    lemma_lex_lt_irrefl(a.0.mac@, 0);
    lemma_lex_lt_irrefl(b.0.mac@, 0);
    match a.0.ip {
        IpAddr::V4(x) => lemma_lex_lt_irrefl(x@, 0),
        IpAddr::V6(x) => lemma_lex_lt_irrefl(x@, 0),
    }
    if ranks_before(a, b) && ranks_before(b, c) {
        if lex_lt(a.0.mac@, b.0.mac@, 0) && lex_lt(b.0.mac@, c.0.mac@, 0) {
            lemma_lex_lt_trans(a.0.mac@, b.0.mac@, c.0.mac@, 0);
        }
        match (a.0.ip, b.0.ip, c.0.ip) {
            (IpAddr::V4(x), IpAddr::V4(y), IpAddr::V4(z)) => {
                if lex_lt(x@, y@, 0) && lex_lt(y@, z@, 0) {
                    lemma_lex_lt_trans(x@, y@, z@, 0);
                }
            },
            (IpAddr::V6(x), IpAddr::V6(y), IpAddr::V6(z)) => {
                if lex_lt(x@, y@, 0) && lex_lt(y@, z@, 0) {
                    lemma_lex_lt_trans(x@, y@, z@, 0);
                }
            },
            _ => {},
        }
    }
}

/// Inserting into ranked keys keeps them ranked.
proof fn lemma_insert_sorted_ranked(s: Seq<TopKey>, x: TopKey)
    requires
        ranked(s),
    ensures
        ranked(insert_sorted(s, x)),
    decreases s.len(),
{
    if s.len() == 0 {
        assert(insert_sorted(s, x) =~= seq![x]);
    } else if ranks_before(x, s[0]) {
        let r = insert_sorted(s, x);
        assert(r == seq![x] + s);
        assert forall|i: int, j: int| 0 <= i < j < r.len() implies !ranks_before(#[trigger] r[j], #[trigger] r[i]) by {
            if i == 0 {
                assert(r[j] == s[j - 1]);
                lemma_ranks_order(s[j - 1], x, s[0]);
                lemma_ranks_order(s[0], s[0], s[0]);
            } else {
                assert(r[j] == s[j - 1] && r[i] == s[i - 1]);
            }
        }
    } else {
        let t = s.drop_first();
        assert(ranked(t)) by {
            assert forall|i: int, j: int| 0 <= i < j < t.len() implies !ranks_before(#[trigger] t[j], #[trigger] t[i]) by {
                assert(t[j] == s[j + 1] && t[i] == s[i + 1]);
            }
        }
        lemma_insert_sorted_ranked(t, x);
        lemma_insert_sorted_elems(t, x);
        let u = insert_sorted(t, x);
        let r = insert_sorted(s, x);
        assert(r == seq![s[0]] + u);
        assert forall|i: int, j: int| 0 <= i < j < r.len() implies !ranks_before(#[trigger] r[j], #[trigger] r[i]) by {
            if i == 0 {
                assert(r[j] == u[j - 1]);
                assert(u.contains(u[j - 1]));
                if u[j - 1] != x {
                    assert(t.contains(u[j - 1]));
                    let m = choose|m: int| 0 <= m < t.len() && t[m] == u[j - 1];
                    assert(s[m + 1] == u[j - 1]);
                }
            } else {
                assert(r[j] == u[j - 1] && r[i] == u[i - 1]);
            }
        }
    }
}

/// Insertion sort ranks the keys.
proof fn lemma_sort_keys_ranked(keys: Seq<TopKey>, n: int)
    ensures
        ranked(sort_keys(keys, n)),
    decreases n,
{
    if n > 0 {
        lemma_sort_keys_ranked(keys, n - 1);
        lemma_insert_sorted_ranked(sort_keys(keys, n - 1), keys[n - 1]);
    }
}

/// The `top` ranking puts the hot band first and, within a band, higher
/// windowed values first; no client ranks before an earlier one.
pub proof fn lemma_top_ranking_sorted(st: DaemonState, params: TopParams)
    ensures
        ranked(top_ranking(st, params)),
        forall|i: int, j: int|
            0 <= i < j < top_ranking(st, params).len() ==> {
                let a = #[trigger] top_ranking(st, params)[i];
                let b = #[trigger] top_ranking(st, params)[j];
                &&& (a.2 || !b.2)
                &&& (a.2 == b.2 ==> a.1 >= b.1)
            },
{
    let sel = selected(st.live.rules.rules@, params, st.live.rules.rules@.len() as int);
    let keys = top_clients(st).map_values(|c: ClientId| top_key(st, sel, c));
    lemma_sort_keys_ranked(keys, keys.len() as int);
}

/// Executable [`lex_lt`] from the start.
fn lex_less(a: &[u8], b: &[u8]) -> (r: bool)
    requires
        a@.len() == b@.len(),
    ensures
        r == lex_lt(a@, b@, 0),
{
    let n = a.len();
    let mut i: usize = 0;
    while i < n && a[i] == b[i]
        invariant
            n == a@.len(),
            n == b@.len(),
            i <= n,
            lex_lt(a@, b@, 0) == lex_lt(a@, b@, i as int),
        decreases n - i,
    {
        i = i + 1;
    }
    if i >= n {
        false
    } else {
        a[i] < b[i]
    }
}

/// True when `a` and `b` hold the same bytes.
fn same_bytes(a: &[u8], b: &[u8]) -> (r: bool)
    requires
        a@.len() == b@.len(),
    ensures
        r == (a@ == b@),
{
    let n = a.len();
    let mut i: usize = 0;
    while i < n
        invariant
            n == a@.len(),
            n == b@.len(),
            i <= n,
            forall|j: int| 0 <= j < i ==> a@[j] == b@[j],
        decreases n - i,
    {
        if a[i] != b[i] {
            return false;
        }
        i = i + 1;
    }
    assert(a@ =~= b@);
    true
}

/// Executable [`ip_lt`].
fn ip_less(a: &IpAddr, b: &IpAddr) -> (r: bool)
    ensures
        r == ip_lt(*a, *b),
{
    match (a, b) {
        (IpAddr::V4(x), IpAddr::V4(y)) => lex_less(x, y),
        (IpAddr::V4(_), IpAddr::V6(_)) => true,
        (IpAddr::V6(_), IpAddr::V4(_)) => false,
        (IpAddr::V6(x), IpAddr::V6(y)) => lex_less(x, y),
    }
}

/// Executable [`ranks_before`].
fn ranks_before_exec(a: &TopKey, b: &TopKey) -> (r: bool)
    ensures
        r == ranks_before(*a, *b),
{
    if a.2 != b.2 {
        return a.2;
    }
    if a.1 != b.1 {
        return a.1 > b.1;
    }
    if lex_less(&a.0.mac, &b.0.mac) {
        return true;
    }
    if !same_bytes(&a.0.mac, &b.0.mac) {
        return false;
    }
    assert(a.0.mac@ =~= b.0.mac@);
    ip_less(&a.0.ip, &b.0.ip)
}

/// Insert `x` at its ranking position.
fn insert_key(v: &mut Vec<TopKey>, x: TopKey)
    ensures
        final(v)@ == insert_sorted(old(v)@, x),
{
    let n = v.len();
    let mut p: usize = 0;
    while p < n && !ranks_before_exec(&x, &v[p])
        invariant
            n == v@.len(),
            p <= n,
            forall|j: int| 0 <= j < p ==> !ranks_before(x, #[trigger] v@[j]),
        decreases n - p,
    {
        p = p + 1;
    }
    proof {
        lemma_insert_sorted(v@, x, p as int);
    }
    let ghost v0 = v@;
    v.insert(p, x);
    assert(v@ =~= v0.subrange(0, p as int) + seq![x] + v0.subrange(p as int, v0.len() as int));
}

impl DaemonState {
    /// Indices of the rules passing the `top` filters.
    fn selected_rules(&self, params: &TopParams) -> (r: Vec<usize>)
        ensures
            ({
                let sel = selected(self.live.rules.rules@, *params, self.live.rules.rules@.len() as int);
                &&& r@.len() == sel.len()
                &&& forall|k: int| 0 <= k < r@.len() ==> (#[trigger] r@[k]) < self.live.rules.rules@.len()
                    && self.live.rules.rules@[r@[k] as int] == sel[k]
            }),
    {
        let rules = &self.live.rules.rules;
        let mut out: Vec<usize> = Vec::new();
        let mut i: usize = 0;
        while i < rules.len()
            invariant
                *rules == self.live.rules.rules,
                i <= rules@.len(),
                out@.len() == selected(rules@, *params, i as int).len(),
                forall|k: int| 0 <= k < out@.len() ==> (#[trigger] out@[k]) < rules@.len() && rules@[out@[k] as int]
                    == selected(rules@, *params, i as int)[k],
            decreases rules@.len() - i,
        {
            let r = &rules[i];
            let ok_id = match &params.rule_id {
                Some(id) => r.id == *id,
                None => true,
            };
            let ok_proto = match &params.protocol {
                Some(x) => text_is(x, r.protocol.as_str()),
                None => true,
            };
            let ok_metric = match &params.metric {
                Some(m) => text_is(m, r.metric.as_str()),
                None => true,
            };
            let ghost before = selected(rules@, *params, i as int);
            if ok_id && ok_proto && ok_metric {
                out.push(i);
                proof {
                    assert(selected(rules@, *params, i + 1) == before.push(rules@[i as int]));
                }
            }
            i = i + 1;
        }
        out
    }

    /// Observations, best value and hotness of `c` under the selected rules.
    fn score_client(&self, c: &ClientId, sel: &Vec<usize>, Ghost(s): Ghost<Seq<Rule>>) -> (r: (u64, bool, Vec<ViolationWire>))
        requires
            self.wf(),
            sel@.len() == s.len(),
            forall|k: int| 0 <= k < sel@.len() ==> (#[trigger] sel@[k]) < self.live.rules.rules@.len()
                && self.live.rules.rules@[sel@[k] as int] == s[k],
        ensures
            r.0 == best_value(client_wins(*self, *c), s, s.len() as int),
            r.1 == is_hot(client_wins(*self, *c), s),
            obs_of(r.2@, client_wins(*self, *c), s),
    {
        let rules = &self.live.rules.rules;
        let win = self.windows.get(c);
        let ghost w = client_wins(*self, *c);
        let mut best: u64 = 0;
        let mut hot = false;
        let mut obs: Vec<ViolationWire> = Vec::new();
        let mut k: usize = 0;
        while k < sel.len()
            invariant
                self.wf(),
                *rules == self.live.rules.rules,
                sel@.len() == s.len(),
                forall|j: int| 0 <= j < sel@.len() ==> (#[trigger] sel@[j]) < rules@.len() && rules@[sel@[j] as int] == s[j],
                w == client_wins(*self, *c),
                match win {
                    Some(x) => self.windows@.contains_key(*c) && self.windows@[*c] == *x && x.wf(),
                    None => !self.windows@.contains_key(*c),
                },
                k <= sel@.len(),
                best == best_value(w, s, k as int),
                hot == (exists|i: int| 0 <= i < k && rule_value(w, #[trigger] s[i]) >= s[i].min_threshold),
                obs@.len() == k,
                forall|i: int| 0 <= i < k ==> {
                    &&& (#[trigger] obs@[i]).rule_id@ == s[i].id@
                    &&& obs@[i].value == rule_value(w, s[i])
                    &&& obs@[i].limit == s[i].limit
                    &&& obs@[i].action == action_wire(s[i].action)
                },
            decreases sel@.len() - k,
        {
            let r = &rules[sel[k]];
            assert(*r == s[k as int]);
            let value = match win {
                Some(x) => x.sum(r.id.as_str(), r.metric, r.window.secs()),
                None => 0,
            };
            assert(value == rule_value(w, s[k as int]));
            if value > best {
                best = value;
            }
            let ghost hot0 = hot;
            if value >= r.min_threshold {
                hot = true;
            }
            proof {
                if hot {
                    if !hot0 {
                        assert(rule_value(w, s[k as int]) >= s[k as int].min_threshold);
                    }
                } else {
                    assert forall|i: int| 0 <= i < k + 1 implies !(rule_value(w, #[trigger] s[i]) >= s[i].min_threshold) by {
                        if i < k {
                        }
                    }
                }
            }
            obs.push(ViolationWire { rule_id: r.id.clone(), value, limit: r.limit, action: action_to_wire(r.action) });
            k = k + 1;
        }
        (best, hot, obs)
    }

    /// The clients `top` ranks.
    fn top_client_list(&self) -> (r: Vec<ClientId>)
        ensures
            r@ == top_clients(*self),
    {
        let ghost s = self.windows.key_seq() + self.policies.key_seq() + self.counters.by_client.key_seq();
        let mut out: Vec<ClientId> = Vec::new();
        let n1 = self.windows.entries.len();
        let n2 = self.policies.entries.len();
        let mut i: usize = 0;
        while i < n1
            invariant
                n1 == self.windows.entries@.len(),
                n2 == self.policies.entries@.len(),
                s == self.windows.key_seq() + self.policies.key_seq() + self.counters.by_client.key_seq(),
                i <= n1,
                out@ == dedup(s, i as int),
            decreases n1 - i,
        {
            assert(s[i as int] == self.windows.entries@[i as int].0);
            push_new(&mut out, self.windows.entries[i].0);
            i = i + 1;
        }
        let mut j: usize = 0;
        while j < n2
            invariant
                n1 == self.windows.entries@.len(),
                n2 == self.policies.entries@.len(),
                s == self.windows.key_seq() + self.policies.key_seq() + self.counters.by_client.key_seq(),
                j <= n2,
                out@ == dedup(s, n1 + j),
            decreases n2 - j,
        {
            assert(s[n1 + j] == self.policies.entries@[j as int].0);
            push_new(&mut out, self.policies.entries[j].0);
            j = j + 1;
        }
        let n3 = self.counters.by_client.entries.len();
        let mut k: usize = 0;
        while k < n3
            invariant
                n1 == self.windows.entries@.len(),
                n2 == self.policies.entries@.len(),
                n3 == self.counters.by_client.entries@.len(),
                s == self.windows.key_seq() + self.policies.key_seq() + self.counters.by_client.key_seq(),
                k <= n3,
                out@ == dedup(s, n1 + n2 + k),
            decreases n3 - k,
        {
            assert(s[n1 + n2 + k] == self.counters.by_client.entries@[k as int].0);
            push_new(&mut out, self.counters.by_client.entries[k].0);
            k = k + 1;
        }
        out
    }

    /// `top`: the ranked clients — hot band first, then by value (highest
    /// first), then by MAC and IP — cut to `limit` when it is positive, each
    /// with one observation per selected rule; and one column per selected rule.
    #[verifier::rlimit(40)]
    pub fn top(&self, params: &TopParams, now: u64) -> (r: ClientsResult)
        requires
            self.wf(),
        ensures
            top_listing(*self, *params, now, r),
    {
        let sel = self.selected_rules(params);
        let ghost s = selected(self.live.rules.rules@, *params, self.live.rules.rules@.len() as int);
        let rules = &self.live.rules.rules;
        let mut columns: Vec<TopColumn> = Vec::new();
        let mut q: usize = 0;
        while q < sel.len()
            invariant
                *rules == self.live.rules.rules,
                sel@.len() == s.len(),
                forall|k: int| 0 <= k < sel@.len() ==> (#[trigger] sel@[k]) < rules@.len() && rules@[sel@[k] as int] == s[k],
                q <= sel@.len(),
                columns@.len() == q,
                forall|i: int| 0 <= i < q ==> {
                    &&& (#[trigger] columns@[i]).rule_id@ == s[i].id@
                    &&& columns@[i].window@ == s[i].window.name()
                    &&& columns@[i].limit == s[i].limit
                    &&& columns@[i].min_threshold == s[i].min_threshold
                },
            decreases sel@.len() - q,
        {
            let r = &rules[sel[q]];
            assert(*r == s[q as int]);
            columns.push(
                TopColumn {
                    rule_id: r.id.clone(),
                    window: String::from_str(r.window.as_str()),
                    limit: r.limit,
                    min_threshold: r.min_threshold,
                },
            );
            q = q + 1;
        }
        let cs = self.top_client_list();
        let ghost keys = cs@.map_values(|c: ClientId| top_key(*self, s, c));
        let mut sorted: Vec<TopKey> = Vec::new();
        let mut i: usize = 0;
        while i < cs.len()
            invariant
                self.wf(),
                sel@.len() == s.len(),
                forall|k: int| 0 <= k < sel@.len() ==> (#[trigger] sel@[k]) < self.live.rules.rules@.len()
                    && self.live.rules.rules@[sel@[k] as int] == s[k],
                keys == cs@.map_values(|c: ClientId| top_key(*self, s, c)),
                i <= cs@.len(),
                sorted@ == sort_keys(keys, i as int),
            decreases cs@.len() - i,
        {
            let c = cs[i];
            let (best, hot, _obs) = self.score_client(&c, &sel, Ghost(s));
            let key: TopKey = (c, best, hot);
            assert(key == keys[i as int]);
            insert_key(&mut sorted, key);
            i = i + 1;
        }
        let n = sorted.len();
        let k = if params.limit > 0 && params.limit < n {
            params.limit
        } else {
            n
        };
        let mut clients: Vec<ClientEntry> = Vec::new();
        let mut j: usize = 0;
        while j < k
            invariant
                self.wf(),
                sel@.len() == s.len(),
                forall|q: int| 0 <= q < sel@.len() ==> (#[trigger] sel@[q]) < self.live.rules.rules@.len()
                    && self.live.rules.rules@[sel@[q] as int] == s[q],
                n == sorted@.len(),
                keys == cs@.map_values(|c: ClientId| top_key(*self, s, c)),
                sorted@ == sort_keys(keys, cs@.len() as int),
                k <= n,
                j <= k,
                clients@.len() == j,
                forall|t: int| 0 <= t < j ==> {
                    &&& row_of(*self, sorted@[t].0, now, #[trigger] clients@[t], sorted@[t].2)
                    &&& obs_of(clients@[t].violations@, client_wins(*self, sorted@[t].0), s)
                },
            decreases k - j,
        {
            let key = sorted[j];
            let (_best, _hot, obs) = self.score_client(&key.0, &sel, Ghost(s));
            proof {
                lemma_sorted_key_shape(*self, s, cs@, j as int);
            }
            let e = self.row(key.0, now, obs, key.2);
            clients.push(e);
            j = j + 1;
        }
        ClientsResult { clients, columns }
    }
}


/// A manual-policy write for the store: the stored policy, or none to remove it.
#[derive(Debug, Clone, Copy, PartialEq, Eq)]
pub struct ManualPersist {
    /// Client.
    pub client: ClientId,
    /// Policy to store; `None` removes the client's entry.
    pub policy: Option<StoredManualPolicy>,
}

/// The stored form of a manual policy at monotonic `now` and wall clock `wall_ms`.
pub open spec fn stored_of(m: ManualPolicy, now: u64, wall_ms: u64) -> StoredManualPolicy {
    StoredManualPolicy {
        throttle: m.throttle,
        blocked: m.blocked,
        until_unix_secs: match m.until {
            Some(u) => Some(stored_until(u, now, wall_ms)),
            None => None,
        },
    }
}

/// The expiry of a request lasting `secs` seconds from `now` (ms); none for
/// a permanent one.
pub open spec fn until_of(secs: Option<u64>, now: u64) -> Option<u64> {
    match secs {
        Some(s) => Some((now + s * 1000) as u64),
        None => None,
    }
}

/// A duration that fits the clock from `now`.
pub open spec fn duration_fits(secs: Option<u64>, now: u64) -> bool {
    secs matches Some(s) ==> now + s * 1000 <= u64::MAX
}

/// A client's policy, or the empty one.
pub open spec fn policy_or_empty(st: DaemonState, c: ClientId) -> ClientPolicy {
    if st.policies@.contains_key(c) {
        st.policies@[c]
    } else {
        ClientPolicy { manual: None, auto: None }
    }
}

/// A policy's manual overlay, or the empty one.
pub open spec fn manual_or_empty(p: ClientPolicy) -> ManualPolicy {
    match p.manual {
        Some(m) => m,
        None => ManualPolicy { throttle: None, blocked: false, until: None },
    }
}

/// Only the policies may differ between `a` and `b`.
pub open spec fn same_but_policies(a: DaemonState, b: DaemonState) -> bool {
    &&& a.mode == b.mode
    &&& a.interface == b.interface
    &&& a.build == b.build
    &&& a.live == b.live
    &&& a.windows == b.windows
    &&& a.counters == b.counters
    &&& a.last_counters == b.last_counters
    &&& a.would_be == b.would_be
}

/// The outcome of setting a manual overlay on the client `r` names: an
/// error for a bad ref (nothing changes), else the client's policy keeps its
/// auto part and gets the manual overlay `set(old overlay)`, and the write
/// stores that overlay.
pub open spec fn manual_set_outcome(
    old: DaemonState,
    new: DaemonState,
    r: ClientRef,
    m: ManualPolicy,
    now: u64,
    wall_ms: u64,
    res: Result<ManualPersist, String>,
) -> bool {
    &&& same_but_policies(old, new)
    &&& match res {
        Err(msg) => client_parse(ref_text(r)) is None && msg@ == "invalid client ref: "@ + ref_text(r)
            && new.policies == old.policies,
        Ok(w) => client_parse(ref_text(r)) == Some(w.client) && new.policies@ == old.policies@.insert(
            w.client,
            ClientPolicy { manual: Some(m), auto: policy_or_empty(old, w.client).auto },
        ) && w.policy == Some(stored_of(m, now, wall_ms)),
    }
}

/// The manual overlay a `throttle` request sets on `c`.
pub open spec fn throttled(st: DaemonState, c: ClientId, p: ThrottleParams, now: u64) -> ManualPolicy {
    ManualPolicy {
        throttle: Some(
            match p.rate {
                Some(r) => r,
                None => 50,
            },
        ),
        blocked: manual_or_empty(policy_or_empty(st, c)).blocked,
        until: until_of(p.duration_secs, now),
    }
}

/// The manual overlay a `block` request sets on `c`.
pub open spec fn blocked_overlay(st: DaemonState, c: ClientId, p: BlockParams, now: u64) -> ManualPolicy {
    ManualPolicy {
        throttle: manual_or_empty(policy_or_empty(st, c)).throttle,
        blocked: true,
        until: until_of(p.duration_secs, now),
    }
}

/// The outcome of clearing one half of a client's manual overlay: an error
/// for a bad ref; nothing when the client has no overlay; else the cleared
/// overlay is kept (and stored) while its other half is set, or dropped
/// (and removed from the store) when not.
pub open spec fn manual_clear_outcome(
    old: DaemonState,
    new: DaemonState,
    r: ClientRef,
    clear_throttle: bool,
    now: u64,
    wall_ms: u64,
    res: Result<Option<ManualPersist>, String>,
) -> bool {
    &&& same_but_policies(old, new)
    &&& match res {
        Err(msg) => client_parse(ref_text(r)) is None && msg@ == "invalid client ref: "@ + ref_text(r)
            && new.policies == old.policies,
        Ok(None) => client_parse(ref_text(r)) matches Some(c) && !(old.policies@.contains_key(c)
            && old.policies@[c].manual is Some) && new.policies == old.policies,
        Ok(Some(w)) => {
            let c = w.client;
            let p = old.policies@[c];
            let m = manual_or_empty(p);
            let m2 = if clear_throttle {
                ManualPolicy { throttle: None, ..m }
            } else {
                ManualPolicy { blocked: false, ..m }
            };
            let keep = if clear_throttle {
                m.blocked
            } else {
                m.throttle is Some
            };
            &&& client_parse(ref_text(r)) == Some(c)
            &&& old.policies@.contains_key(c)
            &&& p.manual is Some
            &&& keep ==> new.policies@ == old.policies@.insert(c, ClientPolicy { manual: Some(m2), auto: p.auto })
                && w.policy == Some(stored_of(m2, now, wall_ms))
            &&& !keep ==> new.policies@ == old.policies@.insert(c, ClientPolicy { manual: None, auto: p.auto })
                && w.policy is None
        },
    }
}

impl DaemonState {
    /// Set the manual overlay `f(old overlay)` on the client `r` names.
    fn set_manual(&mut self, r: &ClientRef, throttle: Option<Option<u8>>, block: bool, secs: Option<u64>, now: u64, wall_ms: u64)
        -> (res: Result<ManualPersist, String>)
        requires
            old(self).wf(),
            duration_fits(secs, now),
        ensures
            final(self).wf(),
            same_but_policies(*old(self), *final(self)),
            match res {
                Err(msg) => client_parse(ref_text(*r)) is None && msg@ == "invalid client ref: "@ + ref_text(*r)
                    && final(self).policies == old(self).policies,
                Ok(w) => {
                    let m0 = manual_or_empty(policy_or_empty(*old(self), w.client));
                    let m = ManualPolicy {
                        throttle: match throttle {
                            Some(t) => t,
                            None => m0.throttle,
                        },
                        blocked: block || m0.blocked,
                        until: until_of(secs, now),
                    };
                    &&& client_parse(ref_text(*r)) == Some(w.client)
                    &&& final(self).policies@ == old(self).policies@.insert(
                        w.client,
                        ClientPolicy { manual: Some(m), auto: policy_or_empty(*old(self), w.client).auto },
                    )
                    &&& w.policy == Some(stored_of(m, now, wall_ms))
                },
            },
    {
        let client = match parse_ref(r) {
            Ok(c) => c,
            Err(e) => return Err(e),
        };
        let until = match secs {
            Some(s) => Some(now + s * 1000),
            None => None,
        };
        let mut entry = match self.policies.remove(&client) {
            Some(p) => p,
            None => ClientPolicy { manual: None, auto: None },
        };
        let mut manual = match entry.manual {
            Some(m) => m,
            None => ManualPolicy { throttle: None, blocked: false, until: None },
        };
        match throttle {
            Some(t) => {
                manual.throttle = t;
            },
            None => {},
        }
        if block {
            manual.blocked = true;
        }
        manual.until = until;
        entry.manual = Some(manual);
        self.policies.insert(client, entry);
        proof {
            assert(self.policies@ =~= old(self).policies@.insert(client, entry));
        }
        let stored = StoredManualPolicy::from_runtime_at(&manual, now, wall_ms);
        Ok(ManualPersist { client, policy: Some(stored) })
    }

    /// `throttle`: manual throttle at the given rate (50 when omitted) for
    /// the given duration (permanent when omitted).
    pub fn throttle(&mut self, p: &ThrottleParams, now: u64, wall_ms: u64) -> (res: Result<ManualPersist, String>)
        requires
            old(self).wf(),
            duration_fits(p.duration_secs, now),
        ensures
            final(self).wf(),
            manual_set_outcome(
                *old(self),
                *final(self),
                p.client,
                match res {
                    Ok(w) => throttled(*old(self), w.client, *p, now),
                    Err(_) => ManualPolicy { throttle: None, blocked: false, until: None },
                },
                now,
                wall_ms,
                res,
            ),
    {
        let rate = match p.rate {
            Some(r) => r,
            None => 50,
        };
        self.set_manual(&p.client, Some(Some(rate)), false, p.duration_secs, now, wall_ms)
    }

    /// `block`: manual block for the given duration (permanent when omitted).
    pub fn block(&mut self, p: &BlockParams, now: u64, wall_ms: u64) -> (res: Result<ManualPersist, String>)
        requires
            old(self).wf(),
            duration_fits(p.duration_secs, now),
        ensures
            final(self).wf(),
            manual_set_outcome(
                *old(self),
                *final(self),
                p.client,
                match res {
                    Ok(w) => blocked_overlay(*old(self), w.client, *p, now),
                    Err(_) => ManualPolicy { throttle: None, blocked: false, until: None },
                },
                now,
                wall_ms,
                res,
            ),
    {
        self.set_manual(&p.client, None, true, p.duration_secs, now, wall_ms)
    }

    /// Clear the throttle (or the block) half of a client's manual overlay.
    fn clear_manual(&mut self, r: &ClientRef, clear_throttle: bool, now: u64, wall_ms: u64) -> (res: Result<
        Option<ManualPersist>,
        String,
    >)
        requires
            old(self).wf(),
        ensures
            final(self).wf(),
            manual_clear_outcome(*old(self), *final(self), *r, clear_throttle, now, wall_ms, res),
    {
        let client = match parse_ref(r) {
            Ok(c) => c,
            Err(e) => return Err(e),
        };
        let present = match self.policies.get(&client) {
            Some(p) => p.manual.is_some(),
            None => false,
        };
        if !present {
            return Ok(None);
        }
        let mut entry = match self.policies.remove(&client) {
            Some(p) => p,
            None => ClientPolicy { manual: None, auto: None },
        };
        let mut m = match entry.manual {
            Some(m) => m,
            None => ManualPolicy { throttle: None, blocked: false, until: None },
        };
        let keep = if clear_throttle {
            m.throttle = None;
            m.blocked
        } else {
            m.blocked = false;
            m.throttle.is_some()
        };
        let out = if keep {
            entry.manual = Some(m);
            Some(StoredManualPolicy::from_runtime_at(&m, now, wall_ms))
        } else {
            entry.manual = None;
            None
        };
        self.policies.insert(client, entry);
        proof {
            assert(self.policies@ =~= old(self).policies@.insert(client, entry));
        }
        Ok(Some(ManualPersist { client, policy: out }))
    }

    /// `unthrottle`: clear the manual throttle; the overlay goes when no block is left.
    pub fn clear_manual_throttle(&mut self, r: &ClientRef, now: u64, wall_ms: u64) -> (res: Result<
        Option<ManualPersist>,
        String,
    >)
        requires
            old(self).wf(),
        ensures
            final(self).wf(),
            manual_clear_outcome(*old(self), *final(self), *r, true, now, wall_ms, res),
    {
        self.clear_manual(r, true, now, wall_ms)
    }

    /// `unblock`: clear the manual block; the overlay goes when no throttle is left.
    pub fn clear_manual_block(&mut self, r: &ClientRef, now: u64, wall_ms: u64) -> (res: Result<
        Option<ManualPersist>,
        String,
    >)
        requires
            old(self).wf(),
        ensures
            final(self).wf(),
            manual_clear_outcome(*old(self), *final(self), *r, false, now, wall_ms, res),
    {
        self.clear_manual(r, false, now, wall_ms)
    }
}


/// Nothing in the state differs.
pub open spec fn same_state(a: DaemonState, b: DaemonState) -> bool {
    same_but_policies(a, b) && a.policies == b.policies
}

/// `resp` answers `kind` with an `invalid` error carrying `msg`.
pub open spec fn is_invalid(resp: Response, kind: RequestKind, msg: Seq<char>) -> bool {
    &&& resp.kind == kind
    &&& resp.result is None
    &&& resp.error matches Some(e) && e.code@ == "invalid"@ && e.message@ == msg
}

/// `resp` answers `kind` with an empty success.
pub open spec fn is_empty_ok(resp: Response, kind: RequestKind) -> bool {
    &&& resp.kind == kind
    &&& resp.result == Some(ResultBody::Empty(EmptyResult {  }))
    &&& resp.error is None
}

/// The `top` parameters of a request: its own, else limit 10 and no filters.
pub open spec fn top_params_of(req: Request) -> TopParams {
    match req.params {
        Some(Params::Top(p)) => p,
        _ => TopParams { limit: 10, rule_id: None, protocol: None, metric: None },
    }
}

/// The durations a request asks for fit the clock from `now`.
pub open spec fn request_fits(req: Request, now: u64) -> bool {
    &&& (req.kind == RequestKind::Throttle ==> (req.params matches Some(Params::Throttle(p)) ==> duration_fits(
        p.duration_secs,
        now,
    )))
    &&& (req.kind == RequestKind::Block ==> (req.params matches Some(Params::Block(p)) ==> duration_fits(
        p.duration_secs,
        now,
    )))
}

/// The answer to a request that sets a manual overlay on the client `r`
/// names: a bad ref is refused and nothing changes; else the overlay `m`
/// is set, the write is handed back, and the answer is an empty success.
pub open spec fn set_answer(
    old: DaemonState,
    new: DaemonState,
    kind: RequestKind,
    r: ClientRef,
    m: ManualPolicy,
    now: u64,
    wall_ms: u64,
    out: (Response, Option<ManualPersist>),
) -> bool {
    match client_parse(ref_text(r)) {
        None => same_state(old, new) && out.1 is None && is_invalid(out.0, kind, "invalid client ref: "@ + ref_text(r)),
        Some(c) => out.1 matches Some(w) && w.client == c && manual_set_outcome(old, new, r, m, now, wall_ms, Ok(w))
            && is_empty_ok(out.0, kind),
    }
}

/// The answer to a request that clears half of the manual overlay of the
/// client `r` names.
pub open spec fn clear_answer(
    old: DaemonState,
    new: DaemonState,
    kind: RequestKind,
    r: ClientRef,
    clear_throttle: bool,
    now: u64,
    wall_ms: u64,
    out: (Response, Option<ManualPersist>),
) -> bool {
    match client_parse(ref_text(r)) {
        None => same_state(old, new) && out.1 is None && is_invalid(out.0, kind, "invalid client ref: "@ + ref_text(r)),
        Some(c) => manual_clear_outcome(old, new, r, clear_throttle, now, wall_ms, Ok(out.1)) && is_empty_ok(out.0, kind),
    }
}

/// The answer to `req` at monotonic `now` and wall clock `wall_ms`, and what
/// it does to the state: reads answer from the state and change nothing;
/// `throttle`/`block` set a manual overlay and `unthrottle`/`unblock` clear
/// half of one, handing back the store write; a request without the
/// parameters its kind needs is refused as invalid.
pub open spec fn dispatched(
    old: DaemonState,
    new: DaemonState,
    req: Request,
    now: u64,
    wall_ms: u64,
    out: (Response, Option<ManualPersist>),
) -> bool {
    let kind = req.kind;
    &&& out.0.kind == kind
    &&& match kind {
        RequestKind::Info => same_state(old, new) && out.1 is None && out.0.error is None && (out.0.result matches Some(
            ResultBody::Info(i),
        ) && i.version@ == old.build.version@ && i.commit@ == old.build.commit@ && i.build_time@ == old.build.build_time@ && i.mode@
            == old.mode.name() && i.interface@ == old.interface@),
        RequestKind::ListRules => same_state(old, new) && out.1 is None && out.0.error is None && (out.0.result matches Some(
            ResultBody::Rules(rr),
        ) && rr.rules@.len() == old.live.rules.rules@.len() && forall|i: int|
            0 <= i < rr.rules@.len() ==> rule_wire_of(#[trigger] rr.rules@[i], old.live.rules.rules@[i])),
        RequestKind::ListClients => same_state(old, new) && out.1 is None && out.0.error is None && (out.0.result matches Some(
            ResultBody::Clients(cr),
        ) && clients_listing(old, now, cr)),
        RequestKind::Top => same_state(old, new) && out.1 is None && out.0.error is None && (out.0.result matches Some(
            ResultBody::Clients(cr),
        ) && top_listing(old, top_params_of(req), now, cr)),
        RequestKind::Throttle => match req.params {
            Some(Params::Throttle(p)) => set_answer(
                old,
                new,
                kind,
                p.client,
                match client_parse(ref_text(p.client)) {
                    Some(c) => throttled(old, c, p, now),
                    None => ManualPolicy { throttle: None, blocked: false, until: None },
                },
                now,
                wall_ms,
                out,
            ),
            _ => same_state(old, new) && out.1 is None && is_invalid(out.0, kind, "missing throttle params"@),
        },
        RequestKind::Block => match req.params {
            Some(Params::Block(p)) => set_answer(
                old,
                new,
                kind,
                p.client,
                match client_parse(ref_text(p.client)) {
                    Some(c) => blocked_overlay(old, c, p, now),
                    None => ManualPolicy { throttle: None, blocked: false, until: None },
                },
                now,
                wall_ms,
                out,
            ),
            _ => same_state(old, new) && out.1 is None && is_invalid(out.0, kind, "missing block params"@),
        },
        RequestKind::Unthrottle => match req.params {
            Some(Params::Client(cp)) => clear_answer(old, new, kind, cp.client, true, now, wall_ms, out),
            _ => same_state(old, new) && out.1 is None && is_invalid(out.0, kind, "missing client"@),
        },
        RequestKind::Unblock => match req.params {
            Some(Params::Client(cp)) => clear_answer(old, new, kind, cp.client, false, now, wall_ms, out),
            _ => same_state(old, new) && out.1 is None && is_invalid(out.0, kind, "missing client"@),
        },
    }
}

/// A copy of `top` parameters.
fn copy_top_params(p: &TopParams) -> (r: TopParams)
    ensures
        r == *p,
{
    TopParams {
        limit: p.limit,
        rule_id: copy_opt_string(&p.rule_id),
        protocol: copy_opt_string(&p.protocol),
        metric: copy_opt_string(&p.metric),
    }
}

/// An `invalid` answer.
fn invalid_answer(kind: RequestKind, msg: &str) -> (r: (Response, Option<ManualPersist>))
    ensures
        is_invalid(r.0, kind, msg@),
        r.1 is None,
{
    (Response::err(kind, ErrorBody::invalid(msg)), None)
}

/// An empty success carrying a store write.
fn empty_answer(kind: RequestKind, w: Option<ManualPersist>) -> (r: (Response, Option<ManualPersist>))
    ensures
        is_empty_ok(r.0, kind),
        r.1 == w,
{
    (Response::ok(kind, ResultBody::Empty(EmptyResult {  })), w)
}

impl DaemonState {
    /// Answer one request at monotonic `now` and wall clock `wall_ms`;
    /// the second part is the manual-policy write the caller makes on the store.
    #[verifier::rlimit(40)]
    pub fn dispatch(&mut self, req: &Request, now: u64, wall_ms: u64) -> (out: (Response, Option<ManualPersist>))
        requires
            old(self).wf(),
            request_fits(*req, now),
        ensures
            final(self).wf(),
            dispatched(*old(self), *final(self), *req, now, wall_ms, out),
    {
        let kind = req.kind;
        match kind {
            RequestKind::Info => (Response::ok(kind, ResultBody::Info(self.info_result())), None),
            RequestKind::ListRules => (Response::ok(kind, ResultBody::Rules(self.list_rules())), None),
            RequestKind::ListClients => (Response::ok(kind, ResultBody::Clients(self.list_clients(now))), None),
            RequestKind::Top => {
                let params = match &req.params {
                    Some(Params::Top(p)) => copy_top_params(p),
                    _ => TopParams { limit: 10, rule_id: None, protocol: None, metric: None },
                };
                (Response::ok(kind, ResultBody::Clients(self.top(&params, now))), None)
            },
            RequestKind::Throttle => match &req.params {
                Some(Params::Throttle(p)) => match self.throttle(p, now, wall_ms) {
                    Ok(w) => empty_answer(kind, Some(w)),
                    Err(e) => invalid_answer(kind, e.as_str()),
                },
                _ => invalid_answer(kind, "missing throttle params"),
            },
            RequestKind::Unthrottle => match &req.params {
                Some(Params::Client(cp)) => match self.clear_manual_throttle(&cp.client, now, wall_ms) {
                    Ok(w) => empty_answer(kind, w),
                    Err(e) => invalid_answer(kind, e.as_str()),
                },
                _ => invalid_answer(kind, "missing client"),
            },
            RequestKind::Block => match &req.params {
                Some(Params::Block(p)) => match self.block(p, now, wall_ms) {
                    Ok(w) => empty_answer(kind, Some(w)),
                    Err(e) => invalid_answer(kind, e.as_str()),
                },
                _ => invalid_answer(kind, "missing block params"),
            },
            RequestKind::Unblock => match &req.params {
                Some(Params::Client(cp)) => match self.clear_manual_block(&cp.client, now, wall_ms) {
                    Ok(w) => empty_answer(kind, w),
                    Err(e) => invalid_answer(kind, e.as_str()),
                },
                _ => invalid_answer(kind, "missing client"),
            },
        }
    }
}

/// `allow` names user `n`.
pub open spec fn allow_lists(allow: Seq<String>, n: Seq<char>) -> bool {
    exists|i: int| 0 <= i < allow.len() && (#[trigger] allow[i])@ == n
}

/// Whether a connecting peer may use the socket: an empty allowlist admits
/// everyone; a peer whose credentials could not be read (`uid` none) is
/// refused; UID 0 always passes; else its user name (`name`, none when the
/// UID has no user) must be on the list.
pub fn peer_allowed(allow: &Vec<String>, uid: Option<u32>, name: Option<String>) -> (r: bool)
    ensures
        r == (allow@.len() == 0 || match uid {
            None => false,
            Some(u) => u == 0 || match name {
                Some(n) => allow_lists(allow@, n@),
                None => false,
            },
        }),
{
    if allow.len() == 0 {
        return true;
    }
    let u = match uid {
        None => {
            return false;
        },
        Some(u) => u,
    };
    if u == 0 {
        return true;
    }
    let n = match &name {
        None => {
            return false;
        },
        Some(n) => n,
    };
    let mut i: usize = 0;
    while i < allow.len()
        invariant
            i <= allow@.len(),
            uid == Some(u),
            name == Some(*n),
            forall|j: int| 0 <= j < i ==> allow@[j]@ != n@,
        decreases allow@.len() - i,
    {
        if allow[i] == *n {
            assert(allow_lists(allow@, n@));
            return true;
        }
        i = i + 1;
    }
    false
}

/// The answer to a refused peer: a `forbidden` error.
pub fn peer_refusal() -> (r: Response)
    ensures
        r.kind == RequestKind::Info,
        r.result is None,
        r.error matches Some(b) && b.code@ == "forbidden"@ && b.message@ == "peer user not in allowlist"@,
{
    Response::err(RequestKind::Info, ErrorBody::forbidden("peer user not in allowlist"))
}

/// Whether a duration fits the monotonic clock at `now`.
fn duration_ok(secs: Option<u64>, now: u64) -> (r: bool)
    ensures
        r == duration_fits(secs, now),
{
    match secs {
        None => true,
        Some(s) => s <= (u64::MAX - now) / 1000,
    }
}

/// Whether `dispatch` can take `req` at `now`: every duration it carries
/// fits the clock.
pub fn request_fits_at(req: &Request, now: u64) -> (r: bool)
    ensures
        r == request_fits(*req, now),
{
    match (&req.kind, &req.params) {
        (RequestKind::Throttle, Some(Params::Throttle(p))) => duration_ok(p.duration_secs, now),
        (RequestKind::Block, Some(Params::Block(p))) => duration_ok(p.duration_secs, now),
        _ => true,
    }
}

} // verus!
