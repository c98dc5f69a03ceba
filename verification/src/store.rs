//! Persistence: stored record types, the store traits, an in-memory store,
//! and the key layout of the Redis store.

use vstd::prelude::*;

use crate::client::{lemma_key_round_trip, client_parse, dec_number, dec_value, ClientId, ClientRefParseError};
use crate::counters::CumulativeCounters;
use crate::daemon::DaemonState;
use crate::policy::{stored_until, runtime_until, ClientPolicy, ManualPolicy, StoredManualPolicy};
use crate::rule::Metric;
use crate::text::concat3;

verus! {

/// Snapshot of one rule's sliding window.
#[derive(Debug, Clone, PartialEq, Eq)]
pub struct RuleWindowSnapshot {
    /// Rule id.
    pub rule_id: String,
    /// Metric the window tracks.
    pub metric: Metric,
    /// 60 bucket values for that metric.
    pub buckets: Vec<u64>,
    /// Cursor index.
    pub cursor: usize,
    /// Last advance unix seconds.
    pub last_advance_unix_secs: u64,
}

/// Persisted client stats.
#[derive(Debug, Clone, PartialEq, Eq)]
pub struct StoredClientStats {
    /// Cumulative counters.
    pub cumulative: CumulativeCounters,
    /// Window snapshots.
    pub windows: Vec<RuleWindowSnapshot>,
    /// Updated at.
    pub updated_unix_secs: u64,
}

/// Store error.
#[derive(Debug, Clone, PartialEq, Eq)]
pub enum StoreError {
    /// Backend failure.
    Backend(String),
}

impl StoreError {
    /// The message: `store error: ` and the backend's words.
    pub fn message(&self) -> (r: String)
        ensures
            r@ == "store error: "@ + (match self {
                StoreError::Backend(m) => m@,
            }),
    {
        match self {
            StoreError::Backend(m) => String::from_str("store error: ").concat(m.as_str()),
        }
    }
}

/// Manual policy persistence.
pub trait ManualPolicyStore {
    /// Load all policies at startup.
    fn load_all(&mut self) -> Result<Vec<(ClientId, StoredManualPolicy)>, StoreError>;

    /// Upsert one policy.
    fn put(&mut self, client: &ClientId, policy: &StoredManualPolicy) -> Result<(), StoreError>;

    /// Remove one policy.
    fn remove(&mut self, client: &ClientId) -> Result<(), StoreError>;
}

/// Client stats persistence.
pub trait ClientStatsStore {
    /// Load all stats at startup.
    fn load_all(&mut self) -> Result<Vec<(ClientId, StoredClientStats)>, StoreError>;

    /// Batch upsert.
    fn put_batch(&mut self, stats: &Vec<(ClientId, StoredClientStats)>) -> Result<(), StoreError>;
}

/// Keys are distinct.
pub open spec fn keys_unique<V>(s: Seq<(String, V)>) -> bool {
    forall|i: int, j: int| 0 <= i < j < s.len() ==> s[i].0@ != s[j].0@
}

/// What loading a list of keyed entries gives: the entries with their keys
/// parsed as clients, in order, or the error for the first key that does
/// not parse.
pub open spec fn loaded<V>(s: Seq<(String, V)>, r: Result<Vec<(ClientId, V)>, StoreError>) -> bool {
    match r {
        Ok(v) => v@.len() == s.len() && forall|i: int|
            0 <= i < s.len() ==> client_parse(s[i].0@) == Some((#[trigger] v@[i]).0) && v@[i].1 == s[i].1,
        Err(StoreError::Backend(m)) => exists|i: int|
            0 <= i < s.len() && client_parse(s[i].0@) is None && (forall|j: int|
                0 <= j < i ==> #[trigger] client_parse(s[j].0@) is Some) && m@ == "store error: "@
                + "invalid client ref: "@ + s[i].0@,
    }
}

/// Parse every key of a keyed list as a client.
fn load_entries<V: Copy>(s: &Vec<(String, V)>) -> (r: Result<Vec<(ClientId, V)>, StoreError>)
    ensures
        loaded(s@, r),
{
    let mut out: Vec<(ClientId, V)> = Vec::new();
    let mut i: usize = 0;
    while i < s.len()
        invariant
            i <= s@.len(),
            out@.len() == i,
            forall|k: int| 0 <= k < i ==> client_parse(s@[k].0@) == Some((#[trigger] out@[k]).0) && out@[k].1 == s@[k].1,
        decreases s@.len() - i,
    {
        match ClientId::parse(s[i].0.as_str()) {
            Ok(c) => out.push((c, s[i].1)),
            Err(e) => {
                let m = StoreError::Backend(e.message()).message();
                proof {
                    assert forall|j: int| 0 <= j < i implies #[trigger] client_parse(s@[j].0@) is Some by {
                        assert(client_parse(s@[j].0@) == Some(out@[j].0));
                    }
                    assert("store error: "@ + ("invalid client ref: "@ + s@[i as int].0@) =~= "store error: "@
                        + "invalid client ref: "@ + s@[i as int].0@);
                }
                return Err(StoreError::Backend(m));
            },
        }
        i = i + 1;
    }
    Ok(out)
}

/// `new` is `old` with the entry keyed `key` set to `v` (in place, or
/// appended when there was none).
pub open spec fn upserted<V>(old: Seq<(String, V)>, new: Seq<(String, V)>, key: Seq<char>, v: V) -> bool {
    if exists|i: int| 0 <= i < old.len() && old[i].0@ == key {
        &&& new.len() == old.len()
        &&& forall|j: int| 0 <= j < old.len() ==> if old[j].0@ == key {
            new[j].0@ == key && new[j].1 == v
        } else {
            new[j] == old[j]
        }
    } else {
        &&& new.len() == old.len() + 1
        &&& new.drop_last() == old
        &&& new.last().0@ == key
        &&& new.last().1 == v
    }
}

/// `new` is `old` without the entry keyed `key` (unchanged when there was none).
pub open spec fn dropped<V>(old: Seq<(String, V)>, new: Seq<(String, V)>, key: Seq<char>) -> bool {
    if exists|i: int| 0 <= i < old.len() && old[i].0@ == key {
        exists|i: int| 0 <= i < old.len() && old[i].0@ == key && new == old.remove(i)
    } else {
        new == old
    }
}

/// Set `key` to `v`, keeping keys distinct.
fn upsert<V>(s: &mut Vec<(String, V)>, key: String, v: V)
    requires
        keys_unique(old(s)@),
    ensures
        keys_unique(final(s)@),
        upserted(old(s)@, final(s)@, key@, v),
{
    let mut i: usize = 0;
    while i < s.len()
        invariant
            s@ == old(s)@,
            keys_unique(old(s)@),
            i <= s@.len(),
            forall|j: int| 0 <= j < i ==> s@[j].0@ != key@,
        decreases s@.len() - i,
    {
        if s[i].0 == key {
            let ghost s0 = s@;
            let ghost k = key@;
            let _ = s.remove(i);
            s.insert(i, (key, v));
            assert(s@ =~= s0.update(i as int, (key, v)));
            assert forall|j: int| 0 <= j < s0.len() && j != i implies s0[j].0@ != k by {
                if j < i {
                } else {
                    assert(s0[i as int].0@ == k);
                }
            }
            assert(keys_unique(s@)) by {
                assert forall|a: int, b: int| 0 <= a < b < s@.len() implies s@[a].0@ != s@[b].0@ by {
                    if a != i && b != i {
                        assert(s@[a] == s0[a] && s@[b] == s0[b]);
                    }
                }
            }
            return;
        }
        i = i + 1;
    }
    let ghost s0 = s@;
    s.push((key, v));
    assert(s@.drop_last() =~= s0);
    assert(keys_unique(s@)) by {
        assert forall|a: int, b: int| 0 <= a < b < s@.len() implies s@[a].0@ != s@[b].0@ by {
            if b == s0.len() {
                assert(s@[a] == s0[a]);
            } else {
                assert(s@[a] == s0[a] && s@[b] == s0[b]);
            }
        }
    }
}

/// Drop the entry keyed `key`, if any.
fn drop_key<V>(s: &mut Vec<(String, V)>, key: &String)
    requires
        keys_unique(old(s)@),
    ensures
        keys_unique(final(s)@),
        dropped(old(s)@, final(s)@, key@),
{
    let mut i: usize = 0;
    while i < s.len()
        invariant
            s@ == old(s)@,
            keys_unique(old(s)@),
            i <= s@.len(),
            forall|j: int| 0 <= j < i ==> s@[j].0@ != key@,
        decreases s@.len() - i,
    {
        if s[i].0 == *key {
            let ghost s0 = s@;
            let _ = s.remove(i);
            assert(s@ =~= s0.remove(i as int));
            assert(keys_unique(s@)) by {
                assert forall|a: int, b: int| 0 <= a < b < s@.len() implies s@[a].0@ != s@[b].0@ by {
                    let a0 = if a < i { a } else { a + 1 };
                    let b0 = if b < i { b } else { b + 1 };
                    assert(s@[a] == s0[a0] && s@[b] == s0[b0]);
                }
            }
            return;
        }
        i = i + 1;
    }
}

/// In-memory implementation of both store traits, keyed by client storage key.
#[derive(Debug)]
pub struct MemoryStore {
    policies: Vec<(String, StoredManualPolicy)>,
    stats: Vec<(String, StoredClientStats)>,
}

impl MemoryStore {
    #[verifier::type_invariant]
    spec fn store_wf(&self) -> bool {
        keys_unique(self.policies@) && keys_unique(self.stats@)
    }

    /// Stored policies, in insertion order.
    pub closed spec fn policy_entries(&self) -> Seq<(String, StoredManualPolicy)> {
        self.policies@
    }

    /// Stored stats, in insertion order.
    pub closed spec fn stats_entries(&self) -> Seq<(String, StoredClientStats)> {
        self.stats@
    }

    /// Empty store.
    pub fn new() -> (r: MemoryStore)
        ensures
            r.policy_entries().len() == 0,
            r.stats_entries().len() == 0,
    {
        MemoryStore { policies: Vec::new(), stats: Vec::new() }
    }
}

impl Default for MemoryStore {
    fn default() -> (r: MemoryStore)
        ensures
            r.policy_entries().len() == 0,
            r.stats_entries().len() == 0,
    {
        MemoryStore::new()
    }
}

impl MemoryStore {
    /// All stored policies, keys parsed as clients.
    pub fn load_policies(&self) -> (r: Result<Vec<(ClientId, StoredManualPolicy)>, StoreError>)
        ensures
            loaded(self.policy_entries(), r),
    {
        load_entries(&self.policies)
    }

    /// Store a client's policy.
    pub fn put_policy(&mut self, client: &ClientId, policy: &StoredManualPolicy) -> (r: Result<(), StoreError>)
        ensures
            r is Ok,
            final(self).stats_entries() == old(self).stats_entries(),
            upserted(old(self).policy_entries(), final(self).policy_entries(), client.key_text(), *policy),
    {
        proof {
            use_type_invariant(&*self);
        }
        let key = client.storage_key();
        let mut v: Vec<(String, StoredManualPolicy)> = Vec::new();
        std::mem::swap(&mut v, &mut self.policies);
        upsert(&mut v, key, *policy);
        self.policies = v;
        Ok(())
    }

    /// Remove a client's policy.
    pub fn remove_policy(&mut self, client: &ClientId) -> (r: Result<(), StoreError>)
        ensures
            r is Ok,
            final(self).stats_entries() == old(self).stats_entries(),
            dropped(old(self).policy_entries(), final(self).policy_entries(), client.key_text()),
    {
        proof {
            use_type_invariant(&*self);
        }
        let key = client.storage_key();
        let mut v: Vec<(String, StoredManualPolicy)> = Vec::new();
        std::mem::swap(&mut v, &mut self.policies);
        drop_key(&mut v, &key);
        self.policies = v;
        Ok(())
    }
}

/// A window snapshot as plain values: rule id, metric, buckets, cursor and
/// last advance.
pub open spec fn window_view(w: RuleWindowSnapshot) -> (Seq<char>, Metric, Seq<u64>, usize, u64) {
    (w.rule_id@, w.metric, w.buckets@, w.cursor, w.last_advance_unix_secs)
}

/// A stats record as plain values: cumulative counters, window snapshots and
/// update time.
pub open spec fn stats_view(s: StoredClientStats) -> (
    CumulativeCounters,
    Seq<(Seq<char>, Metric, Seq<u64>, usize, u64)>,
    u64,
) {
    (s.cumulative, s.windows@.map_values(|w: RuleWindowSnapshot| window_view(w)), s.updated_unix_secs)
}

/// Stored stats as (key text, record) pairs of plain values.
pub open spec fn stats_table(s: Seq<(String, StoredClientStats)>) -> Seq<
    (Seq<char>, (CumulativeCounters, Seq<(Seq<char>, Metric, Seq<u64>, usize, u64)>, u64)),
> {
    s.map_values(|e: (String, StoredClientStats)| (e.0@, stats_view(e.1)))
}

/// `t` with the entry keyed `k` set to `v`: in place where `k` is present,
/// appended otherwise.
pub open spec fn put_entry<V>(t: Seq<(Seq<char>, V)>, k: Seq<char>, v: V) -> Seq<(Seq<char>, V)> {
    if exists|i: int| 0 <= i < t.len() && t[i].0 == k {
        Seq::new(t.len(), |j: int| if t[j].0 == k { (k, v) } else { t[j] })
    } else {
        t.push((k, v))
    }
}

/// A stats table after writing a batch, one record per client key in
/// order (later ones win).
pub open spec fn batch_put(
    t: Seq<(Seq<char>, (CumulativeCounters, Seq<(Seq<char>, Metric, Seq<u64>, usize, u64)>, u64))>,
    b: Seq<(ClientId, StoredClientStats)>,
) -> Seq<(Seq<char>, (CumulativeCounters, Seq<(Seq<char>, Metric, Seq<u64>, usize, u64)>, u64))>
    decreases b.len(),
{
    if b.len() == 0 {
        t
    } else {
        put_entry(batch_put(t, b.drop_last()), b.last().0.key_text(), stats_view(b.last().1))
    }
}

/// An upsert of stats, seen as plain values.
proof fn lemma_upsert_table(
    old: Seq<(String, StoredClientStats)>,
    new: Seq<(String, StoredClientStats)>,
    key: Seq<char>,
    v: StoredClientStats,
)
    requires
        upserted(old, new, key, v),
    ensures
        stats_table(new) == put_entry(stats_table(old), key, stats_view(v)),
{
    let t = stats_table(old);
    let u = stats_table(new);
    let p = put_entry(t, key, stats_view(v));
    if exists|i: int| 0 <= i < old.len() && old[i].0@ == key {
        let i = choose|i: int| 0 <= i < old.len() && old[i].0@ == key;
        assert(t[i].0 == key);
        assert forall|j: int| 0 <= j < u.len() implies u[j] == p[j] by {
            assert(t[j] == (old[j].0@, stats_view(old[j].1)));
            assert(u[j] == (new[j].0@, stats_view(new[j].1)));
        }
        assert(u =~= p);
    } else {
        assert forall|i: int| 0 <= i < t.len() implies t[i].0 != key by {
            assert(t[i] == (old[i].0@, stats_view(old[i].1)));
        }
        assert forall|j: int| 0 <= j < u.len() implies u[j] == p[j] by {
            if j < old.len() {
                assert(new[j] == new.drop_last()[j]);
            }
        }
        assert(u =~= p);
    }
}

/// Exact copy of a window snapshot.
fn copy_window(w: &RuleWindowSnapshot) -> (r: RuleWindowSnapshot)
    ensures
        window_view(r) == window_view(*w),
{
    let mut b: Vec<u64> = Vec::new();
    let mut i: usize = 0;
    while i < w.buckets.len()
        invariant
            i <= w.buckets@.len(),
            b@ == w.buckets@.take(i as int),
        decreases w.buckets@.len() - i,
    {
        b.push(w.buckets[i]);
        i = i + 1;
        assert(b@ =~= w.buckets@.take(i as int));
    }
    assert(w.buckets@.take(i as int) =~= w.buckets@);
    RuleWindowSnapshot {
        rule_id: w.rule_id.clone(),
        metric: w.metric,
        buckets: b,
        cursor: w.cursor,
        last_advance_unix_secs: w.last_advance_unix_secs,
    }
}

/// Copy of one stored stats record.
fn copy_stats(s: &StoredClientStats) -> (r: StoredClientStats)
    ensures
        stats_view(r) == stats_view(*s),
{
    let mut w: Vec<RuleWindowSnapshot> = Vec::new();
    let mut i: usize = 0;
    while i < s.windows.len()
        invariant
            i <= s.windows@.len(),
            w@.map_values(|x: RuleWindowSnapshot| window_view(x)) == s.windows@.take(i as int).map_values(
                |x: RuleWindowSnapshot| window_view(x),
            ),
        decreases s.windows@.len() - i,
    {
        let c = copy_window(&s.windows[i]);
        let ghost w0 = w@;
        proof {
            assert(w0.map_values(|x: RuleWindowSnapshot| window_view(x)).len() == s.windows@.take(i as int).len());
            assert(w0.len() == i);
        }
        w.push(c);
        proof {
            let n = i as int;
            assert(w@ =~= w0.push(c));
            assert forall|k: int| 0 <= k < n + 1 implies window_view(#[trigger] w@[k]) == window_view(s.windows@[k]) by {
                if k < n {
                    assert(w@[k] == w0[k]);
                    assert(w0.map_values(|x: RuleWindowSnapshot| window_view(x))[k] == s.windows@.take(n).map_values(
                        |x: RuleWindowSnapshot| window_view(x),
                    )[k]);
                }
            }
            assert(w@.map_values(|x: RuleWindowSnapshot| window_view(x)) =~= s.windows@.take(n + 1).map_values(
                |x: RuleWindowSnapshot| window_view(x),
            ));
        }
        i = i + 1;
    }
    assert(s.windows@.take(i as int) =~= s.windows@);
    StoredClientStats { cumulative: s.cumulative, windows: w, updated_unix_secs: s.updated_unix_secs }
}

impl MemoryStore {
    /// All stored stats, keys parsed as clients.
    pub fn load_stats(&self) -> (r: Result<Vec<(ClientId, StoredClientStats)>, StoreError>)
        ensures
            match r {
                Ok(v) => v@.len() == self.stats_entries().len() && forall|i: int|
                    0 <= i < v@.len() ==> client_parse(self.stats_entries()[i].0@) == Some((#[trigger] v@[i]).0)
                        && stats_view(v@[i].1) == stats_view(self.stats_entries()[i].1),
                Err(_) => exists|i: int|
                    0 <= i < self.stats_entries().len() && client_parse(self.stats_entries()[i].0@) is None,
            },
    {
        let s = &self.stats;
        let mut out: Vec<(ClientId, StoredClientStats)> = Vec::new();
        let mut i: usize = 0;
        while i < s.len()
            invariant
                *s == self.stats,
                i <= s@.len(),
                out@.len() == i,
                forall|k: int| 0 <= k < i ==> client_parse(s@[k].0@) == Some((#[trigger] out@[k]).0)
                    && stats_view(out@[k].1) == stats_view(s@[k].1),
            decreases s@.len() - i,
        {
            match ClientId::parse(s[i].0.as_str()) {
                Ok(c) => out.push((c, copy_stats(&s[i].1))),
                Err(e) => return Err(StoreError::Backend(e.message())),
            }
            i = i + 1;
        }
        Ok(out)
    }

    /// Store a batch of stats, one record per client key (later ones win).
    pub fn put_stats_batch(&mut self, stats: &Vec<(ClientId, StoredClientStats)>) -> (r: Result<(), StoreError>)
        ensures
            r is Ok,
            final(self).policy_entries() == old(self).policy_entries(),
            stats_table(final(self).stats_entries()) == batch_put(stats_table(old(self).stats_entries()), stats@),
    {
        proof {
            use_type_invariant(&*self);
        }
        let ghost t0 = stats_table(self.stats@);
        let mut v: Vec<(String, StoredClientStats)> = Vec::new();
        std::mem::swap(&mut v, &mut self.stats);
        let mut i: usize = 0;
        while i < stats.len()
            invariant
                keys_unique(v@),
                i <= stats@.len(),
                stats_table(v@) == batch_put(t0, stats@.take(i as int)),
            decreases stats@.len() - i,
        {
            let key = stats[i].0.storage_key();
            let c = copy_stats(&stats[i].1);
            let ghost v0 = v@;
            upsert(&mut v, key, c);
            proof {
                lemma_upsert_table(v0, v@, stats@[i as int].0.key_text(), c);
                let b = stats@.take(i + 1);
                assert(b.drop_last() =~= stats@.take(i as int));
                assert(b.last() == stats@[i as int]);
            }
            i = i + 1;
        }
        assert(stats@.take(i as int) =~= stats@);
        self.stats = v;
        Ok(())
    }
}

/// Schema version stamped in Redis. Mismatch → discard all `microwaf:*` keys.
pub const SCHEMA_VERSION: u32 = 1;

/// Redis key holding the schema version.
pub const KEY_SCHEMA: &'static str = "microwaf:schema_version";

/// Prefix of manual policy keys.
pub const PREFIX_POLICY: &'static str = "microwaf:policy:manual:";

/// Prefix of stats keys.
pub const PREFIX_STATS: &'static str = "microwaf:stats:";

/// Redis key of a client's manual policy.
pub fn policy_key(client: &ClientId) -> (r: String)
    ensures
        r@ == PREFIX_POLICY@ + client.key_text(),
{
    String::from_str(PREFIX_POLICY).concat(client.storage_key().as_str())
}

/// Redis key of a client's stats.
pub fn stats_key(client: &ClientId) -> (r: String)
    ensures
        r@ == PREFIX_STATS@ + client.key_text(),
{
    String::from_str(PREFIX_STATS).concat(client.storage_key().as_str())
}

/// The client a Redis key names after `prefix`: an error when the key does
/// not start with the prefix (`bad key ...`) or the rest does not parse.
pub fn parse_client_from_key(key: &str, prefix: &str) -> (r: Result<ClientId, StoreError>)
    ensures
        !(key@.len() >= prefix@.len() && key@.subrange(0, prefix@.len() as int) == prefix@) ==> (r matches Err(
            StoreError::Backend(m),
        ) && m@ == "bad key "@ + key@),
        key@.len() >= prefix@.len() && key@.subrange(0, prefix@.len() as int) == prefix@ ==> ({
            let rest = key@.subrange(prefix@.len() as int, key@.len() as int);
            match r {
                Ok(c) => client_parse(rest) == Some(c),
                Err(StoreError::Backend(m)) => client_parse(rest) is None && m@ == "invalid client ref: "@ + rest,
            }
        }),
{
    let n = key.unicode_len();
    let p = prefix.unicode_len();
    let mut ok = p <= n;
    let mut i: usize = 0;
    while ok && i < p
        invariant
            n == key@.len(),
            p == prefix@.len(),
            i <= p,
            ok ==> p <= n,
            ok ==> forall|j: int| 0 <= j < i ==> key@[j] == prefix@[j],
            !ok ==> !(key@.len() >= prefix@.len() && key@.subrange(0, prefix@.len() as int) == prefix@),
        decreases p - i + (if ok {
            1int
        } else {
            0int
        }),
    {
        if key.get_char(i) != prefix.get_char(i) {
            assert(!(key@.subrange(0, prefix@.len() as int) == prefix@)) by {
                assert(key@.subrange(0, prefix@.len() as int)[i as int] == key@[i as int]);
            }
            ok = false;
        } else {
            i = i + 1;
        }
    }
    if !ok {
        proof {
            reveal_strlit("bad key ");
        }
        return Err(StoreError::Backend(String::from_str("bad key ").concat(key)));
    }
    assert(key@.subrange(0, prefix@.len() as int) =~= prefix@);
    let rest = key.substring_char(p, n);
    match ClientId::parse(rest) {
        Ok(c) => Ok(c),
        Err(e) => Err(StoreError::Backend(e.message())),
    }
}

/// Expiry in seconds for a key whose policy ends at `until_unix_secs`, at
/// `now_unix_secs`: the time left, at least one second.
pub fn ttl_secs(until_unix_secs: u64, now_unix_secs: u64) -> (r: u64)
    ensures
        r == (if until_unix_secs > now_unix_secs && until_unix_secs - now_unix_secs > 1 {
            until_unix_secs - now_unix_secs
        } else {
            1
        }),
{
    let left = until_unix_secs.saturating_sub(now_unix_secs);
    if left > 1 {
        left
    } else {
        1
    }
}

/// `str::parse::<u32>`: an optional `+` then at least one decimal digit,
/// with a value that fits.
pub open spec fn u32_parse(s: Seq<char>) -> Option<u32> {
    let digits = if s.len() > 0 && s[0] == '+' {
        s.subrange(1, s.len() as int)
    } else {
        s
    };
    if digits.len() == 0 {
        None
    } else {
        match dec_number(digits) {
            Some(v) => if v <= u32::MAX {
                Some(v as u32)
            } else {
                None
            },
            None => None,
        }
    }
}

/// What starting the Redis store does with the stored schema version.
#[derive(Debug, Clone, Copy, PartialEq, Eq, Structural)]
pub enum SchemaStep {
    /// No version stored: stamp ours.
    Stamp,
    /// Our version: nothing to do.
    Keep,
    /// Another version (unparsable counts as 0): discard all keys, then stamp ours.
    Reset {
        /// The version found.
        found: u32,
    },
}

/// The step for a stored schema version.
pub fn schema_step(current: Option<&str>) -> (r: SchemaStep)
    ensures
        r == (match current {
            None => SchemaStep::Stamp,
            Some(v) => {
                let found = match u32_parse(v@) {
                    Some(x) => x,
                    None => 0,
                };
                if found == SCHEMA_VERSION {
                    SchemaStep::Keep
                } else {
                    SchemaStep::Reset { found }
                }
            },
        }),
{
    match current {
        None => SchemaStep::Stamp,
        Some(v) => {
            let found = match parse_u32(v) {
                Some(x) => x,
                None => 0,
            };
            if found == SCHEMA_VERSION {
                SchemaStep::Keep
            } else {
                SchemaStep::Reset { found }
            }
        },
    }
}

/// Executable [`u32_parse`].
pub fn parse_u32(s: &str) -> (r: Option<u32>)
    ensures
        r == u32_parse(s@),
{
    let n = s.unicode_len();
    let start: usize = if n > 0 && s.get_char(0) == '+' {
        1
    } else {
        0
    };
    let ghost digits = if s@.len() > 0 && s@[0] == '+' {
        s@.subrange(1, s@.len() as int)
    } else {
        s@
    };
    assert(digits =~= s@.subrange(start as int, n as int));
    if start >= n {
        return None;
    }
    let mut v: u64 = 0;
    let mut i: usize = start;
    while i < n
        invariant
            n == s@.len(),
            start <= i <= n,
            start < n,
            digits == s@.subrange(start as int, n as int),
            digits == (if s@.len() > 0 && s@[0] == '+' {
                s@.subrange(1, s@.len() as int)
            } else {
                s@
            }),
            dec_number(s@.subrange(start as int, i as int)) == Some(v as int),
            v <= u32::MAX,
        decreases n - i,
    {
        let c = s.get_char(i);
        assert(s@.subrange(start as int, i + 1).drop_last() =~= s@.subrange(start as int, i as int));
        assert(s@.subrange(start as int, n as int)[i - start] == c);
        if !('0' <= c && c <= '9') {
            proof {
                lemma_dec_none_extends(s@.subrange(start as int, n as int), (i - start) as int);
                assert(dec_number(digits) is None);
            }
            return None;
        }
        let d = (c as u32 - 48) as u64;
        let nv = v * 10 + d;
        proof {
            let t = s@.subrange(start as int, i + 1);
            assert(t.last() == c);
            assert(dec_value(c) == Some(d as int));
            assert(dec_number(t) == Some(nv as int));
            assert(s@.subrange(start as int, n as int).subrange(0, i + 1 - start) =~= t);
        }
        if nv > 0xFFFF_FFFF {
            proof {
                lemma_dec_big_extends(s@.subrange(start as int, n as int), (i + 1 - start) as int);
                assert(dec_number(digits) matches Some(x) ==> x > u32::MAX);
            }
            return None;
        }
        v = nv;
        i = i + 1;
    }
    assert(s@.subrange(start as int, n as int) =~= digits);
    Some(v as u32)
}

/// A non-digit inside makes the whole run fail.
proof fn lemma_dec_none_extends(s: Seq<char>, k: int)
    requires
        0 <= k < s.len(),
        !('0' <= s[k] && s[k] <= '9'),
    ensures
        dec_number(s) is None,
    decreases s.len(),
{
    if k < s.len() - 1 {
        lemma_dec_none_extends(s.drop_last(), k);
    }
}

/// A prefix worth more than `u32::MAX` makes the whole run worth more
/// (or fail).
proof fn lemma_dec_big_extends(s: Seq<char>, k: int)
    requires
        0 < k <= s.len(),
        dec_number(s.subrange(0, k)) matches Some(v) && v > u32::MAX,
    ensures
        dec_number(s) matches Some(v) ==> v > u32::MAX,
    decreases s.len() - k,
{
    if k < s.len() {
        let t = s.subrange(0, k + 1);
        assert(t.drop_last() =~= s.subrange(0, k));
        if dec_number(t) is Some {
            lemma_dec_big_extends(s, k + 1);
        } else {
            lemma_dec_none_prefix(s, k + 1);
        }
    } else {
        assert(s.subrange(0, k) =~= s);
    }
}

/// A failing prefix makes the whole run fail.
proof fn lemma_dec_none_prefix(s: Seq<char>, k: int)
    requires
        0 < k <= s.len(),
        dec_number(s.subrange(0, k)) is None,
    ensures
        dec_number(s) is None,
    decreases s.len() - k,
{
    if k < s.len() {
        let t = s.subrange(0, k + 1);
        assert(t.drop_last() =~= s.subrange(0, k));
        lemma_dec_none_prefix(s, k + 1);
    } else {
        assert(s.subrange(0, k) =~= s);
    }
}

/// The stats records written for a snapshot at `now_unix_secs`: one per
/// client, with its cumulative counters and no windows.
pub fn stats_records(clients: &Vec<(ClientId, CumulativeCounters)>, now_unix_secs: u64) -> (r: Vec<
    (ClientId, StoredClientStats),
>)
    ensures
        r@.len() == clients@.len(),
        forall|i: int| 0 <= i < r@.len() ==> {
            &&& (#[trigger] r@[i]).0 == clients@[i].0
            &&& r@[i].1.cumulative == clients@[i].1
            &&& r@[i].1.windows@.len() == 0
            &&& r@[i].1.updated_unix_secs == now_unix_secs
        },
{
    let mut out: Vec<(ClientId, StoredClientStats)> = Vec::new();
    let mut i: usize = 0;
    while i < clients.len()
        invariant
            i <= clients@.len(),
            out@.len() == i,
            forall|k: int| 0 <= k < i ==> {
                &&& (#[trigger] out@[k]).0 == clients@[k].0
                &&& out@[k].1.cumulative == clients@[k].1
                &&& out@[k].1.windows@.len() == 0
                &&& out@[k].1.updated_unix_secs == now_unix_secs
            },
        decreases clients@.len() - i,
    {
        let (c, s) = clients[i];
        out.push((c, StoredClientStats { cumulative: s, windows: Vec::new(), updated_unix_secs: now_unix_secs }));
        i = i + 1;
    }
    out
}

impl DaemonState {
    /// Restore manual policies read from the store (read once at startup),
    /// with the monotonic clock at `now` and the wall clock at `wall_ms`:
    /// each client gets the stored overlay and no auto policy.
    pub fn hydrate(&mut self, stored: &Vec<(ClientId, StoredManualPolicy)>, now: u64, wall_ms: u64)
        requires
            old(self).wf(),
        ensures
            final(self).wf(),
            final(self).mode == old(self).mode,
            final(self).interface == old(self).interface,
            final(self).live == old(self).live,
            final(self).windows == old(self).windows,
            final(self).counters == old(self).counters,
            final(self).last_counters == old(self).last_counters,
            final(self).would_be == old(self).would_be,
            forall|c: ClientId| #[trigger] final(self).policies@.contains_key(c) <==> (old(self).policies@.contains_key(c)
                || exists|i: int| 0 <= i < stored@.len() && stored@[i].0 == c),
            forall|i: int| 0 <= i < stored@.len() && (forall|j: int| i < j < stored@.len() ==> stored@[j].0 != stored@[i].0) ==> {
                let p = #[trigger] final(self).policies@[stored@[i].0];
                let s = stored@[i].1;
                &&& p.auto is None
                &&& p.manual == Some(
                    ManualPolicy {
                        throttle: s.throttle,
                        blocked: s.blocked,
                        until: match s.until_unix_secs {
                            Some(secs) => Some(runtime_until(secs, now, wall_ms)),
                            None => None,
                        },
                    },
                )
            },
    {
        let mut i: usize = 0;
        while i < stored.len()
            invariant
                self.wf(),
                self.mode == old(self).mode,
                self.interface == old(self).interface,
                self.live == old(self).live,
                self.windows == old(self).windows,
                self.counters == old(self).counters,
                self.last_counters == old(self).last_counters,
                self.would_be == old(self).would_be,
                i <= stored@.len(),
                forall|c: ClientId| #[trigger] self.policies@.contains_key(c) <==> (old(self).policies@.contains_key(c)
                    || exists|k: int| 0 <= k < i && stored@[k].0 == c),
                forall|k: int| 0 <= k < i && (forall|j: int| k < j < i ==> stored@[j].0 != stored@[k].0) ==> {
                    let p = #[trigger] self.policies@[stored@[k].0];
                    let s = stored@[k].1;
                    &&& p.auto is None
                    &&& p.manual == Some(
                        ManualPolicy {
                            throttle: s.throttle,
                            blocked: s.blocked,
                            until: match s.until_unix_secs {
                                Some(secs) => Some(runtime_until(secs, now, wall_ms)),
                                None => None,
                            },
                        },
                    )
                },
            decreases stored@.len() - i,
        {
            let (c, sp) = stored[i];
            let m = sp.to_runtime_at(now, wall_ms);
            self.policies.insert(c, ClientPolicy { manual: Some(m), auto: None });
            proof {
                assert forall|d: ClientId| #[trigger] self.policies@.contains_key(d) <==> (old(self).policies@.contains_key(d)
                    || exists|k: int| 0 <= k < i + 1 && stored@[k].0 == d) by {
                    if d == c {
                        assert(stored@[i as int].0 == d);
                    }
                }
            }
            i = i + 1;
        }
    }
}

/// What a store write of client `c` puts, a load gives back: when every key
/// stored before reads as a client, loading after the write succeeds and
/// holds `c` with the written value.
pub proof fn lemma_put_then_load<V>(
    old: Seq<(String, V)>,
    new: Seq<(String, V)>,
    c: ClientId,
    v: V,
    r: Result<Vec<(ClientId, V)>, StoreError>,
)
    requires
        forall|i: int| 0 <= i < old.len() ==> #[trigger] client_parse(old[i].0@) is Some,
        upserted(old, new, c.key_text(), v),
        loaded(new, r),
    ensures
        r is Ok,
        exists|i: int| 0 <= i < r->Ok_0@.len() && r->Ok_0@[i] == (c, v),
{
    lemma_key_round_trip(c);
    let key = c.key_text();
    assert forall|i: int| 0 <= i < new.len() implies #[trigger] client_parse(new[i].0@) is Some by {
        if exists|k: int| 0 <= k < old.len() && old[k].0@ == key {
            if old[i].0@ != key {
                assert(new[i] == old[i]);
            }
        } else {
            if i < old.len() {
                assert(new[i] == new.drop_last()[i]);
            }
        }
    }
    let w = if exists|k: int| 0 <= k < old.len() && old[k].0@ == key {
        choose|k: int| 0 <= k < old.len() && old[k].0@ == key
    } else {
        new.len() - 1
    };
    assert(new[w].0@ == key && new[w].1 == v);
    match r {
        Ok(out) => {
            assert(client_parse(new[w].0@) == Some(out@[w].0));
            assert(out@[w] == (c, v));
        },
        Err(StoreError::Backend(m)) => {
            let i = choose|i: int|
                0 <= i < new.len() && client_parse(new[i].0@) is None && (forall|j: int|
                    0 <= j < i ==> #[trigger] client_parse(new[j].0@) is Some) && m@ == "store error: "@
                    + "invalid client ref: "@ + new[i].0@;
            assert(client_parse(new[i].0@) is Some);
        },
    }
}

} // verus!
