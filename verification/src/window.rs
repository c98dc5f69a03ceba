//! Sliding windows per (client, rule): sixty one-second buckets.
//!
//! Time is a monotonic clock reading in milliseconds.

use vstd::prelude::*;

use crate::assoc::{assoc_map, keys_distinct, lemma_assoc_contains, lemma_assoc_push, lemma_assoc_update, lemma_assoc_value};
use crate::rule::Metric;

verus! {

/// Number of one-second buckets in a window.
pub const WINDOW_SECS: usize = 60;

/// Milliseconds in one second.
pub const MS_PER_SEC: u64 = 1000;

/// `x` saturated into the `u64` range (for `x >= 0`).
pub open spec fn sat_u64(x: int) -> u64 {
    if x > u64::MAX {
        u64::MAX
    } else {
        x as u64
    }
}

/// One 1-second bucket.
#[derive(Debug, Clone, Copy, PartialEq, Eq, Structural)]
pub struct Bucket {
    /// Requests / records / frames / lines.
    pub requests: u64,
    /// Bytes.
    pub bytes: u64,
    /// Connections / flows.
    pub connections: u64,
}

impl Bucket {
    /// The empty bucket.
    pub open spec fn zero() -> Bucket {
        Bucket { requests: 0, bytes: 0, connections: 0 }
    }

    /// The counter a metric reads.
    pub open spec fn value(self, metric: Metric) -> u64 {
        match metric {
            Metric::Requests => self.requests,
            Metric::Bytes => self.bytes,
            Metric::Connections => self.connections,
        }
    }

    /// The bucket with the counter of `metric` raised by `delta`, saturating.
    pub open spec fn plus(self, metric: Metric, delta: u64) -> Bucket {
        match metric {
            Metric::Requests => Bucket { requests: sat_u64(self.requests + delta), ..self },
            Metric::Bytes => Bucket { bytes: sat_u64(self.bytes + delta), ..self },
            Metric::Connections => Bucket { connections: sat_u64(self.connections + delta), ..self },
        }
    }

    /// Metric value.
    pub fn get(self, metric: Metric) -> (r: u64)
        ensures
            r == self.value(metric),
    {
        match metric {
            Metric::Requests => self.requests,
            Metric::Bytes => self.bytes,
            Metric::Connections => self.connections,
        }
    }

    /// Add delta for a metric (saturating).
    pub fn add(&mut self, metric: Metric, delta: u64)
        ensures
            *final(self) == old(self).plus(metric, delta),
    {
        match metric {
            Metric::Requests => self.requests = self.requests.saturating_add(delta),
            Metric::Bytes => self.bytes = self.bytes.saturating_add(delta),
            Metric::Connections => self.connections = self.connections.saturating_add(delta),
        }
    }
}

impl Default for Bucket {
    fn default() -> (r: Bucket)
        ensures
            r == Bucket::zero(),
    {
        Bucket { requests: 0, bytes: 0, connections: 0 }
    }
}

/// Abstract state of a sliding window.
pub struct WindowView {
    /// The sixty buckets.
    pub buckets: Seq<Bucket>,
    /// Index of the current bucket.
    pub cursor: int,
    /// Clock reading (ms) of the last advance.
    pub last_advance: u64,
}

/// Bucket index `i` seconds before the current one.
pub open spec fn slot(cursor: int, i: int) -> int {
    (cursor + 60 - i) % 60
}

/// Whether bucket `j` is among the `steps` buckets that follow `cursor`.
pub open spec fn passed(cursor: int, steps: int, j: int) -> bool {
    (j - cursor - 1) % 60 < steps
}

/// The buckets after the cursor moved `steps` places on from `cursor`,
/// emptying each bucket it reached.
pub open spec fn advanced_buckets(buckets: Seq<Bucket>, cursor: int, steps: int) -> Seq<Bucket> {
    Seq::new(60, |j: int| if passed(cursor, steps, j) { Bucket::zero() } else { buckets[j] })
}

/// Whole seconds from `last` to `now` (0 when the clock reads earlier).
pub open spec fn elapsed_secs(last: u64, now: u64) -> int {
    if now >= last {
        (now - last) / 1000
    } else {
        0
    }
}

/// The number of buckets a `secs` query covers (1..=60).
pub open spec fn span(secs: int) -> int {
    if secs < 1 {
        1
    } else if secs > 60 {
        60
    } else {
        secs
    }
}

/// Unsaturated sum of a metric over the `n` most recent buckets.
pub open spec fn raw_sum(buckets: Seq<Bucket>, cursor: int, metric: Metric, n: int) -> int
    decreases n,
{
    if n <= 0 {
        0
    } else {
        raw_sum(buckets, cursor, metric, n - 1) + buckets[slot(cursor, n - 1)].value(metric)
    }
}

impl WindowView {
    /// Sixty buckets and a cursor among them.
    pub open spec fn wf(self) -> bool {
        self.buckets.len() == 60 && 0 <= self.cursor < 60
    }

    /// A window with all buckets empty, started at `now`.
    pub open spec fn fresh(now: u64) -> WindowView {
        WindowView { buckets: Seq::new(60, |i: int| Bucket::zero()), cursor: 0, last_advance: now }
    }

    /// Saturated sum of `metric` over the last `span(secs)` seconds.
    pub open spec fn sum(self, metric: Metric, secs: int) -> u64 {
        sat_u64(raw_sum(self.buckets, self.cursor, metric, span(secs)))
    }

    /// The window after the clock reads `now`: every whole elapsed second (at
    /// most sixty) moves the cursor one bucket on and empties that bucket.
    pub open spec fn advance(self, now: u64) -> WindowView {
        let e = elapsed_secs(self.last_advance, now);
        if e == 0 {
            self
        } else {
            let steps = if e < 60 { e } else { 60 };
            WindowView {
                buckets: advanced_buckets(self.buckets, self.cursor, steps),
                cursor: (self.cursor + steps) % 60,
                last_advance: now,
            }
        }
    }

    /// The window after adding `delta` of `metric` at `now`.
    pub open spec fn add(self, metric: Metric, delta: u64, now: u64) -> WindowView {
        let a = self.advance(now);
        WindowView { buckets: a.buckets.update(a.cursor, a.buckets[a.cursor].plus(metric, delta)), ..a }
    }
}

/// 60×1s sliding window for one (client, rule).
#[derive(Debug, Clone)]
pub struct SlidingWindow {
    /// Buckets (always sixty).
    pub buckets: Vec<Bucket>,
    /// Current cursor.
    pub cursor: usize,
    /// Clock reading (ms) of the last advance.
    pub last_advance: u64,
}

impl View for SlidingWindow {
    type V = WindowView;

    open spec fn view(&self) -> WindowView {
        WindowView { buckets: self.buckets@, cursor: self.cursor as int, last_advance: self.last_advance }
    }
}

impl SlidingWindow {
    /// Sixty buckets and a cursor among them.
    pub open spec fn wf(&self) -> bool {
        self@.wf()
    }

    /// New window starting at `now` (ms).
    pub fn new(now: u64) -> (r: SlidingWindow)
        ensures
            r.wf(),
            r@ == WindowView::fresh(now),
    {
        let mut buckets: Vec<Bucket> = Vec::new();
        while buckets.len() < WINDOW_SECS
            invariant
                buckets.len() <= 60,
                forall|i: int| 0 <= i < buckets.len() ==> buckets@[i] == Bucket::zero(),
            decreases 60 - buckets.len(),
        {
            buckets.push(Bucket::default());
        }
        let r = SlidingWindow { buckets, cursor: 0, last_advance: now };
        assert(r@.buckets =~= WindowView::fresh(now).buckets);
        r
    }

    /// Advance empty buckets for elapsed whole seconds.
    pub fn advance(&mut self, now: u64)
        requires
            old(self).wf(),
        ensures
            final(self).wf(),
            final(self)@ == old(self)@.advance(now),
    {
        let elapsed: u64 = if now >= self.last_advance {
            (now - self.last_advance) / MS_PER_SEC
        } else {
            0
        };
        if elapsed == 0 {
            return;
        }
        let steps: usize = if elapsed < 60 { elapsed as usize } else { WINDOW_SECS };
        let ghost c0 = self.cursor as int;
        let ghost b0 = self.buckets@;
        let mut k: usize = 0;
        while k < steps
            invariant
                0 <= k <= steps <= 60,
                0 <= c0 < 60,
                b0.len() == 60,
                self.buckets@.len() == 60,
                self.cursor as int == (c0 + k) % 60,
                forall|j: int|
                    0 <= j < 60 ==> self.buckets@[j] == if passed(c0, k as int, j) {
                        Bucket::zero()
                    } else {
                        b0[j]
                    },
            decreases steps - k,
        {
            self.cursor = (self.cursor + 1) % WINDOW_SECS;
            let c = self.cursor;
            self.buckets.set(c, Bucket::default());
            k = k + 1;
            assert forall|j: int| 0 <= j < 60 implies self.buckets@[j] == if passed(c0, k as int, j) {
                Bucket::zero()
            } else {
                b0[j]
            } by {
                lemma_passed_step(c0, k as int - 1, j);
            }
        }
        self.last_advance = now;
        assert(self@.buckets =~= old(self)@.advance(now).buckets);
    }

    /// Add a delta into the current bucket.
    pub fn add(&mut self, metric: Metric, delta: u64, now: u64)
        requires
            old(self).wf(),
        ensures
            final(self).wf(),
            final(self)@ == old(self)@.add(metric, delta, now),
    {
        self.advance(now);
        let c = self.cursor;
        let mut b = self.buckets[c];
        b.add(metric, delta);
        self.buckets.set(c, b);
    }

    /// Sum metric over the last `secs` buckets (1..=60).
    pub fn sum(&self, metric: Metric, secs: usize) -> (r: u64)
        requires
            self.wf(),
        ensures
            r == self@.sum(metric, secs as int),
    {
        let n: usize = if secs < 1 {
            1
        } else if secs > WINDOW_SECS {
            WINDOW_SECS
        } else {
            secs
        };
        let mut total: u64 = 0;
        let mut i: usize = 0;
        while i < n
            invariant
                0 <= i <= n <= 60,
                n == span(secs as int),
                self.wf(),
                total == sat_u64(raw_sum(self.buckets@, self.cursor as int, metric, i as int)),
            decreases n - i,
        {
            let idx = (self.cursor + WINDOW_SECS - i) % WINDOW_SECS;
            let v = self.buckets[idx].get(metric);
            proof {
                lemma_raw_sum_nonneg(self.buckets@, self.cursor as int, metric, i as int);
            }
            total = total.saturating_add(v);
            i = i + 1;
        }
        total
    }
}


/// Windowed sum of a rule's metric in a map of windows; 0 for a rule with
/// no window.
pub open spec fn windows_sum(m: Map<Seq<char>, WindowView>, rule_id: Seq<char>, metric: Metric, secs: int) -> u64 {
    if m.contains_key(rule_id) {
        m[rule_id].sum(metric, secs)
    } else {
        0
    }
}

/// Key of a per-rule window entry.
pub open spec fn rule_key(e: (String, SlidingWindow)) -> Seq<char> {
    e.0@
}

/// Window of a per-rule window entry.
pub open spec fn rule_window(e: (String, SlidingWindow)) -> WindowView {
    e.1@
}

/// Per-rule windows for one client.
#[derive(Debug, Clone)]
pub struct RuleWindows {
    /// Lazily created windows, one per rule id.
    pub by_rule: Vec<(String, SlidingWindow)>,
}

impl View for RuleWindows {
    type V = Map<Seq<char>, WindowView>;

    open spec fn view(&self) -> Map<Seq<char>, WindowView> {
        assoc_map(self.by_rule@, |e: (String, SlidingWindow)| rule_key(e), |e: (String, SlidingWindow)| rule_window(e))
    }
}

impl RuleWindows {
    /// Rule ids are distinct and every window is well formed.
    pub open spec fn wf(&self) -> bool {
        &&& keys_distinct(self.by_rule@, |e: (String, SlidingWindow)| rule_key(e))
        &&& forall|i: int| 0 <= i < self.by_rule@.len() ==> (#[trigger] self.by_rule@[i]).1.wf()
    }

    /// Windowed sum of a rule's metric; 0 for a rule with no window yet.
    pub open spec fn spec_sum(&self, rule_id: Seq<char>, metric: Metric, secs: int) -> u64 {
        windows_sum(self@, rule_id, metric, secs)
    }

    /// No windows.
    pub fn new() -> (r: RuleWindows)
        ensures
            r.wf(),
            r@ == Map::<Seq<char>, WindowView>::empty(),
    {
        RuleWindows { by_rule: Vec::new() }
    }

    /// Index of the entry for `key`, if any.
    fn find(&self, key: &String) -> (r: Option<usize>)
        requires
            self.wf(),
        ensures
            match r {
                Some(i) => i < self.by_rule@.len() && self.by_rule@[i as int].0@ == key@,
                None => !self@.contains_key(key@),
            },
    {
        let mut i: usize = 0;
        while i < self.by_rule.len()
            invariant
                i <= self.by_rule@.len(),
                forall|j: int| 0 <= j < i ==> self.by_rule@[j].0@ != key@,
            decreases self.by_rule@.len() - i,
        {
            if self.by_rule[i].0 == *key {
                return Some(i);
            }
            i = i + 1;
        }
        proof {
            lemma_assoc_contains(self.by_rule@, |e: (String, SlidingWindow)| rule_key(e), |e: (String, SlidingWindow)| rule_window(e), key@);
        }
        None
    }

    /// Ensure a window exists for `rule_id` and add the delta to it.
    pub fn add(&mut self, rule_id: &str, metric: Metric, delta: u64, now: u64)
        requires
            old(self).wf(),
        ensures
            final(self).wf(),
            final(self)@ == old(self)@.insert(
                rule_id@,
                (if old(self)@.contains_key(rule_id@) {
                    old(self)@[rule_id@]
                } else {
                    WindowView::fresh(now)
                }).add(metric, delta, now),
            ),
    {
        let key = String::from_str(rule_id);
        let ghost kf = |e: (String, SlidingWindow)| rule_key(e);
        let ghost vf = |e: (String, SlidingWindow)| rule_window(e);
        match self.find(&key) {
            Some(i) => {
                proof {
                    lemma_assoc_value(self.by_rule@, kf, vf, i as int);
                }
                let ghost s0 = self.by_rule@;
                let mut entry = self.by_rule.remove(i);
                entry.1.add(metric, delta, now);
                self.by_rule.insert(i, entry);
                proof {
                    assert(self.by_rule@ =~= s0.update(i as int, entry));
                    lemma_assoc_update(s0, kf, vf, i as int, entry);
                }
            },
            None => {
                let mut w = SlidingWindow::new(now);
                w.add(metric, delta, now);
                let ghost s0 = self.by_rule@;
                self.by_rule.push((key, w));
                proof {
                    lemma_assoc_push(s0, kf, vf, (key, w));
                    assert forall|j: int| 0 <= j < s0.len() implies kf(s0[j]) != key@ by {
                        lemma_assoc_contains(s0, kf, vf, key@);
                    }
                }
            },
        }
    }

    /// Sum for a rule (0 if absent).
    pub fn sum(&self, rule_id: &str, metric: Metric, secs: usize) -> (r: u64)
        requires
            self.wf(),
        ensures
            r == self.spec_sum(rule_id@, metric, secs as int),
    {
        let key = String::from_str(rule_id);
        match self.find(&key) {
            Some(i) => {
                proof {
                    lemma_assoc_value(self.by_rule@, |e: (String, SlidingWindow)| rule_key(e), |e: (String, SlidingWindow)| rule_window(e), i as int);
                }
                self.by_rule[i].1.sum(metric, secs)
            },
            None => 0,
        }
    }

    /// Advance all windows.
    pub fn advance_all(&mut self, now: u64)
        requires
            old(self).wf(),
        ensures
            final(self).wf(),
            final(self)@ == old(self)@.map_values(|w: WindowView| w.advance(now)),
    {
        let ghost kf = |e: (String, SlidingWindow)| rule_key(e);
        let ghost vf = |e: (String, SlidingWindow)| rule_window(e);
        let ghost s0 = self.by_rule@;
        let mut i: usize = 0;
        while i < self.by_rule.len()
            invariant
                i <= self.by_rule@.len(),
                self.by_rule@.len() == s0.len(),
                self.wf(),
                forall|j: int| 0 <= j < s0.len() ==> (#[trigger] self.by_rule@[j]).0 == s0[j].0,
                forall|j: int| 0 <= j < i ==> (#[trigger] self.by_rule@[j]).1@ == s0[j].1@.advance(now),
                forall|j: int| i <= j < s0.len() ==> (#[trigger] self.by_rule@[j]).1@ == s0[j].1@,
            decreases s0.len() - i,
        {
            let ghost s1 = self.by_rule@;
            let ghost kf = |e: (String, SlidingWindow)| rule_key(e);
            let ghost vf = |e: (String, SlidingWindow)| rule_window(e);
            let mut entry = self.by_rule.remove(i);
            entry.1.advance(now);
            self.by_rule.insert(i, entry);
            proof {
                assert(self.by_rule@ =~= s1.update(i as int, entry));
                lemma_assoc_update(s1, kf, vf, i as int, entry);
            }
            i = i + 1;
        }
        proof {
            assert forall|k: Seq<char>| #![auto] self@.contains_key(k) <==> old(self)@.contains_key(k) by {
                lemma_assoc_contains(self.by_rule@, kf, vf, k);
                lemma_assoc_contains(s0, kf, vf, k);
                if old(self)@.contains_key(k) {
                    let j = choose|j: int| 0 <= j < s0.len() && kf(s0[j]) == k;
                    assert(kf(self.by_rule@[j]) == k);
                }
                if self@.contains_key(k) {
                    let j = choose|j: int| 0 <= j < self.by_rule@.len() && kf(self.by_rule@[j]) == k;
                    assert(kf(s0[j]) == k);
                }
            }
            assert forall|k: Seq<char>| #![auto] self@.contains_key(k) implies self@[k] == old(self)@[k].advance(now) by {
                lemma_assoc_contains(self.by_rule@, kf, vf, k);
                let j = choose|j: int| 0 <= j < self.by_rule@.len() && kf(self.by_rule@[j]) == k;
                lemma_assoc_value(self.by_rule@, kf, vf, j);
                assert(keys_distinct(s0, kf));
                lemma_assoc_value(s0, kf, vf, j);
            }
            assert(self@ =~= old(self)@.map_values(|w: WindowView| w.advance(now)));
        }
    }
}

impl Default for RuleWindows {
    fn default() -> (r: RuleWindows)
        ensures
            r.wf(),
            r@ == Map::<Seq<char>, WindowView>::empty(),
    {
        RuleWindows::new()
    }
}


/// Sums over all-empty buckets are zero.
proof fn lemma_raw_sum_zero(buckets: Seq<Bucket>, cursor: int, metric: Metric, n: int)
    requires
        forall|j: int| 0 <= j < buckets.len() ==> buckets[j] == Bucket::zero(),
        buckets.len() == 60,
        n <= 60,
    ensures
        raw_sum(buckets, cursor, metric, n) == 0,
    decreases n,
{
    if n > 0 {
        lemma_raw_sum_zero(buckets, cursor, metric, n - 1);
        assert(0 <= slot(cursor, n - 1) < 60);
    }
}

/// A fresh window counts nothing, whatever the metric or span.
pub proof fn lemma_fresh_window_is_empty(now: u64, metric: Metric, secs: int)
    ensures
        WindowView::fresh(now).sum(metric, secs) == 0,
{
    lemma_raw_sum_zero(WindowView::fresh(now).buckets, 0, metric, span(secs));
}

/// Replacing the current bucket changes every sum by the difference of its values.
proof fn lemma_raw_sum_update_cursor(buckets: Seq<Bucket>, cursor: int, metric: Metric, n: int, nb: Bucket)
    requires
        buckets.len() == 60,
        0 <= cursor < 60,
        1 <= n <= 60,
    ensures
        raw_sum(buckets.update(cursor, nb), cursor, metric, n) == raw_sum(buckets, cursor, metric, n)
            - buckets[cursor].value(metric) + nb.value(metric),
        raw_sum(buckets, cursor, metric, n) >= buckets[cursor].value(metric),
    decreases n,
{
    let nbs = buckets.update(cursor, nb);
    if n == 1 {
        assert(slot(cursor, 0) == cursor);
        assert(raw_sum(nbs, cursor, metric, 0) == 0);
        assert(raw_sum(buckets, cursor, metric, 0) == 0);
    } else {
        lemma_raw_sum_update_cursor(buckets, cursor, metric, n - 1, nb);
        let sl = slot(cursor, n - 1);
        assert(sl != cursor);
        assert(0 <= sl < 60);
        assert(nbs[sl] == buckets[sl]);
        assert(raw_sum(nbs, cursor, metric, n) == raw_sum(nbs, cursor, metric, n - 1) + nbs[sl].value(metric));
        assert(raw_sum(buckets, cursor, metric, n) == raw_sum(buckets, cursor, metric, n - 1) + buckets[sl].value(metric));
    }
}

/// Replacing the current bucket leaves the sums of other metrics alone when
/// the new bucket agrees with the old one on them.
proof fn lemma_raw_sum_update_other(buckets: Seq<Bucket>, cursor: int, metric: Metric, n: int, nb: Bucket)
    requires
        buckets.len() == 60,
        0 <= cursor < 60,
        0 <= n <= 60,
        nb.value(metric) == buckets[cursor].value(metric),
    ensures
        raw_sum(buckets.update(cursor, nb), cursor, metric, n) == raw_sum(buckets, cursor, metric, n),
    decreases n,
{
    if n > 0 {
        lemma_raw_sum_update_other(buckets, cursor, metric, n - 1, nb);
        assert(0 <= slot(cursor, n - 1) < 60);
    }
}

/// Adding `delta` of a metric at `now` raises each windowed sum of that metric
/// by `delta` (saturating), relative to the window advanced to `now`; the sums
/// of the other metrics are those of the advanced window.
pub proof fn lemma_add_accumulates(
    w: WindowView,
    metric: Metric,
    delta: u64,
    now: u64,
    other: Metric,
    secs: int,
)
    requires
        w.wf(),
    ensures
        w.add(metric, delta, now).sum(metric, secs) == sat_u64(w.advance(now).sum(metric, secs) + delta),
        other != metric ==> w.add(metric, delta, now).sum(other, secs) == w.advance(now).sum(other, secs),
{
    let a = w.advance(now);
    assert(a.wf());
    let b = a.buckets[a.cursor];
    let nb = b.plus(metric, delta);
    lemma_raw_sum_update_cursor(a.buckets, a.cursor, metric, span(secs), nb);
    lemma_raw_sum_nonneg(a.buckets, a.cursor, metric, span(secs));
    if other != metric {
        lemma_raw_sum_update_other(a.buckets, a.cursor, other, span(secs), nb);
    }
}

/// The buckets after `steps` cursor moves, read `n` seconds back, hold the
/// sums from `n - steps` seconds back before the move, and nothing newer.
proof fn lemma_raw_sum_advanced(w: WindowView, steps: int, metric: Metric, n: int)
    requires
        w.wf(),
        1 <= steps <= 60,
        0 <= n <= 60,
    ensures
        raw_sum(advanced_buckets(w.buckets, w.cursor, steps), (w.cursor + steps) % 60, metric, n)
            == if n <= steps {
            0
        } else {
            raw_sum(w.buckets, w.cursor, metric, n - steps)
        },
    decreases n,
{
    let nbs = advanced_buckets(w.buckets, w.cursor, steps);
    let nc = (w.cursor + steps) % 60;
    if n > 0 {
        lemma_raw_sum_advanced(w, steps, metric, n - 1);
        let sl = slot(nc, n - 1);
        lemma_slot_shift(w.cursor, steps, n - 1);
        assert(raw_sum(nbs, nc, metric, n) == raw_sum(nbs, nc, metric, n - 1) + nbs[sl].value(metric));
        if n - 1 < steps {
            assert(nbs[sl] == Bucket::zero());
        } else {
            assert(nbs[sl] == w.buckets[sl]);
            assert(raw_sum(w.buckets, w.cursor, metric, n - steps) == raw_sum(w.buckets, w.cursor, metric, n - 1 - steps)
                + w.buckets[sl].value(metric));
        }
    }
}

/// Advancing by `e >= 1` whole seconds slides the window: the newest
/// `min(e, 60)` seconds read empty, and a longer span reads what the shorter
/// span read before.
pub proof fn lemma_advance_slides(w: WindowView, now: u64, metric: Metric, secs: int)
    requires
        w.wf(),
        elapsed_secs(w.last_advance, now) >= 1,
    ensures
        ({
            let e = elapsed_secs(w.last_advance, now);
            let steps = if e < 60 { e } else { 60 };
            w.advance(now).sum(metric, secs) == if span(secs) <= steps {
                0
            } else {
                w.sum(metric, span(secs) - steps)
            }
        }),
{
    let e = elapsed_secs(w.last_advance, now);
    let steps = if e < 60 { e } else { 60 };
    lemma_raw_sum_advanced(w, steps, metric, span(secs));
}

/// An advance with less than a second elapsed changes nothing.
pub proof fn lemma_advance_within_second(w: WindowView, now: u64)
    requires
        elapsed_secs(w.last_advance, now) == 0,
    ensures
        w.advance(now) == w,
{
}

/// Where `i` seconds back lands after the cursor moved `steps` places.
proof fn lemma_slot_shift(c: int, steps: int, i: int)
    requires
        0 <= c < 60,
        1 <= steps <= 60,
        0 <= i < 60,
    ensures
        0 <= slot((c + steps) % 60, i) < 60,
        i < steps ==> passed(c, steps, slot((c + steps) % 60, i)),
        i >= steps ==> slot((c + steps) % 60, i) == slot(c, i - steps) && !passed(
            c,
            steps,
            slot((c + steps) % 60, i),
        ),
{
    lemma_mod60(c + steps);
    let n = (c + steps) % 60;
    lemma_mod60(n + 60 - i);
    let s = slot(n, i);
    lemma_mod60(s - c - 1);
    if i >= steps {
        lemma_mod60(c + 60 - (i - steps));
    }
}

/// Remainders by 60 on a small range, spelled out.
proof fn lemma_mod60(x: int)
    requires
        -60 <= x < 180,
    ensures
        x % 60 == if x < 0 {
            x + 60
        } else if x < 60 {
            x
        } else if x < 120 {
            x - 60
        } else {
            x - 120
        },
{
    assert(x % 60 == if x < 0 {
        x + 60
    } else if x < 60 {
        x
    } else if x < 120 {
        x - 60
    } else {
        x - 120
    }) by (nonlinear_arith)
        requires
            -60 <= x < 180,
    ;
}

/// One more cursor step: bucket `j` has been passed after `k + 1` steps
/// exactly when it had been passed after `k` steps or is the new cursor.
proof fn lemma_passed_step(c0: int, k: int, j: int)
    requires
        0 <= c0 < 60,
        0 <= k < 60,
        0 <= j < 60,
    ensures
        passed(c0, k + 1, j) <==> (passed(c0, k, j) || j == (c0 + k + 1) % 60),
{
}

/// Raw sums are non-negative and grow with the span.
pub proof fn lemma_raw_sum_nonneg(buckets: Seq<Bucket>, cursor: int, metric: Metric, n: int)
    ensures
        raw_sum(buckets, cursor, metric, n) >= 0,
    decreases n,
{
    if n > 0 {
        lemma_raw_sum_nonneg(buckets, cursor, metric, n - 1);
    }
}

} // verus!
