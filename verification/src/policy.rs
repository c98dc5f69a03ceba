//! Manual / auto policy and their merge into one effective action.
//!
//! Monotonic times are clock readings in milliseconds; wall-clock times are
//! milliseconds or seconds since the Unix epoch.

use vstd::prelude::*;

use crate::rule::{Action, RuleId, Violation, ViolationView};
use crate::window::sat_u64;

verus! {

/// Manual policy set via CLI (persisted).
#[derive(Debug, Clone, Copy, PartialEq, Eq)]
pub struct ManualPolicy {
    /// Optional drop rate.
    pub throttle: Option<u8>,
    /// Blocked flag.
    pub blocked: bool,
    /// Expiry (monotonic ms); None = permanent.
    pub until: Option<u64>,
}

impl ManualPolicy {
    /// Expired at `now`: it has an expiry and `now` has reached it.
    pub open spec fn expired(self, now: u64) -> bool {
        match self.until {
            Some(u) => now >= u,
            None => false,
        }
    }

    /// Expired?
    pub fn is_expired(&self, now: u64) -> (r: bool)
        ensures
            r == self.expired(now),
    {
        match self.until {
            Some(u) => now >= u,
            None => false,
        }
    }
}

/// Reads the wall clock: `SystemTime::now()` as milliseconds since the Unix
/// epoch (0 for a clock set before the epoch). Nothing is stated of the
/// reading: it depends on the machine's clock.
#[verifier::external_body]
pub(crate) fn wall_clock_ms() -> u64 {
    match std::time::SystemTime::now().duration_since(std::time::UNIX_EPOCH) {
        Ok(d) => d.as_millis() as u64,
        Err(_) => 0,
    }
}

/// Serializable manual policy.
#[derive(Debug, Clone, Copy, PartialEq, Eq)]
pub struct StoredManualPolicy {
    /// Drop rate.
    pub throttle: Option<u8>,
    /// Blocked.
    pub blocked: bool,
    /// Unix expiry seconds; None = permanent.
    pub until_unix_secs: Option<u64>,
}

/// The monotonic expiry for a stored Unix expiry, when the monotonic clock
/// reads `now` and the wall clock `wall_ms`: already-passed expiries map to `now`.
pub open spec fn runtime_until(secs: u64, now: u64, wall_ms: u64) -> u64 {
    let target = sat_u64(secs * 1000);
    if target > wall_ms {
        sat_u64(now + (target - wall_ms))
    } else {
        now
    }
}

/// The Unix expiry (seconds) stored for a monotonic expiry `until`.
pub open spec fn stored_until(until: u64, now: u64, wall_ms: u64) -> u64 {
    let delta = if until > now { until - now } else { 0 };
    sat_u64(wall_ms / 1000 + delta / 1000)
}

impl StoredManualPolicy {
    /// Convert to runtime policy at monotonic `now`, reading the wall clock.
    pub fn to_runtime(&self, now: u64) -> (r: ManualPolicy)
        ensures
            r.throttle == self.throttle,
            r.blocked == self.blocked,
            r.until is Some <==> self.until_unix_secs is Some,
            r.until matches Some(u) ==> u >= now,
    {
        let wall = wall_clock_ms();
        self.to_runtime_at(now, wall)
    }

    /// Convert to runtime policy when the monotonic clock reads `now` and the
    /// wall clock `wall_ms`.
    pub fn to_runtime_at(&self, now: u64, wall_ms: u64) -> (r: ManualPolicy)
        ensures
            r.throttle == self.throttle,
            r.blocked == self.blocked,
            r.until == match self.until_unix_secs {
                Some(s) => Some(runtime_until(s, now, wall_ms)),
                None => None,
            },
    {
        let until = match self.until_unix_secs {
            Some(secs) => {
                let target: u64 = if secs > u64::MAX / 1000 { u64::MAX } else { secs * 1000 };
                if target > wall_ms {
                    Some(now.saturating_add(target - wall_ms))
                } else {
                    Some(now)
                }
            },
            None => None,
        };
        ManualPolicy { throttle: self.throttle, blocked: self.blocked, until }
    }

    /// From runtime at monotonic `now`, reading the wall clock.
    pub fn from_runtime(p: &ManualPolicy, now: u64) -> (r: StoredManualPolicy)
        ensures
            r.throttle == p.throttle,
            r.blocked == p.blocked,
            r.until_unix_secs is Some <==> p.until is Some,
    {
        let wall = wall_clock_ms();
        StoredManualPolicy::from_runtime_at(p, now, wall)
    }

    /// From runtime when the monotonic clock reads `now` and the wall clock `wall_ms`.
    pub fn from_runtime_at(p: &ManualPolicy, now: u64, wall_ms: u64) -> (r: StoredManualPolicy)
        ensures
            r.throttle == p.throttle,
            r.blocked == p.blocked,
            r.until_unix_secs == match p.until {
                Some(u) => Some(stored_until(u, now, wall_ms)),
                None => None,
            },
    {
        let until_unix_secs = match p.until {
            Some(u) => {
                let delta = u.saturating_sub(now);
                Some((wall_ms / 1000).saturating_add(delta / 1000))
            },
            None => None,
        };
        StoredManualPolicy { throttle: p.throttle, blocked: p.blocked, until_unix_secs }
    }
}

/// A manual policy survives a store round trip at one instant: the throttle
/// and block flags exactly, a permanent policy stays permanent, and an expiry
/// that has not passed comes back no later than it was and less than two
/// seconds earlier (never before `now`).
pub proof fn lemma_manual_store_round_trip(p: ManualPolicy, now: u64, wall_ms: u64)
    requires
        p.until matches Some(u) ==> u >= now && u - now + wall_ms + 2000 <= u64::MAX,
    ensures
        ({
            let back = ManualPolicy {
                throttle: p.throttle,
                blocked: p.blocked,
                until: match p.until {
                    Some(u) => Some(stored_until(u, now, wall_ms)),
                    None => None,
                },
            };
            let rt = match back.until {
                Some(s) => Some(runtime_until(s, now, wall_ms)),
                None => None,
            };
            &&& rt is Some <==> p.until is Some
            &&& rt matches Some(v) ==> (v <= p.until.unwrap() && v + 2000 > p.until.unwrap() && v >= now)
        }),
{
    if let Some(u) = p.until {
        let delta = (u - now) as int;
        let s = stored_until(u, now, wall_ms);
        assert(s == wall_ms / 1000 + delta / 1000);
        assert(s * 1000 == (wall_ms / 1000) * 1000 + (delta / 1000) * 1000) by (nonlinear_arith)
            requires
                s == wall_ms / 1000 + delta / 1000,
        ;
        assert((wall_ms / 1000) * 1000 <= wall_ms && wall_ms < (wall_ms / 1000) * 1000 + 1000) by (nonlinear_arith);
        assert((delta / 1000) * 1000 <= delta && delta < (delta / 1000) * 1000 + 1000) by (nonlinear_arith)
            requires
                delta >= 0,
        ;
    }
}

/// A manual policy stored at one reading of the clocks (`now`, `wall_ms`)
/// and loaded at a later one (`later`, `later_wall_ms`, as after a restart)
/// keeps its throttle and block flags and whether it is permanent; an expiry
/// comes back never before the load and, counted from the load, no later
/// than what was left at the store minus the wall time that passed (unless
/// that is already gone) and less than two seconds earlier.
pub proof fn lemma_manual_restart_round_trip(
    p: ManualPolicy,
    now: u64,
    wall_ms: u64,
    later: u64,
    later_wall_ms: u64,
)
    requires
        wall_ms <= later_wall_ms,
        p.until matches Some(u) ==> u >= now && u - now + wall_ms + 2000 <= u64::MAX && later + (u - now)
            <= u64::MAX,
    ensures
        ({
            let back = match p.until {
                Some(u) => Some(stored_until(u, now, wall_ms)),
                None => None,
            };
            let rt = match back {
                Some(s) => Some(runtime_until(s, later, later_wall_ms)),
                None => None,
            };
            &&& rt is Some <==> p.until is Some
            &&& rt matches Some(v) ==> {
                let left = p.until.unwrap() - now - (later_wall_ms - wall_ms);
                &&& v >= later
                &&& (v == later || v - later <= left)
                &&& v - later + 2000 > left
            }
        }),
{
    if let Some(u) = p.until {
        let delta = (u - now) as int;
        let s = stored_until(u, now, wall_ms);
        assert(s == wall_ms / 1000 + delta / 1000);
        assert(s * 1000 == (wall_ms / 1000) * 1000 + (delta / 1000) * 1000) by (nonlinear_arith)
            requires
                s == wall_ms / 1000 + delta / 1000,
        ;
        assert((wall_ms / 1000) * 1000 <= wall_ms && wall_ms < (wall_ms / 1000) * 1000 + 1000) by (nonlinear_arith);
        assert((delta / 1000) * 1000 <= delta && delta < (delta / 1000) * 1000 + 1000) by (nonlinear_arith)
            requires
                delta >= 0,
        ;
    }
}

/// Auto policy from rule engine (cooldown).
#[derive(Debug, Clone, PartialEq, Eq)]
pub struct AutoPolicy {
    /// Drop rate (0 when blocking).
    pub drop_rate: u8,
    /// Blocked.
    pub blocked: bool,
    /// Causing rule.
    pub rule_id: RuleId,
    /// Cooldown expiry (monotonic ms).
    pub until: u64,
}

impl AutoPolicy {
    /// The auto policy a violated rule's action prescribes, lasting `cooldown` ms.
    pub open spec fn of_action(rule_id: RuleId, action: Action, now: u64, cooldown: u64) -> AutoPolicy {
        match action {
            Action::Block => AutoPolicy { drop_rate: 0, blocked: true, rule_id, until: (now + cooldown) as u64 },
            Action::Throttle { drop_rate } => AutoPolicy {
                drop_rate,
                blocked: false,
                rule_id,
                until: (now + cooldown) as u64,
            },
        }
    }

    /// Expired at `now`.
    pub open spec fn expired(self, now: u64) -> bool {
        now >= self.until
    }

    /// From a violation action + cooldown (ms).
    pub fn from_action(rule_id: RuleId, action: Action, now: u64, cooldown: u64) -> (r: AutoPolicy)
        requires
            now + cooldown <= u64::MAX,
        ensures
            r == AutoPolicy::of_action(rule_id, action, now, cooldown),
    {
        match action {
            Action::Block => AutoPolicy { drop_rate: 0, blocked: true, rule_id, until: now + cooldown },
            Action::Throttle { drop_rate } => AutoPolicy {
                drop_rate,
                blocked: false,
                rule_id,
                until: now + cooldown,
            },
        }
    }

    /// Expired?
    pub fn is_expired(&self, now: u64) -> (r: bool)
        ensures
            r == self.expired(now),
    {
        now >= self.until
    }
}

/// Combined per-client policy.
#[derive(Debug, Clone, PartialEq, Eq)]
pub struct ClientPolicy {
    /// Manual overlay.
    pub manual: Option<ManualPolicy>,
    /// Auto from rules.
    pub auto: Option<AutoPolicy>,
}

impl Default for ClientPolicy {
    fn default() -> (r: ClientPolicy)
        ensures
            r.manual is None,
            r.auto is None,
    {
        ClientPolicy { manual: None, auto: None }
    }
}

/// Effective enforcement action.
#[derive(Debug, Clone, Copy, PartialEq, Eq, Structural)]
pub enum EffectiveAction {
    /// Pass all.
    Pass,
    /// Drop fraction.
    Throttle {
        /// Drop rate.
        drop_rate: u8,
    },
    /// Drop all.
    Block,
}

impl EffectiveAction {
    /// Drop rate on the wire (100 for block).
    pub open spec fn rate(self) -> u8 {
        match self {
            EffectiveAction::Pass => 0,
            EffectiveAction::Throttle { drop_rate } => drop_rate,
            EffectiveAction::Block => 100,
        }
    }

    /// Wire-ish drop rate (100 for block).
    pub fn drop_rate(self) -> (r: u8)
        ensures
            r == self.rate(),
    {
        match self {
            EffectiveAction::Pass => 0,
            EffectiveAction::Throttle { drop_rate } => drop_rate,
            EffectiveAction::Block => 100,
        }
    }

    /// True if blocked.
    pub fn is_blocked(self) -> (r: bool)
        ensures
            r == (self is Block),
    {
        matches!(self, EffectiveAction::Block)
    }
}

/// The manual overlay, when present and not expired at `now`.
pub open spec fn live_manual(p: ClientPolicy, now: u64) -> Option<ManualPolicy> {
    match p.manual {
        Some(m) => if m.expired(now) { None } else { Some(m) },
        None => None,
    }
}

/// The auto policy, when present and not expired at `now`.
pub open spec fn live_auto(p: ClientPolicy, now: u64) -> Option<AutoPolicy> {
    match p.auto {
        Some(a) => if a.expired(now) { None } else { Some(a) },
        None => None,
    }
}

/// The effective action of a policy at `now`: a live block (manual or auto)
/// blocks; otherwise a live manual throttle or a live positive auto drop
/// rate throttles at the highest of the live rates; otherwise nothing.
pub open spec fn merged(p: ClientPolicy, now: u64) -> EffectiveAction {
    let m = live_manual(p, now);
    let a = live_auto(p, now);
    let auto_rate: u8 = match a {
        Some(x) => x.drop_rate,
        None => 0,
    };
    if (m matches Some(x) && x.blocked) || (a matches Some(y) && y.blocked) {
        EffectiveAction::Block
    } else {
        match m {
            Some(x) if x.throttle is Some => EffectiveAction::Throttle {
                drop_rate: if x.throttle.unwrap() >= auto_rate { x.throttle.unwrap() } else { auto_rate },
            },
            _ => if auto_rate > 0 {
                EffectiveAction::Throttle { drop_rate: auto_rate }
            } else {
                EffectiveAction::Pass
            },
        }
    }
}

/// Merge manual + auto: manual wins when present and not expired; else auto.
/// Block beats throttle. Highest drop_rate wins among throttles.
pub fn merge_policy(policy: &ClientPolicy, now: u64) -> (r: EffectiveAction)
    ensures
        r == merged(*policy, now),
{
    let manual: Option<&ManualPolicy> = match &policy.manual {
        Some(m) => if m.is_expired(now) { None } else { Some(m) },
        None => None,
    };
    let auto: Option<&AutoPolicy> = match &policy.auto {
        Some(a) => if a.is_expired(now) { None } else { Some(a) },
        None => None,
    };

    if let Some(m) = manual {
        if m.blocked {
            return EffectiveAction::Block;
        }
        if let Some(rate) = m.throttle {
            let auto_blocked = match auto {
                Some(a) => a.blocked,
                None => false,
            };
            if auto_blocked {
                return EffectiveAction::Block;
            }
            let auto_rate: u8 = match auto {
                Some(a) => a.drop_rate,
                None => 0,
            };
            return EffectiveAction::Throttle { drop_rate: if rate >= auto_rate { rate } else { auto_rate } };
        }
    }
    if let Some(a) = auto {
        if a.blocked {
            return EffectiveAction::Block;
        }
        if a.drop_rate > 0 {
            return EffectiveAction::Throttle { drop_rate: a.drop_rate };
        }
    }
    EffectiveAction::Pass
}

/// A live manual block wins over everything.
pub proof fn lemma_manual_block_wins(p: ClientPolicy, now: u64)
    requires
        p.manual matches Some(m) && m.blocked && !m.expired(now),
    ensures
        merged(p, now) == EffectiveAction::Block,
{
}

/// Block beats throttle: a live auto block blocks even under a manual throttle.
pub proof fn lemma_auto_block_beats_manual_throttle(p: ClientPolicy, now: u64)
    requires
        p.auto matches Some(a) && a.blocked && !a.expired(now),
    ensures
        merged(p, now) == EffectiveAction::Block,
{
}

/// When nothing blocks, the effective drop rate is the highest live rate, and
/// it is never below a live manual throttle or a live auto rate.
pub proof fn lemma_highest_rate_wins(p: ClientPolicy, now: u64)
    requires
        !(merged(p, now) is Block),
    ensures
        (live_manual(p, now) matches Some(m) && m.throttle is Some) ==> merged(p, now) is Throttle
            && merged(p, now).rate() >= live_manual(p, now).unwrap().throttle.unwrap(),
        live_auto(p, now) matches Some(a) ==> merged(p, now).rate() >= a.drop_rate,
        merged(p, now).rate() <= 100 || (live_manual(p, now) matches Some(m) && m.throttle matches Some(t)
            && t == merged(p, now).rate()) || (live_auto(p, now) matches Some(a) && a.drop_rate
            == merged(p, now).rate()),
{
}

/// Expired overlays act as absent ones.
pub proof fn lemma_expired_policies_are_ignored(p: ClientPolicy, now: u64)
    requires
        p.manual matches Some(m) ==> m.expired(now),
        p.auto matches Some(a) ==> a.expired(now),
    ensures
        merged(p, now) == EffectiveAction::Pass,
{
}

/// Strength of an action: a block beats every throttle; throttles compare by rate.
pub open spec fn strength(action: Action) -> int {
    match action {
        Action::Block => 256,
        Action::Throttle { drop_rate } => drop_rate as int,
    }
}

/// Index of the strongest of the first `n` violations: the earliest one of
/// greatest strength; -1 when there is none.
pub open spec fn strongest_index(v: Seq<ViolationView>, n: int) -> int
    decreases n,
{
    if n <= 0 {
        -1
    } else {
        let b = strongest_index(v, n - 1);
        if b < 0 || strength(v[n - 1].action) > strength(v[b].action) {
            n - 1
        } else {
            b
        }
    }
}

/// Helper: apply violation list → strongest auto policy. A block beats any
/// throttle, a higher drop rate beats a lower one, and among equals the
/// earliest violation wins.
pub fn strongest_auto(violations: &Vec<Violation>, now: u64, cooldown: u64) -> (r: Option<AutoPolicy>)
    requires
        now + cooldown <= u64::MAX,
    ensures
        violations@.len() == 0 <==> r is None,
        r matches Some(best) ==> exists|i: int|
            0 <= i < violations@.len() && best == AutoPolicy::of_action(
                violations@[i].rule_id,
                violations@[i].action,
                now,
                cooldown,
            ) && (forall|j: int| 0 <= j < violations@.len() ==> strength(#[trigger] violations@[j].action) <= strength(violations@[i].action))
                && (forall|j: int| 0 <= j < i ==> strength(#[trigger] violations@[j].action) < strength(violations@[i].action)),
        r matches Some(best) ==> ({
            let si = strongest_index(violations@.map_values(|v: Violation| v@), violations@.len() as int);
            &&& 0 <= si < violations@.len()
            &&& best == AutoPolicy::of_action(violations@[si].rule_id, violations@[si].action, now, cooldown)
        }),
{
    let mut best: Option<AutoPolicy> = None;
    let ghost mut bi: int = 0;
    let mut i: usize = 0;
    while i < violations.len()
        invariant
            i <= violations@.len(),
            now + cooldown <= u64::MAX,
            i == 0 <==> best is None,
            best matches Some(b) ==> 0 <= bi < i && b == AutoPolicy::of_action(
                violations@[bi].rule_id,
                violations@[bi].action,
                now,
                cooldown,
            ) && (forall|j: int| 0 <= j < i ==> strength(#[trigger] violations@[j].action) <= strength(violations@[bi].action))
                && (forall|j: int| 0 <= j < bi ==> strength(#[trigger] violations@[j].action) < strength(violations@[bi].action)),
            best matches Some(b) ==> bi == strongest_index(violations@.map_values(|v: Violation| v@), i as int),
        decreases violations@.len() - i,
    {
        let v = &violations[i];
        let ghost bi0 = bi;
        let ghost vs = violations@.map_values(|v: Violation| v@);
        assert(vs[i as int].action == violations@[i as int].action);
        assert(best matches Some(_) ==> vs[bi0].action == violations@[bi0].action);
        let cand = AutoPolicy::from_action(v.rule_id.clone(), v.action, now, cooldown);
        best = match best {
            None => {
                proof {
                    bi = i as int;
                }
                Some(cand)
            },
            Some(prev) => {
                if cand.blocked && !prev.blocked {
                    proof {
                        bi = i as int;
                    }
                    Some(cand)
                } else if prev.blocked && !cand.blocked {
                    Some(prev)
                } else if cand.drop_rate > prev.drop_rate {
                    proof {
                        bi = i as int;
                    }
                    Some(cand)
                } else {
                    Some(prev)
                }
            },
        };
        proof {
            let sp = strongest_index(vs, i as int);
            assert(strongest_index(vs, i + 1) == (if sp < 0 || strength(vs[i as int].action) > strength(vs[sp].action) {
                i as int
            } else {
                sp
            }));
        }
        i = i + 1;
    }
    best
}

} // verus!
