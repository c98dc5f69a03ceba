//! Configuration types and rule loading helpers.

use vstd::prelude::*;

use std::sync::Arc;

use crate::cel_match::{cel_compile_outcome, compile_match, CompiledMatch};
use crate::cel_syntax::cel_plain;
use crate::enforcer::Mode;
use crate::error::ConfigError;
use crate::rule::{clean_prefix, dup_before, Action, Metric, Protocol, Rule, RuleSet, Window, MAX_RULES};
use crate::text::ascii_lower;

verus! {

/// `daemon.yaml` contents.
#[derive(Debug, Clone, PartialEq)]
pub struct DaemonConfig {
    /// Run mode (startup only).
    pub mode: Mode,
    /// NIC interface (`any` = all NICs). Default when omitted: `any`.
    pub interface: Option<String>,
    /// Auto-policy cooldown seconds.
    pub cooldown_secs: u64,
    /// Stats snapshot interval seconds.
    pub stats_snapshot_secs: u64,
    /// SO_PEERCRED allowlist usernames.
    pub allow_users: Vec<String>,
}

/// Default auto-policy cooldown, in seconds.
pub const DEFAULT_COOLDOWN_SECS: u64 = 30;

/// Default stats snapshot interval, in seconds.
pub const DEFAULT_SNAPSHOT_SECS: u64 = 5;

/// The default allowlist: `root`, `bigfred`, `bigfred-wizard`.
pub fn default_allow_users() -> (r: Vec<String>)
    ensures
        r@.len() == 3,
        r@[0]@ == "root"@,
        r@[1]@ == "bigfred"@,
        r@[2]@ == "bigfred-wizard"@,
{
    let mut v: Vec<String> = Vec::new();
    v.push(String::from_str("root"));
    v.push(String::from_str("bigfred"));
    v.push(String::from_str("bigfred-wizard"));
    v
}

/// The default interface: `any`.
pub fn default_interface() -> (r: Option<String>)
    ensures
        r matches Some(s) && s@ == "any"@,
{
    Some(String::from_str("any"))
}

impl Default for DaemonConfig {
    fn default() -> (r: DaemonConfig)
        ensures
            r.mode == Mode::Enforce,
            r.interface matches Some(s) && s@ == "any"@,
            r.cooldown_secs == DEFAULT_COOLDOWN_SECS,
            r.stats_snapshot_secs == DEFAULT_SNAPSHOT_SECS,
            r.allow_users@.len() == 3,
            r.allow_users@[0]@ == "root"@,
            r.allow_users@[1]@ == "bigfred"@,
            r.allow_users@[2]@ == "bigfred-wizard"@,
    {
        DaemonConfig {
            mode: Mode::Enforce,
            interface: default_interface(),
            cooldown_secs: DEFAULT_COOLDOWN_SECS,
            stats_snapshot_secs: DEFAULT_SNAPSHOT_SECS,
            allow_users: default_allow_users(),
        }
    }
}

/// A copy of a list of strings.
pub fn copy_strings(v: &Vec<String>) -> (r: Vec<String>)
    ensures
        r@ == v@,
{
    let mut out: Vec<String> = Vec::new();
    let mut i: usize = 0;
    while i < v.len()
        invariant
            i <= v@.len(),
            out@ == v@.subrange(0, i as int),
        decreases v@.len() - i,
    {
        out.push(v[i].clone());
        i = i + 1;
    }
    assert(out@ =~= v@);
    out
}

/// A copy of an optional string.
pub fn copy_opt_string(s: &Option<String>) -> (r: Option<String>)
    ensures
        r == *s,
{
    match s {
        Some(x) => Some(x.clone()),
        None => None,
    }
}

impl DaemonConfig {
    /// Same knobs, field by field.
    pub open spec fn same_as(self, o: DaemonConfig) -> bool {
        &&& self.mode == o.mode
        &&& self.interface == o.interface
        &&& self.cooldown_secs == o.cooldown_secs
        &&& self.stats_snapshot_secs == o.stats_snapshot_secs
        &&& self.allow_users@ == o.allow_users@
    }

    /// An equal copy.
    pub fn duplicate(&self) -> (r: DaemonConfig)
        ensures
            r.same_as(*self),
    {
        let users = copy_strings(&self.allow_users);
        assert(users@ == self.allow_users@);
        DaemonConfig {
            mode: self.mode,
            interface: copy_opt_string(&self.interface),
            cooldown_secs: self.cooldown_secs,
            stats_snapshot_secs: self.stats_snapshot_secs,
            allow_users: users,
        }
    }
}

/// Named sets for CEL (`sets.yaml`): set name → string members (CIDRs, IPs,
/// paths, …), in name order.
#[derive(Debug, Clone, PartialEq, Eq)]
pub struct SetsConfig {
    /// The sets, one entry per name.
    pub sets: Vec<(String, Vec<String>)>,
}

impl Default for SetsConfig {
    fn default() -> (r: SetsConfig)
        ensures
            r.sets@.len() == 0,
    {
        SetsConfig { sets: Vec::new() }
    }
}

impl SetsConfig {
    /// An equal copy.
    pub fn duplicate(&self) -> (r: SetsConfig)
        ensures
            r.sets@.len() == self.sets@.len(),
            forall|i: int| 0 <= i < r.sets@.len() ==> (#[trigger] r.sets@[i]).0 == self.sets@[i].0
                && r.sets@[i].1@ == self.sets@[i].1@,
    {
        let mut out: Vec<(String, Vec<String>)> = Vec::new();
        let mut i: usize = 0;
        while i < self.sets.len()
            invariant
                i <= self.sets@.len(),
                out@.len() == i,
                forall|k: int| 0 <= k < i ==> (#[trigger] out@[k]).0 == self.sets@[k].0 && out@[k].1@
                    == self.sets@[k].1@,
            decreases self.sets@.len() - i,
        {
            out.push((self.sets[i].0.clone(), copy_strings(&self.sets[i].1)));
            i = i + 1;
        }
        SetsConfig { sets: out }
    }
}

/// Fully loaded live configuration.
#[derive(Debug, Clone)]
pub struct LiveConfig {
    /// Daemon knobs.
    pub daemon: DaemonConfig,
    /// Named sets.
    pub sets: SetsConfig,
    /// Compiled rules.
    pub rules: Arc<RuleSet>,
}


/// One rule as written in a rules file.
#[derive(Debug, Clone, PartialEq)]
pub struct ConfigRule {
    /// Id.
    pub id: String,
    /// Protocol.
    pub protocol: String,
    /// Ports.
    pub ports: Option<Vec<u16>>,
    /// Metric.
    pub metric: String,
    /// Window.
    pub window: String,
    /// Limit.
    pub limit: u64,
    /// Action.
    pub action: ConfigAction,
    /// Min threshold.
    pub min_threshold: u64,
    /// Optional CEL expression (`match` in the file).
    pub matcher: Option<String>,
}

/// Action as written in a rules file.
#[derive(Debug, Clone, Copy, PartialEq, Eq, Structural)]
pub enum ConfigAction {
    /// Throttle.
    Throttle {
        /// Drop rate.
        drop_rate: u8,
    },
    /// Block.
    Block,
}

impl ConfigAction {
    /// The runtime action.
    pub open spec fn to_action(self) -> Action {
        match self {
            ConfigAction::Throttle { drop_rate } => Action::Throttle { drop_rate },
            ConfigAction::Block => Action::Block,
        }
    }
}

impl From<ConfigAction> for Action {
    fn from(a: ConfigAction) -> (r: Action) {
        match a {
            ConfigAction::Throttle { drop_rate } => Action::Throttle { drop_rate },
            ConfigAction::Block => Action::Block,
        }
    }
}

impl vstd::std_specs::convert::FromSpecImpl<ConfigAction> for Action {
    open spec fn obeys_from_spec() -> bool {
        true
    }

    open spec fn from_spec(a: ConfigAction) -> Action {
        a.to_action()
    }
}

/// The ports of a rule as plain values.
pub open spec fn ports_view(p: Option<Vec<u16>>) -> Option<Seq<u16>> {
    match p {
        Some(v) => Some(v@),
        None => None,
    }
}

/// The CEL source of a rule, when it has a non-empty one.
pub open spec fn cel_source(c: ConfigRule) -> Option<Seq<char>> {
    match c.matcher {
        Some(src) => if src@.len() > 0 {
            Some(src@)
        } else {
            None
        },
        None => None,
    }
}

/// The rule a config rule describes before its expression is compiled.
pub open spec fn draft_rule(c: ConfigRule, p: Protocol, m: Metric, w: Window) -> Rule {
    Rule {
        id: c.id,
        protocol: p,
        ports: c.ports,
        metric: m,
        window: w,
        limit: c.limit,
        action: c.action.to_action(),
        min_threshold: c.min_threshold,
        matcher: None,
        match_src: c.matcher,
    }
}

/// `r` is the rule `c` compiles to: its words parsed (ignoring ASCII case),
/// its fields carried over, its non-empty expression compiled, and valid.
pub open spec fn compiled_rule(c: ConfigRule, r: Rule) -> bool {
    &&& Protocol::from_word(ascii_lower(c.protocol@)) == Some(r.protocol)
    &&& Metric::from_word(ascii_lower(c.metric@)) == Some(r.metric)
    &&& Window::from_word(ascii_lower(c.window@)) == Some(r.window)
    &&& r.id@ == c.id@
    &&& ports_view(r.ports) == ports_view(c.ports)
    &&& r.limit == c.limit
    &&& r.action == c.action.to_action()
    &&& r.min_threshold == c.min_threshold
    &&& r.match_src == c.matcher
    &&& match cel_source(c) {
        Some(src) => r.matcher matches Some(m) && m.text() == src && m.wf(),
        None => r.matcher is None,
    }
    &&& r.is_valid()
}

/// `e` is the error compiling `c` reports: the first of an unknown
/// protocol, metric or window word, an expression outside the accepted
/// language, an expression that does not compile, and a failed validation.
pub open spec fn compile_failure(c: ConfigRule, e: ConfigError) -> bool {
    let lp = ascii_lower(c.protocol@);
    let lm = ascii_lower(c.metric@);
    let lw = ascii_lower(c.window@);
    if Protocol::from_word(lp) is None {
        e matches ConfigError::InvalidValue(m) && m@ == "protocol `"@ + lp + "`"@
    } else if Metric::from_word(lm) is None {
        e matches ConfigError::InvalidValue(m) && m@ == "metric `"@ + lm + "`"@
    } else if Window::from_word(lw) is None {
        e matches ConfigError::InvalidValue(m) && m@ == "window `"@ + lw + "`"@
    } else if cel_source(c) matches Some(src) && !cel_plain(src) {
        e matches ConfigError::CelCompile(id, m) && id@ == c.id@ && m@ == "unsupported expression: "@ + cel_source(c)->0
    } else if cel_source(c) matches Some(src) && cel_compile_outcome(src) is Some {
        e matches ConfigError::CelCompile(id, m) && id@ == c.id@ && cel_compile_outcome(cel_source(c)->0) == Some(m@)
    } else {
        let d = draft_rule(
            c,
            Protocol::from_word(lp)->0,
            Metric::from_word(lm)->0,
            Window::from_word(lw)->0,
        );
        !d.is_valid() && d.is_validation_error(e)
    }
}

/// A copy of a port list.
fn copy_port_list(p: &Option<Vec<u16>>) -> (r: Option<Vec<u16>>)
    ensures
        ports_view(r) == ports_view(*p),
{
    match p {
        Some(v) => {
            let mut out: Vec<u16> = Vec::new();
            let mut i: usize = 0;
            while i < v.len()
                invariant
                    i <= v@.len(),
                    out@ == v@.subrange(0, i as int),
                decreases v@.len() - i,
            {
                out.push(v[i]);
                i = i + 1;
            }
            assert(out@ =~= v@);
            Some(out)
        },
        None => None,
    }
}

impl ConfigRule {
    /// Compile into a runtime [`Rule`].
    pub fn compile(&self) -> (r: Result<Rule, ConfigError>)
        ensures
            match r {
                Ok(rule) => compiled_rule(*self, rule),
                Err(e) => compile_failure(*self, e),
            },
    {
        let protocol = match Protocol::parse_word(self.protocol.as_str()) {
            Ok(p) => p,
            Err(e) => return Err(e),
        };
        let metric = match Metric::parse_word(self.metric.as_str()) {
            Ok(m) => m,
            Err(e) => return Err(e),
        };
        let window = match Window::parse_word(self.window.as_str()) {
            Ok(w) => w,
            Err(e) => return Err(e),
        };
        let compiled: Option<CompiledMatch> = match &self.matcher {
            Some(src) => {
                if src.as_str().unicode_len() > 0 {
                    match compile_match(src.as_str()) {
                        Ok(m) => Some(m),
                        Err(msg) => return Err(ConfigError::CelCompile(self.id.clone(), msg)),
                    }
                } else {
                    None
                }
            },
            None => None,
        };
        let rule = Rule {
            id: self.id.clone(),
            protocol,
            ports: copy_port_list(&self.ports),
            metric,
            window,
            limit: self.limit,
            action: Action::from(self.action),
            min_threshold: self.min_threshold,
            matcher: compiled,
            match_src: copy_opt_string(&self.matcher),
        };
        assert(rule.action == self.action.to_action());
        assert(rule.match_src == self.matcher);
        assert(ports_view(rule.ports) == ports_view(self.ports));
        match rule.validate() {
            Ok(()) => {
                assert(Protocol::from_word(ascii_lower(self.protocol@)) == Some(rule.protocol));
                assert(Metric::from_word(ascii_lower(self.metric@)) == Some(rule.metric));
                assert(Window::from_word(ascii_lower(self.window@)) == Some(rule.window));
                assert(rule.id@ == self.id@);
                assert(match cel_source(*self) {
                    Some(src) => rule.matcher matches Some(m) && m.text() == src && m.wf(),
                    None => rule.matcher is None,
                });
                assert(rule.is_valid());
                Ok(rule)
            },
            Err(e) => {
                proof {
                    let d = draft_rule(*self, protocol, metric, window);
                    assert(d.ports_missing() == rule.ports_missing());
                    assert(d.is_valid() == rule.is_valid());
                    assert(d.is_validation_error(e) == rule.is_validation_error(e));
                    assert(!(cel_source(*self) matches Some(src) && !cel_plain(src)));
                    assert(!(cel_source(*self) matches Some(src) && cel_compile_outcome(src) is Some));
                }
                Err(e)
            },
        }
    }
}

/// Some rule compiles from `c`.
pub open spec fn compiles(c: ConfigRule) -> bool {
    exists|r: Rule| compiled_rule(c, r)
}

/// An earlier config rule carries the id of rule `i`.
pub open spec fn id_dup_before(cs: Seq<ConfigRule>, i: int) -> bool {
    exists|j: int| 0 <= j < i && cs[j].id@ == cs[i].id@
}

/// Compile many config rules into a [`RuleSet`]: too many rules, then the
/// first rule that fails to compile, then the first repeated id.
pub fn compile_ruleset(configs: Vec<ConfigRule>) -> (r: Result<RuleSet, ConfigError>)
    ensures
        configs@.len() > MAX_RULES ==> r == Err::<RuleSet, ConfigError>(
            ConfigError::TooManyRules { count: configs@.len() as usize, max: MAX_RULES },
        ),
        configs@.len() <= MAX_RULES ==> match r {
            Ok(set) => set.wf() && set.rules@.len() == configs@.len() && forall|i: int|
                0 <= i < configs@.len() ==> compiled_rule(#[trigger] configs@[i], set.rules@[i]),
            Err(e) => (exists|i: int|
                0 <= i < configs@.len() && (forall|j: int| 0 <= j < i ==> compiles(#[trigger] configs@[j]))
                    && compile_failure(configs@[i], e)) || ((forall|i: int|
                0 <= i < configs@.len() ==> compiles(#[trigger] configs@[i])) && exists|i: int|
                0 <= i < configs@.len() && (forall|k: int| 0 <= k < i ==> !id_dup_before(configs@, k))
                    && id_dup_before(configs@, i) && (e matches ConfigError::DuplicateRuleId(d) && d@
                    == configs@[i].id@)),
        },
{
    if configs.len() > MAX_RULES {
        return Err(ConfigError::TooManyRules { count: configs.len(), max: MAX_RULES });
    }
    let mut rules: Vec<Rule> = Vec::new();
    let mut i: usize = 0;
    while i < configs.len()
        invariant
            i <= configs@.len(),
            configs@.len() <= MAX_RULES,
            rules@.len() == i,
            forall|k: int| 0 <= k < i ==> compiled_rule(#[trigger] configs@[k], rules@[k]),
        decreases configs@.len() - i,
    {
        match configs[i].compile() {
            Ok(rule) => rules.push(rule),
            Err(e) => {
                proof {
                    assert forall|j: int| 0 <= j < i implies compiles(#[trigger] configs@[j]) by {
                        assert(compiled_rule(configs@[j], rules@[j]));
                    }
                    assert(compile_failure(configs@[i as int], e));
                    assert(0 <= i < configs@.len() && (forall|j: int| 0 <= j < i ==> compiles(#[trigger] configs@[j]))
                        && compile_failure(configs@[i as int], e));
                }
                return Err(e);
            },
        }
        i = i + 1;
    }
    let ghost rs = rules@;
    match RuleSet::new(rules) {
        Ok(set) => {
            assert(set.rules@ == rs);
            assert forall|i: int| 0 <= i < configs@.len() implies compiled_rule(#[trigger] configs@[i], set.rules@[i]) by {
                assert(compiled_rule(configs@[i], rs[i]));
            }
            Ok(set)
        },
        Err(e) => {
            proof {
                assert forall|j: int| 0 <= j < configs@.len() implies compiles(#[trigger] configs@[j]) by {
                    assert(compiled_rule(configs@[j], rs[j]));
                }
                let i = choose|i: int|
                    0 <= i < rs.len() && clean_prefix(rs, i) && ((!rs[i].is_valid() && rs[i].is_validation_error(e))
                        || (rs[i].is_valid() && dup_before(rs, i) && (e matches ConfigError::DuplicateRuleId(d)
                        && d@ == rs[i].id@)));
                assert(compiled_rule(configs@[i], rs[i]));
                assert forall|k: int| 0 <= k < i implies !id_dup_before(configs@, k) by {
                    assert(!dup_before(rs, k));
                    if id_dup_before(configs@, k) {
                        let j = choose|j: int| 0 <= j < k && configs@[j].id@ == configs@[k].id@;
                        assert(compiled_rule(configs@[j], rs[j]));
                        assert(compiled_rule(configs@[k], rs[k]));
                        assert(rs[j].id@ == rs[k].id@);
                    }
                }
                let j = choose|j: int| 0 <= j < i && rs[j].id@ == rs[i].id@;
                assert(compiled_rule(configs@[j], rs[j]));
                assert(id_dup_before(configs@, i));
                assert(0 <= i < configs@.len() && (forall|k: int| 0 <= k < i ==> !id_dup_before(configs@, k))
                    && id_dup_before(configs@, i) && (e matches ConfigError::DuplicateRuleId(d) && d@
                    == configs@[i].id@));
            }
            Err(e)
        },
    }
}

} // verus!
