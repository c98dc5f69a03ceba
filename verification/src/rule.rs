//! Rule model: protocols, metrics, windows, actions, rules, rule sets and the
//! evaluation of rules against per-(client, rule) sliding windows.

use vstd::prelude::*;

use std::sync::Arc;

use crate::cel_match::CompiledMatch;
use crate::error::ConfigError;
use crate::text::{ascii_lower, concat3, text_is, to_ascii_lowercase};
use crate::window::RuleWindows;
use crate::window::WindowView;
use crate::window::windows_sum;

verus! {

/// Maximum number of rules in a RuleSet.
pub const MAX_RULES: usize = 256;

/// Rule identifier.
pub type RuleId = String;

/// L7 / L4 protocol selector.
#[derive(Debug, Clone, Copy, PartialEq, Eq, Hash, Structural)]
pub enum Protocol {
    /// HTTP over TCP.
    Http,
    /// WebSocket over TCP.
    WebSocket,
    /// Z21 LAN over UDP.
    Z21,
    /// WiThrottle over TCP.
    Withrottle,
    /// Generic UDP.
    Udp,
    /// Generic TCP.
    Tcp,
}

impl Protocol {
    /// The protocol's config / wire name.
    pub open spec fn name(self) -> Seq<char> {
        match self {
            Protocol::Http => "http"@,
            Protocol::WebSocket => "websocket"@,
            Protocol::Z21 => "z21"@,
            Protocol::Withrottle => "withrottle"@,
            Protocol::Udp => "udp"@,
            Protocol::Tcp => "tcp"@,
        }
    }

    /// Parsed (L7) protocols need ports; generic UDP / TCP do not.
    pub open spec fn spec_is_parsed(self) -> bool {
        !(self is Udp || self is Tcp)
    }

    /// True if this is a parsed (L7) protocol requiring ports.
    pub fn is_parsed(self) -> (r: bool)
        ensures
            r == self.spec_is_parsed(),
    {
        !matches!(self, Protocol::Udp | Protocol::Tcp)
    }

    /// Wire / config string.
    pub fn as_str(self) -> (r: &'static str)
        ensures
            r@ == self.name(),
    {
        match self {
            Protocol::Http => "http",
            Protocol::WebSocket => "websocket",
            Protocol::Z21 => "z21",
            Protocol::Withrottle => "withrottle",
            Protocol::Udp => "udp",
            Protocol::Tcp => "tcp",
        }
    }

    /// The protocol a lower-cased config word names (`ws` and `wt` are aliases).
    pub open spec fn from_word(t: Seq<char>) -> Option<Protocol> {
        if t == "http"@ {
            Some(Protocol::Http)
        } else if t == "websocket"@ || t == "ws"@ {
            Some(Protocol::WebSocket)
        } else if t == "z21"@ {
            Some(Protocol::Z21)
        } else if t == "withrottle"@ || t == "wt"@ {
            Some(Protocol::Withrottle)
        } else if t == "udp"@ {
            Some(Protocol::Udp)
        } else if t == "tcp"@ {
            Some(Protocol::Tcp)
        } else {
            None
        }
    }

    /// Parse a config word, case-insensitively.
    pub fn parse_word(s: &str) -> (r: Result<Protocol, ConfigError>)
        ensures
            match r {
                Ok(p) => Protocol::from_word(ascii_lower(s@)) == Some(p),
                Err(e) => Protocol::from_word(ascii_lower(s@)) is None && (e matches ConfigError::InvalidValue(m)
                    && m@ == "protocol `"@ + ascii_lower(s@) + "`"@),
            },
    {
        let t = to_ascii_lowercase(s);
        if text_is(&t, "http") {
            Ok(Protocol::Http)
        } else if text_is(&t, "websocket") || text_is(&t, "ws") {
            Ok(Protocol::WebSocket)
        } else if text_is(&t, "z21") {
            Ok(Protocol::Z21)
        } else if text_is(&t, "withrottle") || text_is(&t, "wt") {
            Ok(Protocol::Withrottle)
        } else if text_is(&t, "udp") {
            Ok(Protocol::Udp)
        } else if text_is(&t, "tcp") {
            Ok(Protocol::Tcp)
        } else {
            Err(ConfigError::InvalidValue(concat3("protocol `", t.as_str(), "`")))
        }
    }
}

/// What to count.
#[derive(Debug, Clone, Copy, PartialEq, Eq, Hash, Structural)]
pub enum Metric {
    /// Parsed units (requests/records/lines/frames).
    Requests,
    /// Payload bytes.
    Bytes,
    /// New flows (udp/tcp only).
    Connections,
}

impl Metric {
    /// The metric's config / wire name.
    pub open spec fn name(self) -> Seq<char> {
        match self {
            Metric::Requests => "requests"@,
            Metric::Bytes => "bytes"@,
            Metric::Connections => "connections"@,
        }
    }

    /// Generic UDP / TCP rules count connections or bytes; parsed protocols
    /// count requests or bytes.
    pub open spec fn spec_valid_for(self, protocol: Protocol) -> bool {
        match protocol {
            Protocol::Udp | Protocol::Tcp => self is Connections || self is Bytes,
            _ => self is Requests || self is Bytes,
        }
    }

    /// Wire string.
    pub fn as_str(self) -> (r: &'static str)
        ensures
            r@ == self.name(),
    {
        match self {
            Metric::Requests => "requests",
            Metric::Bytes => "bytes",
            Metric::Connections => "connections",
        }
    }

    /// Whether this metric is valid for `protocol`.
    pub fn valid_for(self, protocol: Protocol) -> (r: bool)
        ensures
            r == self.spec_valid_for(protocol),
    {
        match protocol {
            Protocol::Udp | Protocol::Tcp => matches!(self, Metric::Connections | Metric::Bytes),
            _ => matches!(self, Metric::Requests | Metric::Bytes),
        }
    }

    /// The metric a lower-cased config word names.
    pub open spec fn from_word(t: Seq<char>) -> Option<Metric> {
        if t == "requests"@ {
            Some(Metric::Requests)
        } else if t == "bytes"@ {
            Some(Metric::Bytes)
        } else if t == "connections"@ {
            Some(Metric::Connections)
        } else {
            None
        }
    }

    /// Parse a config word, case-insensitively.
    pub fn parse_word(s: &str) -> (r: Result<Metric, ConfigError>)
        ensures
            match r {
                Ok(m) => Metric::from_word(ascii_lower(s@)) == Some(m),
                Err(e) => Metric::from_word(ascii_lower(s@)) is None && (e matches ConfigError::InvalidValue(m)
                    && m@ == "metric `"@ + ascii_lower(s@) + "`"@),
            },
    {
        let t = to_ascii_lowercase(s);
        if text_is(&t, "requests") {
            Ok(Metric::Requests)
        } else if text_is(&t, "bytes") {
            Ok(Metric::Bytes)
        } else if text_is(&t, "connections") {
            Ok(Metric::Connections)
        } else {
            Err(ConfigError::InvalidValue(concat3("metric `", t.as_str(), "`")))
        }
    }
}

/// Sliding-window length.
#[derive(Debug, Clone, Copy, PartialEq, Eq, Hash, Structural)]
pub enum Window {
    /// Last 1 second.
    PerSecond,
    /// Last 60 seconds.
    PerMinute,
}

impl Window {
    /// The window's config / wire name.
    pub open spec fn name(self) -> Seq<char> {
        match self {
            Window::PerSecond => "per-second"@,
            Window::PerMinute => "per-minute"@,
        }
    }

    /// Seconds covered by the window.
    pub open spec fn spec_secs(self) -> nat {
        match self {
            Window::PerSecond => 1,
            Window::PerMinute => 60,
        }
    }

    /// Seconds covered.
    pub fn secs(self) -> (r: usize)
        ensures
            r == self.spec_secs(),
    {
        match self {
            Window::PerSecond => 1,
            Window::PerMinute => 60,
        }
    }

    /// Wire string.
    pub fn as_str(self) -> (r: &'static str)
        ensures
            r@ == self.name(),
    {
        match self {
            Window::PerSecond => "per-second",
            Window::PerMinute => "per-minute",
        }
    }

    /// The window a lower-cased config word names.
    pub open spec fn from_word(t: Seq<char>) -> Option<Window> {
        if t == "per-second"@ || t == "per_second"@ || t == "second"@ || t == "1s"@ {
            Some(Window::PerSecond)
        } else if t == "per-minute"@ || t == "per_minute"@ || t == "minute"@ || t == "60s"@ {
            Some(Window::PerMinute)
        } else {
            None
        }
    }

    /// Parse a config word, case-insensitively.
    pub fn parse_word(s: &str) -> (r: Result<Window, ConfigError>)
        ensures
            match r {
                Ok(w) => Window::from_word(ascii_lower(s@)) == Some(w),
                Err(e) => Window::from_word(ascii_lower(s@)) is None && (e matches ConfigError::InvalidValue(m)
                    && m@ == "window `"@ + ascii_lower(s@) + "`"@),
            },
    {
        let t = to_ascii_lowercase(s);
        if text_is(&t, "per-second") || text_is(&t, "per_second") || text_is(&t, "second")
            || text_is(&t, "1s") {
            Ok(Window::PerSecond)
        } else if text_is(&t, "per-minute") || text_is(&t, "per_minute") || text_is(&t, "minute")
            || text_is(&t, "60s") {
            Ok(Window::PerMinute)
        } else {
            Err(ConfigError::InvalidValue(concat3("window `", t.as_str(), "`")))
        }
    }
}

/// Action applied when a rule is violated.
#[derive(Debug, Clone, Copy, PartialEq, Eq, Structural)]
pub enum Action {
    /// Drop a percentage of packets.
    Throttle {
        /// Drop rate 0..=100.
        drop_rate: u8,
    },
    /// Drop all packets.
    Block,
}

} // verus!

verus! {

/// A rule violation for one client.
#[derive(Debug, Clone, PartialEq, Eq)]
pub struct Violation {
    /// Rule id.
    pub rule_id: RuleId,
    /// Observed value.
    pub value: u64,
    /// Limit.
    pub limit: u64,
    /// Action.
    pub action: Action,
}

/// Abstract violation.
pub struct ViolationView {
    /// Rule id.
    pub rule_id: Seq<char>,
    /// Observed value.
    pub value: u64,
    /// Limit.
    pub limit: u64,
    /// Action.
    pub action: Action,
}

impl View for Violation {
    type V = ViolationView;

    open spec fn view(&self) -> ViolationView {
        ViolationView { rule_id: self.rule_id@, value: self.value, limit: self.limit, action: self.action }
    }
}

/// A compiled rule.
#[derive(Debug, Clone)]
pub struct Rule {
    /// Unique id.
    pub id: RuleId,
    /// Protocol selector.
    pub protocol: Protocol,
    /// Destination ports (None = all for udp/tcp; Some required for parsed).
    pub ports: Option<Vec<u16>>,
    /// Metric.
    pub metric: Metric,
    /// Window.
    pub window: Window,
    /// Max allowed sum within window.
    pub limit: u64,
    /// Action on violation.
    pub action: Action,
    /// Floor for `top`.
    pub min_threshold: u64,
    /// Optional CEL program.
    pub matcher: Option<CompiledMatch>,
    /// CEL source as written in the rule file (for listRules).
    pub match_src: Option<String>,
}

impl Rule {
    /// Whether the rule's port selector admits `port`: no list admits every port.
    pub open spec fn port_matches(self, port: u16) -> bool {
        match self.ports {
            None => true,
            Some(ps) => ps@.contains(port),
        }
    }

    /// A parsed protocol with no ports (or an empty list).
    pub open spec fn ports_missing(self) -> bool {
        self.protocol.spec_is_parsed() && (match self.ports {
            None => true,
            Some(ps) => ps@.len() == 0,
        })
    }

    /// A throttle with a drop rate above 100.
    pub open spec fn drop_rate_out_of_range(self) -> bool {
        match self.action {
            Action::Throttle { drop_rate } => drop_rate > 100,
            Action::Block => false,
        }
    }

    /// Ports present where needed, metric valid for the protocol, drop rate within 0..=100.
    pub open spec fn is_valid(self) -> bool {
        !self.ports_missing() && self.metric.spec_valid_for(self.protocol) && !self.drop_rate_out_of_range()
    }

    /// `e` is the error validation reports for this rule: the first failed
    /// check among ports, metric and drop rate, in that order.
    pub open spec fn is_validation_error(self, e: ConfigError) -> bool {
        if self.ports_missing() {
            e matches ConfigError::PortsRequired(a, b) && a@ == self.id@ && b@ == self.protocol.name()
        } else if !self.metric.spec_valid_for(self.protocol) {
            e matches ConfigError::InvalidMetric(a, b, c) && a@ == self.id@ && b@ == self.metric.name()
                && c@ == self.protocol.name()
        } else if self.drop_rate_out_of_range() {
            e matches ConfigError::InvalidDropRate(a, r) && a@ == self.id@ && self.action
                == (Action::Throttle { drop_rate: r })
        } else {
            false
        }
    }

    /// True if `port` matches this rule's port selector.
    pub fn matches_port(&self, port: u16) -> (r: bool)
        ensures
            r == self.port_matches(port),
    {
        match &self.ports {
            None => true,
            Some(ports) => {
                let mut i: usize = 0;
                while i < ports.len()
                    invariant
                        i <= ports@.len(),
                        self.ports == Some(*ports),
                        forall|j: int| 0 <= j < i ==> ports@[j] != port,
                    decreases ports@.len() - i,
                {
                    if ports[i] == port {
                        assert(ports@[i as int] == port);
                        return true;
                    }
                    i = i + 1;
                }
                false
            },
        }
    }

    /// Validate metric/ports constraints.
    pub fn validate(&self) -> (r: Result<(), ConfigError>)
        ensures
            r is Ok <==> self.is_valid(),
            r matches Err(e) ==> self.is_validation_error(e),
    {
        let missing = match &self.ports {
            None => true,
            Some(p) => p.len() == 0,
        };
        if self.protocol.is_parsed() && missing {
            return Err(
                ConfigError::PortsRequired(self.id.clone(), String::from_str(self.protocol.as_str())),
            );
        }
        if !self.metric.valid_for(self.protocol) {
            return Err(
                ConfigError::InvalidMetric(
                    self.id.clone(),
                    String::from_str(self.metric.as_str()),
                    String::from_str(self.protocol.as_str()),
                ),
            );
        }
        if let Action::Throttle { drop_rate } = self.action {
            if drop_rate > 100 {
                return Err(ConfigError::InvalidDropRate(self.id.clone(), drop_rate));
            }
        }
        Ok(())
    }
}

/// Rule `i` repeats the id of an earlier rule.
pub open spec fn dup_before(rules: Seq<Rule>, i: int) -> bool {
    exists|j: int| 0 <= j < i && rules[j].id@ == rules[i].id@
}

/// The first `n` rules are valid and carry distinct ids.
pub open spec fn clean_prefix(rules: Seq<Rule>, n: int) -> bool {
    forall|j: int| 0 <= j < n ==> (#[trigger] rules[j]).is_valid() && !dup_before(rules, j)
}

/// Indices (in order) of the first `n` rules that match a protocol and port.
pub open spec fn matching_indices(rules: Seq<Rule>, protocol: Protocol, port: u16, n: int) -> Seq<usize>
    decreases n,
{
    if n <= 0 {
        seq![]
    } else {
        let prev = matching_indices(rules, protocol, port, n - 1);
        if rules[n - 1].protocol == protocol && rules[n - 1].port_matches(port) {
            prev.push((n - 1) as usize)
        } else {
            prev
        }
    }
}

/// Immutable set of rules.
#[derive(Debug, Clone)]
pub struct RuleSet {
    /// Rules in load order.
    pub rules: Vec<Rule>,
}

impl RuleSet {
    /// At most MAX_RULES rules, all valid, with distinct ids.
    pub open spec fn wf(&self) -> bool {
        self.rules@.len() <= MAX_RULES && clean_prefix(self.rules@, self.rules@.len() as int)
    }

    /// The empty rule set.
    pub fn empty() -> (r: RuleSet)
        ensures
            r.wf(),
            r.rules@.len() == 0,
    {
        RuleSet { rules: Vec::new() }
    }

    /// Build from rules: too many rules, the first invalid rule or the first
    /// repeated id (in load order) is reported.
    pub fn new(rules: Vec<Rule>) -> (r: Result<RuleSet, ConfigError>)
        ensures
            match r {
                Ok(set) => set.rules@ == rules@ && set.wf(),
                Err(e) => (rules@.len() > MAX_RULES && e == ConfigError::TooManyRules {
                    count: rules@.len() as usize,
                    max: MAX_RULES,
                }) || (rules@.len() <= MAX_RULES && exists|i: int|
                    0 <= i < rules@.len() && clean_prefix(rules@, i) && ((!rules@[i].is_valid()
                        && rules@[i].is_validation_error(e)) || (rules@[i].is_valid() && dup_before(rules@, i)
                        && (e matches ConfigError::DuplicateRuleId(d) && d@ == rules@[i].id@)))),
            },
    {
        if rules.len() > MAX_RULES {
            return Err(ConfigError::TooManyRules { count: rules.len(), max: MAX_RULES });
        }
        let mut i: usize = 0;
        while i < rules.len()
            invariant
                i <= rules@.len(),
                rules@.len() <= MAX_RULES,
                clean_prefix(rules@, i as int),
            decreases rules@.len() - i,
        {
            match rules[i].validate() {
                Err(e) => {
                    return Err(e);
                },
                Ok(()) => {},
            }
            let mut j: usize = 0;
            while j < i
                invariant
                    j <= i < rules@.len(),
                    rules@.len() <= MAX_RULES,
                    clean_prefix(rules@, i as int),
                    rules@[i as int].is_valid(),
                    forall|q: int| 0 <= q < j ==> rules@[q].id@ != rules@[i as int].id@,
                decreases i - j,
            {
                if rules[j].id == rules[i].id {
                    assert(dup_before(rules@, i as int));
                    return Err(ConfigError::DuplicateRuleId(rules[i].id.clone()));
                }
                j = j + 1;
            }
            i = i + 1;
        }
        Ok(RuleSet { rules })
    }

    /// Indices of the rules matching protocol + port, in load order.
    pub fn matching(&self, protocol: Protocol, port: u16) -> (r: Vec<usize>)
        ensures
            r@ == matching_indices(self.rules@, protocol, port, self.rules@.len() as int),
            forall|j: int| 0 <= j < r@.len() ==> r@[j] < self.rules@.len(),
    {
        let mut out: Vec<usize> = Vec::new();
        let mut i: usize = 0;
        while i < self.rules.len()
            invariant
                i <= self.rules@.len(),
                out@ == matching_indices(self.rules@, protocol, port, i as int),
                forall|j: int| 0 <= j < out@.len() ==> out@[j] < i,
            decreases self.rules@.len() - i,
        {
            if self.rules[i].protocol == protocol && self.rules[i].matches_port(port) {
                out.push(i);
            }
            i = i + 1;
        }
        out
    }

    /// Find by id: the first rule carrying it.
    pub fn get(&self, id: &str) -> (r: Option<&Rule>)
        ensures
            match r {
                Some(x) => exists|i: int|
                    0 <= i < self.rules@.len() && self.rules@[i] == *x && x.id@ == id@ && forall|j: int|
                        0 <= j < i ==> self.rules@[j].id@ != id@,
                None => forall|i: int| 0 <= i < self.rules@.len() ==> self.rules@[i].id@ != id@,
            },
    {
        let key = String::from_str(id);
        let mut i: usize = 0;
        while i < self.rules.len()
            invariant
                i <= self.rules@.len(),
                key@ == id@,
                forall|j: int| 0 <= j < i ==> self.rules@[j].id@ != id@,
            decreases self.rules@.len() - i,
        {
            if self.rules[i].id == key {
                return Some(&self.rules[i]);
            }
            i = i + 1;
        }
        None
    }
}

impl Default for RuleSet {
    fn default() -> (r: RuleSet)
        ensures
            r.wf(),
            r.rules@.len() == 0,
    {
        RuleSet::empty()
    }
}

/// The violations the first `n` rules report against one client's windows:
/// one per rule whose windowed sum exceeds its limit, in rule order.
pub open spec fn violations_of(rules: Seq<Rule>, windows: Map<Seq<char>, WindowView>, n: int) -> Seq<ViolationView>
    decreases n,
{
    if n <= 0 {
        seq![]
    } else {
        let prev = violations_of(rules, windows, n - 1);
        let r = rules[n - 1];
        let value = windows_sum(windows, r.id@, r.metric, r.window.spec_secs() as int);
        if value > r.limit {
            prev.push(ViolationView { rule_id: r.id@, value, limit: r.limit, action: r.action })
        } else {
            prev
        }
    }
}

/// `Arc::clone`: another handle to the same rule set (std documents that the
/// clone points to the same allocation, so it reads the same value).
#[verifier::external_body]
pub(crate) fn share_rules(rules: &Arc<RuleSet>) -> (r: Arc<RuleSet>)
    ensures
        r == *rules,
{
    Arc::clone(rules)
}

/// Evaluates rules against per-(client, rule) windows.
#[derive(Debug, Clone)]
pub struct RuleEngine {
    /// Live rule set.
    pub rules: Arc<RuleSet>,
}

impl RuleEngine {
    /// Construct.
    pub fn new(rules: Arc<RuleSet>) -> (r: RuleEngine)
        ensures
            r.rules == rules,
    {
        RuleEngine { rules }
    }

    /// Evaluate all rules for one client's windows.
    pub fn evaluate(&self, per_rule: &RuleWindows) -> (r: Vec<Violation>)
        requires
            per_rule.wf(),
        ensures
            r@.map_values(|v: Violation| v@) == violations_of(
                self.rules.rules@,
                per_rule@,
                self.rules.rules@.len() as int,
            ),
    {
        let rules = &self.rules.rules;
        let mut out: Vec<Violation> = Vec::new();
        let mut i: usize = 0;
        while i < rules.len()
            invariant
                i <= rules@.len(),
                per_rule.wf(),
                *rules == self.rules.rules,
                out@.map_values(|v: Violation| v@) == violations_of(rules@, per_rule@, i as int),
            decreases rules@.len() - i,
        {
            let r = &rules[i];
            let value = per_rule.sum(r.id.as_str(), r.metric, r.window.secs());
            if value > r.limit {
                let ghost o0 = out@;
                out.push(Violation { rule_id: r.id.clone(), value, limit: r.limit, action: r.action });
                assert(out@.map_values(|v: Violation| v@) =~= o0.map_values(|v: Violation| v@).push(
                    ViolationView { rule_id: r.id@, value, limit: r.limit, action: r.action },
                ));
            }
            i = i + 1;
        }
        out
    }
}

impl std::str::FromStr for Protocol {
    type Err = ConfigError;

    fn from_str(s: &str) -> (r: Result<Protocol, ConfigError>)
        ensures
            match r {
                Ok(p) => Protocol::from_word(ascii_lower(s@)) == Some(p),
                Err(e) => Protocol::from_word(ascii_lower(s@)) is None && (e matches ConfigError::InvalidValue(m)
                    && m@ == "protocol `"@ + ascii_lower(s@) + "`"@),
            },
    {
        Protocol::parse_word(s)
    }
}

impl std::str::FromStr for Metric {
    type Err = ConfigError;

    fn from_str(s: &str) -> (r: Result<Metric, ConfigError>)
        ensures
            match r {
                Ok(m) => Metric::from_word(ascii_lower(s@)) == Some(m),
                Err(e) => Metric::from_word(ascii_lower(s@)) is None && (e matches ConfigError::InvalidValue(m)
                    && m@ == "metric `"@ + ascii_lower(s@) + "`"@),
            },
    {
        Metric::parse_word(s)
    }
}

impl std::str::FromStr for Window {
    type Err = ConfigError;

    fn from_str(s: &str) -> (r: Result<Window, ConfigError>)
        ensures
            match r {
                Ok(w) => Window::from_word(ascii_lower(s@)) == Some(w),
                Err(e) => Window::from_word(ascii_lower(s@)) is None && (e matches ConfigError::InvalidValue(m)
                    && m@ == "window `"@ + ascii_lower(s@) + "`"@),
            },
    {
        Window::parse_word(s)
    }
}

/// Evaluating the first `n` rules against a client's windows reports, for
/// each rule, a violation exactly when the rule's sum over its window (the
/// last second for a per-second rule, the last 60 seconds for a per-minute
/// rule) is above its limit, with that sum as the value, the rule's id,
/// limit and action; and it reports nothing else.
pub proof fn lemma_violations_by_window(rules: Seq<Rule>, windows: Map<Seq<char>, WindowView>, n: int)
    requires
        0 <= n <= rules.len(),
    ensures
        forall|k: int|
            #![trigger violations_of(rules, windows, n)[k]]
            0 <= k < violations_of(rules, windows, n).len() ==> exists|i: int|
                #![trigger rules[i]]
                0 <= i < n && ({
                    let r = rules[i];
                    let v = windows_sum(
                        windows,
                        r.id@,
                        r.metric,
                        match r.window {
                            Window::PerSecond => 1int,
                            Window::PerMinute => 60int,
                        },
                    );
                    &&& v > r.limit
                    &&& violations_of(rules, windows, n)[k] == ViolationView {
                        rule_id: r.id@,
                        value: v,
                        limit: r.limit,
                        action: r.action,
                    }
                }),
        forall|i: int|
            #![trigger rules[i]]
            0 <= i < n ==> ({
                let r = rules[i];
                let v = windows_sum(
                    windows,
                    r.id@,
                    r.metric,
                    match r.window {
                        Window::PerSecond => 1int,
                        Window::PerMinute => 60int,
                    },
                );
                v > r.limit ==> exists|k: int|
                    0 <= k < violations_of(rules, windows, n).len() && #[trigger] violations_of(rules, windows, n)[k]
                        == ViolationView { rule_id: r.id@, value: v, limit: r.limit, action: r.action }
            }),
    decreases n,
{
    if n > 0 {
        lemma_violations_by_window(rules, windows, n - 1);
        let prev = violations_of(rules, windows, n - 1);
        let cur = violations_of(rules, windows, n);
        let r = rules[n - 1];
        let v = windows_sum(windows, r.id@, r.metric, r.window.spec_secs() as int);
        assert(v == windows_sum(
            windows,
            r.id@,
            r.metric,
            match r.window {
                Window::PerSecond => 1int,
                Window::PerMinute => 60int,
            },
        ));
        let w = ViolationView { rule_id: r.id@, value: v, limit: r.limit, action: r.action };
        if v > r.limit {
            assert(cur == prev.push(w));
            assert(cur[prev.len() as int] == w);
        } else {
            assert(cur == prev);
        }
        assert forall|k: int| 0 <= k < prev.len() implies #[trigger] cur[k] == prev[k] by {}
        assert forall|i: int|
            #![trigger rules[i]]
            0 <= i < n && windows_sum(
                windows,
                rules[i].id@,
                rules[i].metric,
                match rules[i].window {
                    Window::PerSecond => 1int,
                    Window::PerMinute => 60int,
                },
            ) > rules[i].limit implies exists|k: int|
            0 <= k < cur.len() && #[trigger] cur[k] == ViolationView {
                rule_id: rules[i].id@,
                value: windows_sum(
                    windows,
                    rules[i].id@,
                    rules[i].metric,
                    match rules[i].window {
                        Window::PerSecond => 1int,
                        Window::PerMinute => 60int,
                    },
                ),
                limit: rules[i].limit,
                action: rules[i].action,
            } by {
            if i < n - 1 {
                let vi = windows_sum(
                    windows,
                    rules[i].id@,
                    rules[i].metric,
                    match rules[i].window {
                        Window::PerSecond => 1int,
                        Window::PerMinute => 60int,
                    },
                );
                let want = ViolationView { rule_id: rules[i].id@, value: vi, limit: rules[i].limit, action: rules[i].action };
                let k = choose|k: int| 0 <= k < prev.len() && #[trigger] prev[k] == want;
                assert(cur[k] == want);
            } else {
                assert(cur[prev.len() as int] == w);
            }
        }
    }
}

} // verus!
