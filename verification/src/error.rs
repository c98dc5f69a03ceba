//! Typed errors for configuration and rule loading.

use vstd::prelude::*;

use crate::table::{dec_u64, u64_string};

verus! {

/// Configuration / rule-load errors.
#[derive(Debug, Clone, PartialEq, Eq)]
pub enum ConfigError {
    /// Duplicate rule id across files.
    DuplicateRuleId(String),
    /// Too many rules.
    TooManyRules {
        /// Actual count.
        count: usize,
        /// Max allowed.
        max: usize,
    },
    /// Parsed protocol missing ports: (rule id, protocol).
    PortsRequired(String, String),
    /// Metric invalid for protocol: (rule id, metric, protocol).
    InvalidMetric(String, String, String),
    /// Drop rate out of range: (rule id, drop rate).
    InvalidDropRate(String, u8),
    /// CEL compile failure: (rule id, compiler message).
    CelCompile(String, String),
    /// YAML / IO parse error.
    Parse(String),
    /// Unknown protocol / metric / window string.
    InvalidValue(String),
}

/// Generic core error.
#[derive(Debug, Clone, PartialEq, Eq)]
pub enum CoreError {
    /// Config error.
    Config(ConfigError),
}

/// The message of a configuration error.
pub open spec fn config_error_text(e: ConfigError) -> Seq<char> {
    match e {
        ConfigError::DuplicateRuleId(id) => "duplicate rule id `"@ + id@ + "`"@,
        ConfigError::TooManyRules { count, max } => "too many rules: "@ + dec_u64(count as nat) + " > "@ + dec_u64(
            max as nat,
        ),
        ConfigError::PortsRequired(id, p) => "rule `"@ + id@ + "`: ports are mandatory for protocol `"@ + p@ + "`"@,
        ConfigError::InvalidMetric(id, m, p) => "rule `"@ + id@ + "`: metric `"@ + m@ + "` is not valid for protocol `"@
            + p@ + "`"@,
        ConfigError::InvalidDropRate(id, r) => "rule `"@ + id@ + "`: dropRate must be 0..=100, got "@ + dec_u64(
            r as nat,
        ),
        ConfigError::CelCompile(id, m) => "rule `"@ + id@ + "`: CEL compile error: "@ + m@,
        ConfigError::Parse(m) => "config parse error: "@ + m@,
        ConfigError::InvalidValue(v) => "invalid value: "@ + v@,
    }
}

impl ConfigError {
    /// The error's message.
    pub fn message(&self) -> (r: String)
        ensures
            r@ == config_error_text(*self),
    {
        match self {
            ConfigError::DuplicateRuleId(id) => {
                let mut s = String::from_str("duplicate rule id `");
                s.append(id.as_str());
                s.append("`");
                s
            },
            ConfigError::TooManyRules { count, max } => {
                let mut s = String::from_str("too many rules: ");
                s.append(u64_string(*count as u64).as_str());
                s.append(" > ");
                s.append(u64_string(*max as u64).as_str());
                s
            },
            ConfigError::PortsRequired(id, p) => {
                let mut s = String::from_str("rule `");
                s.append(id.as_str());
                s.append("`: ports are mandatory for protocol `");
                s.append(p.as_str());
                s.append("`");
                s
            },
            ConfigError::InvalidMetric(id, m, p) => {
                let mut s = String::from_str("rule `");
                s.append(id.as_str());
                s.append("`: metric `");
                s.append(m.as_str());
                s.append("` is not valid for protocol `");
                s.append(p.as_str());
                s.append("`");
                s
            },
            ConfigError::InvalidDropRate(id, r) => {
                let mut s = String::from_str("rule `");
                s.append(id.as_str());
                s.append("`: dropRate must be 0..=100, got ");
                s.append(u64_string(*r as u64).as_str());
                s
            },
            ConfigError::CelCompile(id, m) => {
                let mut s = String::from_str("rule `");
                s.append(id.as_str());
                s.append("`: CEL compile error: ");
                s.append(m.as_str());
                s
            },
            ConfigError::Parse(m) => {
                let mut s = String::from_str("config parse error: ");
                s.append(m.as_str());
                s
            },
            ConfigError::InvalidValue(v) => {
                let mut s = String::from_str("invalid value: ");
                s.append(v.as_str());
                s
            },
        }
    }
}

} // verus!
