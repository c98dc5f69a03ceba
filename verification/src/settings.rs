//! Startup settings: which of command line, config file and built-in
//! default decides each daemon setting, the config and socket locations,
//! and the file-name rules of the config directory (`.example` siblings,
//! rules files).

use vstd::prelude::*;

use crate::client::str_chars;
use crate::config::{DaemonConfig, LiveConfig};
use crate::daemon::DaemonState;
use crate::enforcer::Mode;

verus! {

/// What `std::path::Path::file_name` gives for a path, as text.
pub uninterp spec fn path_file_name(p: Seq<char>) -> Option<Seq<char>>;

/// What `std::path::Path::extension` gives for a path, as text.
pub uninterp spec fn path_extension(p: Seq<char>) -> Option<Seq<char>>;

/// What `std::path::Path::with_file_name` gives for a path and a name.
pub uninterp spec fn path_with_file_name(p: Seq<char>, name: Seq<char>) -> Seq<char>;

/// What `std::path::Path::with_extension` gives for a path and an extension.
pub uninterp spec fn path_with_extension(p: Seq<char>, ext: Seq<char>) -> Seq<char>;

/// What `std::path::Path::join` gives for a base and a relative path.
pub uninterp spec fn path_join(base: Seq<char>, rel: Seq<char>) -> Seq<char>;

/// `Path::file_name` of a path given as text (a suffix of it, so text too).
#[verifier::external_body]
fn file_name_of(p: &str) -> (r: Option<String>)
    ensures
        match r {
            Some(s) => path_file_name(p@) == Some(s@),
            None => path_file_name(p@) is None,
        },
{
    std::path::Path::new(p).file_name().and_then(|n| n.to_str()).map(|s| s.to_string())
}

/// `Path::extension` of a path given as text.
#[verifier::external_body]
fn extension_of(p: &str) -> (r: Option<String>)
    ensures
        match r {
            Some(s) => path_extension(p@) == Some(s@),
            None => path_extension(p@) is None,
        },
{
    std::path::Path::new(p).extension().and_then(|n| n.to_str()).map(|s| s.to_string())
}

/// `Path::with_file_name` on text (the result joins text, so is text).
#[verifier::external_body]
fn with_file_name_of(p: &str, name: &str) -> (r: String)
    ensures
        r@ == path_with_file_name(p@, name@),
{
    std::path::Path::new(p).with_file_name(name).to_string_lossy().into_owned()
}

/// `Path::with_extension` on text; std documents a panic when the extension
/// holds a path separator, so `ext` holds no '/'.
#[verifier::external_body]
fn with_extension_of(p: &str, ext: &str) -> (r: String)
    requires
        forall|i: int| 0 <= i < ext@.len() ==> ext@[i] != '/',
    ensures
        r@ == path_with_extension(p@, ext@),
{
    std::path::Path::new(p).with_extension(ext).to_string_lossy().into_owned()
}

/// `Path::join` on text.
#[verifier::external_body]
fn join_of(base: &str, rel: &str) -> (r: String)
    ensures
        r@ == path_join(base@, rel@),
{
    std::path::Path::new(base).join(rel).to_string_lossy().into_owned()
}

/// `s` ends with `suf`.
pub open spec fn ends_with(s: Seq<char>, suf: Seq<char>) -> bool {
    s.len() >= suf.len() && s.subrange(s.len() - suf.len(), s.len() as int) == suf
}

/// Whether `s` ends with `suf`.
pub fn text_ends_with(s: &str, suf: &str) -> (r: bool)
    ensures
        r == ends_with(s@, suf@),
{
    let a = str_chars(s);
    let b = str_chars(suf);
    if a.len() < b.len() {
        return false;
    }
    let off = a.len() - b.len();
    let mut i: usize = 0;
    while i < b.len()
        invariant
            a@ == s@,
            b@ == suf@,
            off + b@.len() == a@.len(),
            a@.len() <= usize::MAX,
            i <= b@.len(),
            forall|j: int| 0 <= j < i ==> a@[off + j] == b@[j],
        decreases b@.len() - i,
    {
        if a[off + i] != b[i] {
            assert(s@.subrange(s@.len() - suf@.len(), s@.len() as int)[i as int] != suf@[i as int]);
            return false;
        }
        i = i + 1;
    }
    assert(s@.subrange(s@.len() - suf@.len(), s@.len() as int) =~= suf@);
    true
}

/// Sibling path: `daemon.yaml` → `daemon.yaml.example`; a path without a
/// file name gets the extension `yaml.example`.
pub fn example_path(path: &str) -> (r: String)
    ensures
        r@ == match path_file_name(path@) {
            Some(n) => path_with_file_name(path@, n + ".example"@),
            None => path_with_extension(path@, "yaml.example"@),
        },
{
    match file_name_of(path) {
        Some(name) => {
            let mut n = name;
            n.append(".example");
            with_file_name_of(path, n.as_str())
        },
        None => {
            proof {
                reveal_strlit("yaml.example");
            }
            with_extension_of(path, "yaml.example")
        },
    }
}

/// A rules file: a name not ending in `.example`, with extension `yaml` or `yml`.
pub open spec fn rules_file(path: Seq<char>) -> bool {
    match path_file_name(path) {
        None => false,
        Some(n) => !ends_with(n, ".example"@) && (path_extension(path) == Some("yaml"@) || path_extension(path)
            == Some("yml"@)),
    }
}

/// Whether `path` names a rules file.
pub fn is_rules_yaml(path: &str) -> (r: bool)
    ensures
        r == rules_file(path@),
{
    let name = match file_name_of(path) {
        Some(n) => n,
        None => {
            return false;
        },
    };
    if text_ends_with(name.as_str(), ".example") {
        return false;
    }
    match extension_of(path) {
        Some(e) => {
            let yaml = String::from_str("yaml");
            let yml = String::from_str("yml");
            e == yaml || e == yml
        },
        None => false,
    }
}

/// A change that touches only `.example` files: at least one path, and
/// every file name present and ending in `.example`.
pub open spec fn only_examples(names: Seq<Option<String>>) -> bool {
    names.len() > 0 && forall|i: int|
        0 <= i < names.len() ==> (#[trigger] names[i] matches Some(n) && ends_with(n@, ".example"@))
}

/// Whether a change event's file names (one per path, `None` where a path
/// has no text name) touch only `.example` files.
pub fn example_only(names: &Vec<Option<String>>) -> (r: bool)
    ensures
        r == only_examples(names@),
{
    if names.len() == 0 {
        return false;
    }
    let mut i: usize = 0;
    while i < names.len()
        invariant
            i <= names@.len(),
            forall|j: int| 0 <= j < i ==> (#[trigger] names@[j] matches Some(n) && ends_with(n@, ".example"@)),
        decreases names@.len() - i,
    {
        match &names[i] {
            Some(n) => {
                if !text_ends_with(n.as_str(), ".example") {
                    return false;
                }
            },
            None => {
                return false;
            },
        }
        i = i + 1;
    }
    true
}

/// The config directory: the override; else `MICROWAF_CONFIG_DIR`; else
/// from the data directory (`BIGFRED_DATA_DIR`, then `DATA_DIR`, then
/// `/etc`): `/etc/microwaf` for `/etc`, else `<data>/etc/microwaf`.
pub open spec fn config_dir_choice(
    override_path: Option<Seq<char>>,
    env_config_dir: Option<Seq<char>>,
    bigfred_data_dir: Option<Seq<char>>,
    data_dir: Option<Seq<char>>,
) -> Seq<char> {
    match override_path {
        Some(p) => p,
        None => match env_config_dir {
            Some(p) => p,
            None => {
                let data = match bigfred_data_dir {
                    Some(d) => d,
                    None => match data_dir {
                        Some(d) => d,
                        None => "/etc"@,
                    },
                };
                if data == "/etc"@ {
                    "/etc/microwaf"@
                } else {
                    path_join(data, "etc/microwaf"@)
                }
            },
        },
    }
}

/// View of an optional text.
pub open spec fn opt_view(s: Option<String>) -> Option<Seq<char>> {
    match s {
        Some(x) => Some(x@),
        None => None,
    }
}

/// Resolve the config directory from the override and the environment
/// variables read by the caller.
pub fn resolve_config_dir(
    override_path: Option<String>,
    env_config_dir: Option<String>,
    bigfred_data_dir: Option<String>,
    data_dir: Option<String>,
) -> (r: String)
    ensures
        r@ == config_dir_choice(
            opt_view(override_path),
            opt_view(env_config_dir),
            opt_view(bigfred_data_dir),
            opt_view(data_dir),
        ),
{
    if let Some(p) = override_path {
        return p;
    }
    if let Some(p) = env_config_dir {
        return p;
    }
    let data = match bigfred_data_dir {
        Some(d) => d,
        None => match data_dir {
            Some(d) => d,
            None => String::from_str("/etc"),
        },
    };
    let etc = String::from_str("/etc");
    if data == etc {
        String::from_str("/etc/microwaf")
    } else {
        join_of(data.as_str(), "etc/microwaf")
    }
}

/// Resolve the socket path: the override, else `MICROWAF_SOCKET` (read by
/// the caller), else the data directory's socket.
pub fn resolve_socket_path(override_path: Option<String>, env_socket: Option<String>, data_socket: String) -> (r: String)
    ensures
        r@ == match opt_view(override_path) {
            Some(p) => p,
            None => match opt_view(env_socket) {
                Some(p) => p,
                None => data_socket@,
            },
        },
{
    match override_path {
        Some(p) => p,
        None => match env_socket {
            Some(p) => p,
            None => data_socket,
        },
    }
}

/// Extra daemon flags (subcommand form; the same flags exist globally).
#[derive(Debug, Clone, PartialEq, Eq)]
pub struct DaemonArgs {
    /// Network interface; `any` sniffs on all NICs.
    pub interface: Option<String>,
    /// Redis URL.
    pub redis_url: Option<String>,
    /// Config directory.
    pub config_dir: Option<String>,
    /// Run mode.
    pub mode: Option<Mode>,
}

/// The first of two options that is present.
pub open spec fn first_of<T>(a: Option<T>, b: Option<T>) -> Option<T> {
    match a {
        Some(x) => Some(x),
        None => b,
    }
}

/// The daemon flags in force: a flag given to the `daemon` subcommand wins
/// over the same global flag.
pub fn merge_args(sub: Option<DaemonArgs>, global: DaemonArgs) -> (r: DaemonArgs)
    ensures
        match sub {
            None => r == global,
            Some(s) => r == (DaemonArgs {
                interface: first_of(s.interface, global.interface),
                redis_url: first_of(s.redis_url, global.redis_url),
                config_dir: first_of(s.config_dir, global.config_dir),
                mode: first_of(s.mode, global.mode),
            }),
        },
{
    match sub {
        None => global,
        Some(s) => DaemonArgs {
            interface: match s.interface {
                Some(x) => Some(x),
                None => global.interface,
            },
            redis_url: match s.redis_url {
                Some(x) => Some(x),
                None => global.redis_url,
            },
            config_dir: match s.config_dir {
                Some(x) => Some(x),
                None => global.config_dir,
            },
            mode: match s.mode {
                Some(x) => Some(x),
                None => global.mode,
            },
        },
    }
}

/// Settings the daemon runs with.
#[derive(Debug, Clone, PartialEq, Eq)]
pub struct Settings {
    /// Run mode.
    pub mode: Mode,
    /// Interface to sniff and enforce on.
    pub interface: String,
    /// Redis URL.
    pub redis_url: String,
}

/// Default Redis URL.
pub open spec fn default_redis() -> Seq<char> {
    "redis://127.0.0.1:6379/0"@
}

/// The settings: each flag wins over `daemon.yaml`, which wins over the
/// default (`any`, and the local Redis).
pub fn daemon_settings(args: &DaemonArgs, cfg: &DaemonConfig) -> (r: Settings)
    ensures
        r.mode == match args.mode {
            Some(m) => m,
            None => cfg.mode,
        },
        r.interface@ == match opt_view(args.interface) {
            Some(i) => i,
            None => match opt_view(cfg.interface) {
                Some(i) => i,
                None => "any"@,
            },
        },
        r.redis_url@ == match opt_view(args.redis_url) {
            Some(u) => u,
            None => default_redis(),
        },
{
    let mode = match args.mode {
        Some(m) => m,
        None => cfg.mode,
    };
    let interface = match &args.interface {
        Some(i) => i.clone(),
        None => match &cfg.interface {
            Some(i) => i.clone(),
            None => String::from_str("any"),
        },
    };
    let redis_url = match &args.redis_url {
        Some(u) => u.clone(),
        None => String::from_str("redis://127.0.0.1:6379/0"),
    };
    Settings { mode, interface, redis_url }
}

impl DaemonState {
    /// Take a reloaded config; the run mode stays what it was at start.
    pub fn accept_reload(&mut self, live: LiveConfig)
        ensures
            final(self).live == (LiveConfig { daemon: DaemonConfig { mode: old(self).mode, ..live.daemon }, ..live }),
            final(self).mode == old(self).mode,
            final(self).interface == old(self).interface,
            final(self).policies == old(self).policies,
            final(self).windows == old(self).windows,
            final(self).counters == old(self).counters,
            final(self).last_counters == old(self).last_counters,
            final(self).would_be == old(self).would_be,
    {
        let mut live = live;
        live.daemon.mode = self.mode;
        self.swap_live(live);
    }
}

/// A file of the config directory that startup may write.
#[derive(Debug, Clone, Copy, PartialEq, Eq, Structural)]
pub enum ConfigFile {
    /// `daemon.yaml`.
    Daemon,
    /// `sets.yaml`.
    Sets,
    /// `rules.d/00-baseline.yaml`.
    Baseline,
}

/// The live files startup seeds from the defaults: `daemon.yaml` and
/// `sets.yaml` when missing; the baseline rules only when `rules.d` holds no
/// rules file and the baseline is missing. (The `.example` siblings are
/// always rewritten.)
pub open spec fn seed_plan(daemon_exists: bool, sets_exists: bool, rules_has_yaml: bool, baseline_exists: bool) -> Seq<
    ConfigFile,
> {
    let a = if daemon_exists {
        Seq::<ConfigFile>::empty()
    } else {
        seq![ConfigFile::Daemon]
    };
    let b = if sets_exists {
        a
    } else {
        a.push(ConfigFile::Sets)
    };
    if !rules_has_yaml && !baseline_exists {
        b.push(ConfigFile::Baseline)
    } else {
        b
    }
}

/// The live files to seed, in order.
pub fn files_to_seed(daemon_exists: bool, sets_exists: bool, rules_has_yaml: bool, baseline_exists: bool) -> (r: Vec<
    ConfigFile,
>)
    ensures
        r@ == seed_plan(daemon_exists, sets_exists, rules_has_yaml, baseline_exists),
{
    let mut r: Vec<ConfigFile> = Vec::new();
    if !daemon_exists {
        r.push(ConfigFile::Daemon);
    }
    if !sets_exists {
        r.push(ConfigFile::Sets);
    }
    if !rules_has_yaml && !baseline_exists {
        r.push(ConfigFile::Baseline);
    }
    assert(r@ =~= seed_plan(daemon_exists, sets_exists, rules_has_yaml, baseline_exists));
    r
}

} // verus!
