//! Enforcement abstraction (real BPF vs permissive log).

use vstd::prelude::*;

use crate::client::ClientId;
use crate::client_map::{lemma_entry_in_map, lemma_map_key_in_entries, ClientMap};
use crate::policy::EffectiveAction;
use crate::text::{ascii_lower, concat3, text_is, to_ascii_lowercase};

verus! {

/// Daemon run mode (startup only).
#[derive(Debug, Clone, Copy, PartialEq, Eq, Structural)]
pub enum Mode {
    /// Real enforcement via eBPF.
    Enforce,
    /// Detect/log only.
    Permissive,
}

impl Default for Mode {
    fn default() -> (r: Mode)
        ensures
            r == Mode::Enforce,
    {
        Mode::Enforce
    }
}

impl Mode {
    /// Wire name.
    pub open spec fn name(self) -> Seq<char> {
        match self {
            Mode::Enforce => "enforce"@,
            Mode::Permissive => "permissive"@,
        }
    }

    /// The mode a (lower-cased) word names.
    pub open spec fn from_word(t: Seq<char>) -> Option<Mode> {
        if t == "enforce"@ {
            Some(Mode::Enforce)
        } else if t == "permissive"@ {
            Some(Mode::Permissive)
        } else {
            None
        }
    }

    /// Wire string.
    pub fn as_str(self) -> (r: &'static str)
        ensures
            r@ == self.name(),
    {
        match self {
            Mode::Enforce => "enforce",
            Mode::Permissive => "permissive",
        }
    }

    /// Parse a mode, ignoring ASCII case; the error names the lower-cased word.
    pub fn parse(s: &str) -> (r: Result<Mode, String>)
        ensures
            match r {
                Ok(m) => Mode::from_word(ascii_lower(s@)) == Some(m),
                Err(e) => Mode::from_word(ascii_lower(s@)) is None && e@ == "invalid mode `"@ + ascii_lower(s@)
                    + "` (expected enforce|permissive)"@,
            },
    {
        let t = to_ascii_lowercase(s);
        if text_is(&t, "enforce") {
            Ok(Mode::Enforce)
        } else if text_is(&t, "permissive") {
            Ok(Mode::Permissive)
        } else {
            Err(concat3("invalid mode `", t.as_str(), "` (expected enforce|permissive)"))
        }
    }
}

impl std::str::FromStr for Mode {
    type Err = String;

    fn from_str(s: &str) -> (r: Result<Mode, String>)
        ensures
            match r {
                Ok(m) => Mode::from_word(ascii_lower(s@)) == Some(m),
                Err(e) => Mode::from_word(ascii_lower(s@)) is None && e@ == "invalid mode `"@ + ascii_lower(s@)
                    + "` (expected enforce|permissive)"@,
            },
    {
        Mode::parse(s)
    }
}

/// Applies effective policy to a client (or records would-be action).
pub trait Enforcer {
    /// Apply policy for `client`.
    fn apply(&mut self, client: ClientId, action: EffectiveAction);

    /// Clear policy for `client`.
    fn clear(&mut self, client: ClientId);
}

/// Records would-be actions without enforcing.
#[derive(Debug)]
pub struct PermissiveLog {
    /// Last would-be action per client.
    inner: ClientMap<EffectiveAction>,
}

impl PermissiveLog {
    #[verifier::type_invariant]
    spec fn log_wf(&self) -> bool {
        self.inner.wf()
    }

    /// The recorded action of each client.
    pub closed spec fn contents(&self) -> Map<ClientId, EffectiveAction> {
        self.inner@
    }

    /// Nothing recorded.
    pub fn new() -> (r: PermissiveLog)
        ensures
            r.contents() == Map::<ClientId, EffectiveAction>::empty(),
    {
        PermissiveLog { inner: ClientMap::new() }
    }

    /// Record `action` as the would-be action of `client`.
    pub fn record(&mut self, client: ClientId, action: EffectiveAction)
        ensures
            final(self).contents() == old(self).contents().insert(client, action),
    {
        proof {
            use_type_invariant(&*self);
        }
        let mut m = ClientMap::new();
        std::mem::swap(&mut m, &mut self.inner);
        m.insert(client, action);
        self.inner = m;
    }

    /// Forget `client`.
    pub fn forget(&mut self, client: ClientId)
        ensures
            final(self).contents() == old(self).contents().remove(client),
    {
        proof {
            use_type_invariant(&*self);
        }
        let mut m = ClientMap::new();
        std::mem::swap(&mut m, &mut self.inner);
        m.remove(&client);
        self.inner = m;
    }

    /// Snapshot of would-be actions, one entry per client.
    pub fn snapshot(&self) -> (r: Vec<(ClientId, EffectiveAction)>)
        ensures
            forall|i: int, j: int| 0 <= i < j < r@.len() ==> r@[i].0 != r@[j].0,
            forall|i: int| 0 <= i < r@.len() ==> self.contents().contains_key(#[trigger] r@[i].0)
                && self.contents()[r@[i].0] == r@[i].1,
            forall|c: ClientId| #[trigger] self.contents().contains_key(c) ==> exists|i: int|
                0 <= i < r@.len() && r@[i].0 == c,
    {
        proof {
            use_type_invariant(self);
            assert forall|c: ClientId| #[trigger] self.contents().contains_key(c) implies exists|i: int|
                0 <= i < self.inner.entries@.len() && self.inner.entries@[i].0 == c by {
                lemma_map_key_in_entries(self.inner, c);
            }
            assert forall|i: int| 0 <= i < self.inner.entries@.len() implies self.contents().contains_key(
                #[trigger] self.inner.entries@[i].0,
            ) && self.contents()[self.inner.entries@[i].0] == self.inner.entries@[i].1 by {
                lemma_entry_in_map(self.inner, i);
            }
        }
        copy_actions(&self.inner)
    }

    /// Get one client.
    pub fn get(&self, client: &ClientId) -> (r: Option<EffectiveAction>)
        ensures
            r == (if self.contents().contains_key(*client) {
                Some(self.contents()[*client])
            } else {
                None
            }),
    {
        proof {
            use_type_invariant(self);
        }
        match self.inner.get(client) {
            Some(a) => Some(*a),
            None => None,
        }
    }
}

impl Default for PermissiveLog {
    fn default() -> (r: PermissiveLog)
        ensures
            r.contents() == Map::<ClientId, EffectiveAction>::empty(),
    {
        PermissiveLog::new()
    }
}

/// A copy of a client-keyed list of actions.
fn copy_actions(m: &ClientMap<EffectiveAction>) -> (r: Vec<(ClientId, EffectiveAction)>)
    ensures
        r@ == m.entries@,
{
    let mut out: Vec<(ClientId, EffectiveAction)> = Vec::new();
    let mut i: usize = 0;
    while i < m.entries.len()
        invariant
            i <= m.entries@.len(),
            out@ == m.entries@.subrange(0, i as int),
        decreases m.entries@.len() - i,
    {
        out.push(m.entries[i]);
        i = i + 1;
    }
    assert(out@ =~= m.entries@);
    out
}

/// Permissive enforcer: writes to [`PermissiveLog`] only.
#[derive(Debug)]
pub struct PermissiveEnforcer {
    /// Shared log.
    pub log: PermissiveLog,
}

impl Default for PermissiveEnforcer {
    fn default() -> (r: PermissiveEnforcer)
        ensures
            r.log.contents() == Map::<ClientId, EffectiveAction>::empty(),
    {
        PermissiveEnforcer { log: PermissiveLog::new() }
    }
}

impl Enforcer for PermissiveEnforcer {
    fn apply(&mut self, client: ClientId, action: EffectiveAction)
        ensures
            final(self).log.contents() == old(self).log.contents().insert(client, action),
    {
        self.log.record(client, action);
    }

    fn clear(&mut self, client: ClientId)
        ensures
            final(self).log.contents() == old(self).log.contents().remove(client),
    {
        self.log.forget(client);
    }
}

/// In-memory fake enforcer for tests.
#[derive(Debug)]
pub struct FakeEnforcer {
    /// Applied actions.
    pub applied: PermissiveLog,
}

impl Default for FakeEnforcer {
    fn default() -> (r: FakeEnforcer)
        ensures
            r.applied.contents() == Map::<ClientId, EffectiveAction>::empty(),
    {
        FakeEnforcer { applied: PermissiveLog::new() }
    }
}

impl Enforcer for FakeEnforcer {
    fn apply(&mut self, client: ClientId, action: EffectiveAction)
        ensures
            final(self).applied.contents() == old(self).applied.contents().insert(client, action),
    {
        self.applied.record(client, action);
    }

    fn clear(&mut self, client: ClientId)
        ensures
            final(self).applied.contents() == old(self).applied.contents().remove(client),
    {
        self.applied.forget(client);
    }
}

} // verus!
