//! Maps keyed by client, kept as vectors of entries with distinct clients.

use vstd::prelude::*;

use crate::assoc::{assoc_map, keys_distinct, lemma_assoc_contains, lemma_assoc_push, lemma_assoc_remove, lemma_assoc_update, lemma_assoc_value};
use crate::client::{same_client, ClientId};

verus! {

/// Client of an entry.
pub open spec fn entry_key<V>(e: (ClientId, V)) -> ClientId {
    e.0
}

/// Value of an entry.
pub open spec fn entry_value<V>(e: (ClientId, V)) -> V {
    e.1
}

/// A map from clients to values.
#[derive(Debug, Clone)]
pub struct ClientMap<V> {
    /// Entries, at most one per client, in insertion order.
    pub entries: Vec<(ClientId, V)>,
}

impl<V> View for ClientMap<V> {
    type V = Map<ClientId, V>;

    open spec fn view(&self) -> Map<ClientId, V> {
        assoc_map(self.entries@, |e: (ClientId, V)| entry_key(e), |e: (ClientId, V)| entry_value(e))
    }
}

impl<V> ClientMap<V> {
    /// At most one entry per client.
    pub open spec fn wf(&self) -> bool {
        keys_distinct(self.entries@, |e: (ClientId, V)| entry_key(e))
    }

    /// The clients, in entry order.
    pub open spec fn key_seq(&self) -> Seq<ClientId> {
        self.entries@.map_values(|e: (ClientId, V)| e.0)
    }

    /// The empty map.
    pub fn new() -> (r: ClientMap<V>)
        ensures
            r.wf(),
            r@ == Map::<ClientId, V>::empty(),
            r.entries@.len() == 0,
    {
        ClientMap { entries: Vec::new() }
    }

    /// Number of clients.
    pub fn len(&self) -> (r: usize)
        ensures
            r == self.entries@.len(),
    {
        self.entries.len()
    }

    /// Entry index of `c`, if present.
    pub fn find(&self, c: &ClientId) -> (r: Option<usize>)
        requires
            self.wf(),
        ensures
            match r {
                Some(i) => i < self.entries@.len() && self.entries@[i as int].0 == *c && self@.contains_key(*c)
                    && self@[*c] == self.entries@[i as int].1,
                None => !self@.contains_key(*c),
            },
    {
        let mut i: usize = 0;
        while i < self.entries.len()
            invariant
                i <= self.entries@.len(),
                self.wf(),
                forall|j: int| 0 <= j < i ==> self.entries@[j].0 != *c,
            decreases self.entries@.len() - i,
        {
            if same_client(&self.entries[i].0, c) {
                proof {
                    lemma_assoc_value(self.entries@, |e: (ClientId, V)| entry_key(e), |e: (ClientId, V)| entry_value(e), i as int);
                }
                return Some(i);
            }
            i = i + 1;
        }
        proof {
            lemma_assoc_contains(self.entries@, |e: (ClientId, V)| entry_key(e), |e: (ClientId, V)| entry_value(e), *c);
        }
        None
    }

    /// Whether `c` has an entry.
    pub fn contains(&self, c: &ClientId) -> (r: bool)
        requires
            self.wf(),
        ensures
            r == self@.contains_key(*c),
    {
        self.find(c).is_some()
    }

    /// The value for `c`, if any.
    pub fn get(&self, c: &ClientId) -> (r: Option<&V>)
        requires
            self.wf(),
        ensures
            match r {
                Some(v) => self@.contains_key(*c) && self@[*c] == *v,
                None => !self@.contains_key(*c),
            },
    {
        match self.find(c) {
            Some(i) => Some(&self.entries[i].1),
            None => None,
        }
    }

    /// Set the value for `c`; a new client goes last.
    pub fn insert(&mut self, c: ClientId, v: V)
        requires
            old(self).wf(),
        ensures
            final(self).wf(),
            final(self)@ == old(self)@.insert(c, v),
            old(self)@.contains_key(c) ==> final(self).key_seq() == old(self).key_seq(),
            !old(self)@.contains_key(c) ==> final(self).key_seq() == old(self).key_seq().push(c),
    {
        let ghost kf = |e: (ClientId, V)| entry_key(e);
        let ghost vf = |e: (ClientId, V)| entry_value(e);
        let ghost s0 = self.entries@;
        match self.find(&c) {
            Some(i) => {
                let _prev = self.entries.remove(i);
                self.entries.insert(i, (c, v));
                proof {
                    assert(self.entries@ =~= s0.update(i as int, (c, v)));
                    lemma_assoc_update(s0, kf, vf, i as int, (c, v));
                    assert(self.key_seq() =~= old(self).key_seq());
                }
            },
            None => {
                self.entries.push((c, v));
                proof {
                    lemma_assoc_push(s0, kf, vf, (c, v));
                    assert forall|j: int| 0 <= j < s0.len() implies kf(s0[j]) != c by {
                        lemma_assoc_contains(s0, kf, vf, c);
                    }
                    assert(self.key_seq() =~= old(self).key_seq().push(c));
                }
            },
        }
    }

    /// Remove `c`, giving back its value.
    pub fn remove(&mut self, c: &ClientId) -> (r: Option<V>)
        requires
            old(self).wf(),
        ensures
            final(self).wf(),
            final(self)@ == old(self)@.remove(*c),
            match r {
                Some(v) => old(self)@.contains_key(*c) && old(self)@[*c] == v,
                None => !old(self)@.contains_key(*c),
            },
    {
        let ghost kf = |e: (ClientId, V)| entry_key(e);
        let ghost vf = |e: (ClientId, V)| entry_value(e);
        let ghost s0 = self.entries@;
        match self.find(c) {
            Some(i) => {
                let (_k, v) = self.entries.remove(i);
                proof {
                    lemma_assoc_remove(s0, kf, vf, i as int);
                }
                Some(v)
            },
            None => {
                proof {
                    assert(old(self)@.remove(*c) =~= old(self)@);
                }
                None
            },
        }
    }
}

/// Every client in an entry list is a key of the map it denotes.
pub proof fn lemma_entry_in_map<V>(m: ClientMap<V>, i: int)
    requires
        m.wf(),
        0 <= i < m.entries@.len(),
    ensures
        m@.contains_key(m.entries@[i].0),
        m@[m.entries@[i].0] == m.entries@[i].1,
{
    lemma_assoc_value(m.entries@, |e: (ClientId, V)| entry_key(e), |e: (ClientId, V)| entry_value(e), i);
}

/// A key of the map is the client of some entry.
pub proof fn lemma_map_key_in_entries<V>(m: ClientMap<V>, c: ClientId)
    requires
        m@.contains_key(c),
    ensures
        exists|i: int| 0 <= i < m.entries@.len() && m.entries@[i].0 == c,
{
    lemma_assoc_contains(m.entries@, |e: (ClientId, V)| entry_key(e), |e: (ClientId, V)| entry_value(e), c);
}

} // verus!
