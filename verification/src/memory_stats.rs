//! The in-memory store as a client stats store.

use vstd::prelude::*;

use crate::client::{client_parse, ClientId};
use crate::store::{batch_put, stats_table, stats_view, ClientStatsStore, MemoryStore, StoreError, StoredClientStats};

verus! {

impl ClientStatsStore for MemoryStore {
    fn load_all(&mut self) -> (r: Result<Vec<(ClientId, StoredClientStats)>, StoreError>)
        ensures
            final(self).policy_entries() == old(self).policy_entries(),
            final(self).stats_entries() == old(self).stats_entries(),
            match r {
                Ok(v) => v@.len() == old(self).stats_entries().len() && forall|i: int|
                    0 <= i < v@.len() ==> client_parse(old(self).stats_entries()[i].0@) == Some((#[trigger] v@[i]).0)
                        && stats_view(v@[i].1) == stats_view(old(self).stats_entries()[i].1),
                Err(_) => exists|i: int|
                    0 <= i < old(self).stats_entries().len() && client_parse(old(self).stats_entries()[i].0@) is None,
            },
    {
        self.load_stats()
    }

    fn put_batch(&mut self, stats: &Vec<(ClientId, StoredClientStats)>) -> (r: Result<(), StoreError>)
        ensures
            r is Ok,
            final(self).policy_entries() == old(self).policy_entries(),
            stats_table(final(self).stats_entries()) == batch_put(stats_table(old(self).stats_entries()), stats@),
    {
        self.put_stats_batch(stats)
    }
}

} // verus!
