//! The in-memory store as a manual policy store.

use vstd::prelude::*;

use crate::client::ClientId;
use crate::policy::StoredManualPolicy;
use crate::store::{dropped, loaded, upserted, ManualPolicyStore, MemoryStore, StoreError};

verus! {

impl ManualPolicyStore for MemoryStore {
    fn load_all(&mut self) -> (r: Result<Vec<(ClientId, StoredManualPolicy)>, StoreError>)
        ensures
            loaded(old(self).policy_entries(), r),
            final(self).policy_entries() == old(self).policy_entries(),
            final(self).stats_entries() == old(self).stats_entries(),
    {
        self.load_policies()
    }

    fn put(&mut self, client: &ClientId, policy: &StoredManualPolicy) -> (r: Result<(), StoreError>)
        ensures
            r is Ok,
            final(self).stats_entries() == old(self).stats_entries(),
            upserted(old(self).policy_entries(), final(self).policy_entries(), client.key_text(), *policy),
    {
        self.put_policy(client, policy)
    }

    fn remove(&mut self, client: &ClientId) -> (r: Result<(), StoreError>)
        ensures
            r is Ok,
            final(self).stats_entries() == old(self).stats_entries(),
            dropped(old(self).policy_entries(), final(self).policy_entries(), client.key_text()),
    {
        self.remove_policy(client)
    }
}

} // verus!
