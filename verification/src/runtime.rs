//! The runtime's module accounts, which dust removal spares.
use vstd::prelude::*;
use crate::types::AccountId;

verus! {

/// The accounts of the runtime's modules: none.
pub fn get_all_module_accounts() -> (accounts: Vec<AccountId>)
    ensures
        accounts@ == Seq::<AccountId>::empty(),
{
    Vec::new()
}

/// The accounts whose dust is never removed: the module accounts.
pub struct DustRemovalWhitelist;

impl DustRemovalWhitelist {
    /// Whether `a` is spared by dust removal: it is a module account.
    pub fn contains(a: &AccountId) -> (b: bool)
        ensures
            b == Seq::<AccountId>::empty().contains(*a),
    {
        let accounts = get_all_module_accounts();
        crate::seqs::position_of(&accounts, *a).is_some()
    }
}

} // verus!
