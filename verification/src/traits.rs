//! What the group pallet asks of the server pallet.
use vstd::prelude::*;
use crate::dispatch::DispatchError;
use crate::types::AccountId;

verus! {

/// Adding groups to servers and taking them away.
pub trait ServerManager {
    /// Adds group `group_id` to server `server_id`.
    fn try_add_new_group(&mut self, server_id: u64, group_id: u64) -> Result<(), DispatchError>;

    /// Removes group `group_id` from server `server_id`.
    fn try_remove_old_group(&mut self, server_id: u64, group_id: u64) -> Result<(), DispatchError>;
}

/// Questions about servers.
pub trait GetServerInfo {
    /// The owner of a server.
    fn try_get_server_owner(&self, server_id: u64) -> Result<Option<AccountId>, DispatchError>;

    /// The creator of a server.
    fn try_get_server_creator(&self, server_id: u64) -> Result<AccountId, DispatchError>;

    /// The account of a server.
    fn try_get_server_account_id(&self, server_id: u64) -> Result<AccountId, DispatchError>;

    /// Whether a server hosts as many groups as it may.
    fn is_at_capacity(&self, server_id: u64) -> bool;

    /// Whether a server is registered.
    fn is_server_exists(&self, server_id: u64) -> bool;
}

} // verus!
