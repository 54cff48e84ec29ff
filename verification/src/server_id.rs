//! The account kind of servers: a server's index tagged with `serv`.
use vstd::prelude::*;
use crate::account::{derived_account, into_account_truncating};

verus! {

/// A server index seen as the source of the server's own account.
#[derive(Clone, Copy, Debug, PartialEq, Eq)]
pub struct ServerId(pub u64);

/// The tag of server accounts, the bytes of `serv`.
pub open spec fn server_type_id() -> [u8; 4] {
    [0x73u8, 0x65u8, 0x72u8, 0x76u8]
}

impl ServerId {
    /// The tag of server accounts, the bytes of `serv`.
    pub fn type_id() -> (t: [u8; 4])
        ensures
            t == server_type_id(),
    {
        [0x73u8, 0x65u8, 0x72u8, 0x76u8]
    }

    /// The account of this server.
    pub fn into_account_truncating(&self) -> (account: u64)
        ensures
            account == derived_account(server_type_id(), self.0),
    {
        into_account_truncating(Self::type_id(), self.0)
    }
}

impl From<u64> for ServerId {
    fn from(value: u64) -> (r: Self) {
        ServerId(value)
    }
}

impl vstd::std_specs::convert::FromSpecImpl<u64> for ServerId {
    open spec fn obeys_from_spec() -> bool {
        true
    }

    open spec fn from_spec(v: u64) -> Self {
        ServerId(v)
    }
}

} // verus!
