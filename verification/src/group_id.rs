//! The account kind of groups: a group's index tagged with `grou`.
use vstd::prelude::*;
use crate::account::{derived_account, into_account_truncating};

verus! {

/// A group index seen as the source of the group's own account.
#[derive(Clone, Copy, Debug, PartialEq, Eq)]
pub struct GroupId(pub u64);

/// The tag of group accounts, the bytes of `grou`.
pub open spec fn group_type_id() -> [u8; 4] {
    [0x67u8, 0x72u8, 0x6fu8, 0x75u8]
}

impl GroupId {
    /// The tag of group accounts, the bytes of `grou`.
    pub fn type_id() -> (t: [u8; 4])
        ensures
            t == group_type_id(),
    {
        [0x67u8, 0x72u8, 0x6fu8, 0x75u8]
    }

    /// The account of this group.
    pub fn into_account_truncating(&self) -> (account: u64)
        ensures
            account == derived_account(group_type_id(), self.0),
    {
        into_account_truncating(Self::type_id(), self.0)
    }
}

impl From<u64> for GroupId {
    fn from(value: u64) -> (r: Self) {
        GroupId(value)
    }
}

impl vstd::std_specs::convert::FromSpecImpl<u64> for GroupId {
    open spec fn obeys_from_spec() -> bool {
        true
    }

    open spec fn from_spec(v: u64) -> Self {
        GroupId(v)
    }
}

} // verus!
