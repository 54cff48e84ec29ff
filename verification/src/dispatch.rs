//! Who calls, and why a call is refused.
use vstd::prelude::*;
use crate::types::AccountId;

verus! {

/// The origin of a call.
#[derive(Clone, Copy, Debug, PartialEq, Eq)]
pub enum Origin {
    /// The chain itself, with every right.
    Root,
    /// A transaction signed by an account.
    Signed(AccountId),
    /// A motion of the council that `ayes` of its `members` voted for.
    Members(u32, u32),
    /// An unsigned transaction.
    Unsigned,
}

/// The account that signed `origin`, or `None` if it is not signed.
pub open spec fn signer(origin: Origin) -> Option<AccountId> {
    match origin {
        Origin::Signed(who) => Some(who),
        _ => None,
    }
}

/// The signer of `origin`; a call that is not signed is refused.
pub fn ensure_signed(origin: Origin) -> (r: Result<AccountId, DispatchError>)
    ensures
        match signer(origin) {
            Some(who) => r == Ok::<AccountId, DispatchError>(who),
            None => r == Err::<AccountId, DispatchError>(DispatchError::BadOrigin),
        },
{
    match origin {
        Origin::Signed(who) => Ok(who),
        _ => Err(DispatchError::BadOrigin),
    }
}

/// Whether `origin` is root, or a council motion that at least half of
/// the council voted for.
pub open spec fn is_authority(origin: Origin) -> bool {
    match origin {
        Origin::Root => true,
        Origin::Members(ayes, members) => ayes * 2 >= members,
        _ => false,
    }
}

/// Refuses every origin but root and a council motion with at least half
/// of the council's votes.
pub fn ensure_authority(origin: Origin) -> (r: Result<(), DispatchError>)
    ensures
        is_authority(origin) ==> r == Ok::<(), DispatchError>(()),
        !is_authority(origin) ==> r == Err::<(), DispatchError>(DispatchError::BadOrigin),
{
    match origin {
        Origin::Root => Ok(()),
        Origin::Members(ayes, members) => {
            if (ayes as u64) * 2 >= members as u64 {
                Ok(())
            } else {
                Err(DispatchError::BadOrigin)
            }
        },
        _ => Err(DispatchError::BadOrigin),
    }
}

/// A call's result and effect are those that `rule` gives: a call the rule
/// accepts returns `Ok` and reaches the rule's next state; a call the rule
/// refuses returns the rule's error and changes nothing.
pub open spec fn follows<S>(r: Result<(), DispatchError>, pre: S, post: S, rule: Result<S, DispatchError>) -> bool {
    match rule {
        Ok(next) => r is Ok && post == next,
        Err(e) => r == Err::<(), DispatchError>(e) && post == pre,
    }
}

/// As `follows`, for a call that, when refused, leaves the state
/// `refused` behind rather than the state it started from: a caller that
/// refuses in its turn rolls that back.
pub open spec fn follows_refused<S>(r: Result<(), DispatchError>, post: S, rule: Result<S, DispatchError>, refused: S) -> bool {
    match rule {
        Ok(next) => r is Ok && post == next,
        Err(e) => r == Err::<(), DispatchError>(e) && post == refused,
    }
}

/// As `follows`, for a call that also returns values: an accepted call
/// returns the values the rule gives.
pub open spec fn follows_with<S, O>(r: Result<Vec<O>, DispatchError>, pre: S, post: S, rule: Result<(S, Seq<O>), DispatchError>) -> bool {
    match rule {
        Ok((next, out)) => r is Ok && r->Ok_0@ == out && post == next,
        Err(e) => r is Err && r->Err_0 == e && post == pre,
    }
}

/// Why a call was refused.
#[derive(Clone, Copy, Debug, PartialEq, Eq)]
pub enum DispatchError {
    /// The origin may not make this call.
    BadOrigin,
    /// A currency operation failed; the number is the currency module's error.
    Currency(u8),
    /// The server pallet refused.
    Server(crate::server::Error),
    /// The group pallet refused.
    Group(crate::group::Error),
    /// The collators pallet refused.
    Collators(crate::collators::Error),
}

} // verus!
