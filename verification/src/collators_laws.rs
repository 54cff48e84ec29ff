//! How the calls of the collators pallet combine.
use vstd::prelude::*;
use crate::collators::{accounts_of, CollatorInfo, CollatorsState, NimbusId};
use crate::dispatch::{is_authority, DispatchError, Origin};
use crate::seqs::lemma_without_contains;
use crate::types::AccountId;

verus! {

/// While proof of stake is on, the set of collators cannot be changed by
/// hand: setting, adding and removing collators are all refused.
pub proof fn pos_refuses_manual_changes(s: CollatorsState, origin: Origin, infos: Seq<CollatorInfo>, info: CollatorInfo, who: AccountId)
    requires
        !s.is_closed_pos,
    ensures
        s.set_collators(origin, infos) is Err,
        s.add_collator(origin, info) is Err,
        s.remove_collator(origin, who) is Err,
{
}

/// Closing proof of stake and opening it again leaves the pallet as it
/// was, but for the two events.
pub proof fn close_then_open_pos(s: CollatorsState)
    requires
        !s.is_closed_pos,
    ensures
        s.close_pos(Origin::Root) is Ok,
        s.close_pos(Origin::Root)->Ok_0.open_pos(Origin::Root) is Ok,
        ({
            let s2 = s.close_pos(Origin::Root)->Ok_0.open_pos(Origin::Root)->Ok_0;
            &&& s2.is_closed_pos == s.is_closed_pos
            &&& s2.collators == s.collators
            &&& s2.mapping == s.mapping
        }),
{
}

/// An added collator can author, and its key maps to it.
pub proof fn added_collator_can_author(s: CollatorsState, origin: Origin, info: CollatorInfo)
    requires
        s.add_collator(origin, info) is Ok,
    ensures
        s.add_collator(origin, info)->Ok_0.collators.contains(info.validator),
        s.add_collator(origin, info)->Ok_0.mapping[info.nimbus_id] == info.validator,
{
    let c = s.collators;
    assert(c.push(info.validator)[c.len() as int] == info.validator);
}

/// A removed collator can no longer author; the other collators still can.
pub proof fn removed_collator_cannot_author(s: CollatorsState, origin: Origin, who: AccountId, other: AccountId)
    requires
        s.remove_collator(origin, who) is Ok,
    ensures
        !s.remove_collator(origin, who)->Ok_0.collators.contains(who),
        other != who && s.collators.contains(other) ==> s.remove_collator(origin, who)->Ok_0.collators.contains(other),
{
    lemma_without_contains(s.collators, who, who);
    lemma_without_contains(s.collators, who, other);
}

/// Under proof of stake a new session's validators become exactly the set
/// of collators; under proof of authority the set stays as it was.
pub proof fn new_session_sets_collators(s: CollatorsState, validators: Seq<(AccountId, NimbusId)>)
    requires
        validators.len() > 0,
    ensures
        !s.is_closed_pos ==> s.on_new_session(validators).collators == accounts_of(validators),
        s.is_closed_pos ==> s.on_new_session(validators).collators == s.collators,
        s.on_new_session(validators).is_closed_pos == s.is_closed_pos,
{
}


/// Only the chain's authority may call the collators pallet: every other
/// origin is refused as a bad origin.
pub proof fn only_the_authority_calls(s: CollatorsState, origin: Origin, infos: Seq<CollatorInfo>, info: CollatorInfo, who: AccountId)
    requires
        !is_authority(origin),
    ensures
        s.close_pos(origin) == Err::<CollatorsState, DispatchError>(DispatchError::BadOrigin),
        s.open_pos(origin) == Err::<CollatorsState, DispatchError>(DispatchError::BadOrigin),
        s.set_collators(origin, infos) == Err::<CollatorsState, DispatchError>(DispatchError::BadOrigin),
        s.add_collator(origin, info) == Err::<CollatorsState, DispatchError>(DispatchError::BadOrigin),
        s.remove_collator(origin, who) == Err::<CollatorsState, DispatchError>(DispatchError::BadOrigin),
{
}

} // verus!
