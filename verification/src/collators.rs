//! The collators pallet: the set of accounts that author blocks, and the
//! consensus keys they author with.  Under proof of stake each session
//! brings the set in; under proof of authority the chain's authority sets
//! it by hand.
use vstd::prelude::*;
use crate::dispatch::{ensure_authority, follows, is_authority, DispatchError, Origin};
use crate::seqs::{retain_not_equal, without};
use crate::types::AccountId;

verus! {

broadcast use vstd::array::group_array_axioms;

/// The public consensus key with which a collator authors blocks.
#[derive(Clone, Copy, Debug, PartialEq, Eq)]
pub struct NimbusId {
    pub key: [u8; 32],
}

/// An account that authors blocks, with its consensus key.
#[derive(Clone, Copy, Debug, PartialEq, Eq)]
pub struct CollatorInfo {
    pub validator: AccountId,
    pub nimbus_id: NimbusId,
}

/// What the collators pallet announces.
#[derive(Clone, Debug, PartialEq, Eq)]
pub enum Event {
    ClosePoS,
    OpenPoS,
    SetCollators { collators: Vec<AccountId> },
    AddCollator { new_collator: AccountId },
    RemoveCollator { old_collator: AccountId },
}

/// An event as plain values.
pub enum EventView {
    ClosePoS,
    OpenPoS,
    SetCollators { collators: Seq<AccountId> },
    AddCollator { new_collator: AccountId },
    RemoveCollator { old_collator: AccountId },
}

impl View for Event {
    type V = EventView;

    open spec fn view(&self) -> EventView {
        match self {
            Event::ClosePoS => EventView::ClosePoS,
            Event::OpenPoS => EventView::OpenPoS,
            Event::SetCollators { collators } => EventView::SetCollators { collators: collators@ },
            Event::AddCollator { new_collator } => EventView::AddCollator { new_collator: *new_collator },
            Event::RemoveCollator { old_collator } => EventView::RemoveCollator { old_collator: *old_collator },
        }
    }
}

/// Why the collators pallet refuses a call.
#[derive(Clone, Copy, Debug, PartialEq, Eq)]
pub enum Error {
    NoneValue,
    StorageOverflow,
    /// Proof of stake is on: the set can only change by hand under proof of
    /// authority.
    ShouldUnderPoA,
    /// The account is a collator already.
    AlreadyCollator,
    /// The consensus key belongs to an account already.
    NimbusIdInUse,
    /// The set of collators would be left empty.
    NoCollatorLeft,
}

/// The associations of consensus keys to accounts that `pairs` make, a
/// later one overriding an earlier one for the same key, added to `m`.
pub open spec fn insert_all(m: Map<NimbusId, AccountId>, pairs: Seq<(NimbusId, AccountId)>) -> Map<NimbusId, AccountId>
    decreases pairs.len(),
{
    if pairs.len() == 0 {
        m
    } else {
        insert_all(m, pairs.drop_last()).insert(pairs.last().0, pairs.last().1)
    }
}

/// Adding associations in two runs is adding them in one.
pub proof fn lemma_insert_all_concat(m: Map<NimbusId, AccountId>, a: Seq<(NimbusId, AccountId)>, b: Seq<(NimbusId, AccountId)>)
    ensures
        insert_all(m, a + b) == insert_all(insert_all(m, a), b),
    decreases b.len(),
{
    if b.len() == 0 {
        assert(a + b =~= a);
    } else {
        assert((a + b).drop_last() =~= a + b.drop_last());
        lemma_insert_all_concat(m, a, b.drop_last());
    }
}

/// The key and the account of each of `validators`.
pub open spec fn key_pairs(validators: Seq<(AccountId, NimbusId)>) -> Seq<(NimbusId, AccountId)> {
    validators.map_values(|v: (AccountId, NimbusId)| (v.1, v.0))
}

/// The accounts of `validators`.
pub open spec fn accounts_of(validators: Seq<(AccountId, NimbusId)>) -> Seq<AccountId> {
    validators.map_values(|v: (AccountId, NimbusId)| v.0)
}

/// The key and the account of each of `infos`.
pub open spec fn info_pairs(infos: Seq<CollatorInfo>) -> Seq<(NimbusId, AccountId)> {
    infos.map_values(|c: CollatorInfo| (c.nimbus_id, c.validator))
}

/// The accounts of `infos`.
pub open spec fn info_accounts(infos: Seq<CollatorInfo>) -> Seq<AccountId> {
    infos.map_values(|c: CollatorInfo| c.validator)
}

/// The collators pallet's storage and the events it has deposited.  The
/// key mapping is kept as the associations made, in order: a key maps to
/// the account of its latest association.
pub struct Pallet {
    pub is_closed_pos: bool,
    pub collators: Vec<AccountId>,
    pub mapping: Vec<(NimbusId, AccountId)>,
    pub events: Vec<Event>,
}

/// The collators pallet as plain values.
pub struct CollatorsState {
    pub is_closed_pos: bool,
    pub collators: Seq<AccountId>,
    pub mapping: Map<NimbusId, AccountId>,
    pub events: Seq<EventView>,
}

impl View for Pallet {
    type V = CollatorsState;

    open spec fn view(&self) -> CollatorsState {
        CollatorsState {
            is_closed_pos: self.is_closed_pos,
            collators: self.collators@,
            mapping: insert_all(Map::empty(), self.mapping@),
            events: self.events@.map_values(|e: Event| e@),
        }
    }
}

/// The associations that a chain starts with.
pub struct GenesisConfig {
    pub mapping: Vec<(AccountId, NimbusId)>,
}

impl CollatorsState {
    /// The authority turns proof of stake off.
    pub open spec fn close_pos(self, origin: Origin) -> Result<CollatorsState, DispatchError> {
        if !is_authority(origin) {
            Err(DispatchError::BadOrigin)
        } else {
            Ok(CollatorsState { is_closed_pos: true, events: self.events.push(EventView::ClosePoS), ..self })
        }
    }

    /// The authority turns proof of stake back on.
    pub open spec fn open_pos(self, origin: Origin) -> Result<CollatorsState, DispatchError> {
        if !is_authority(origin) {
            Err(DispatchError::BadOrigin)
        } else {
            Ok(CollatorsState { is_closed_pos: false, events: self.events.push(EventView::OpenPoS), ..self })
        }
    }

    /// Under proof of authority, the authority replaces the set of collators
    /// with `infos`; their keys join the key mapping, which keeps the
    /// associations made before.
    pub open spec fn set_collators(self, origin: Origin, infos: Seq<CollatorInfo>) -> Result<CollatorsState, DispatchError> {
        if !is_authority(origin) {
            Err(DispatchError::BadOrigin)
        } else if !self.is_closed_pos {
            Err(DispatchError::Collators(Error::ShouldUnderPoA))
        } else {
            Ok(CollatorsState {
                collators: info_accounts(infos),
                mapping: insert_all(self.mapping, info_pairs(infos)),
                events: self.events.push(EventView::SetCollators { collators: info_accounts(infos) }),
                ..self
            })
        }
    }

    /// Under proof of authority, the authority adds a collator that is not
    /// one yet, with a key no account has.
    pub open spec fn add_collator(self, origin: Origin, info: CollatorInfo) -> Result<CollatorsState, DispatchError> {
        if !is_authority(origin) {
            Err(DispatchError::BadOrigin)
        } else if !self.is_closed_pos {
            Err(DispatchError::Collators(Error::ShouldUnderPoA))
        } else if self.collators.contains(info.validator) {
            Err(DispatchError::Collators(Error::AlreadyCollator))
        } else if self.mapping.contains_key(info.nimbus_id) {
            Err(DispatchError::Collators(Error::NimbusIdInUse))
        } else {
            Ok(CollatorsState {
                collators: self.collators.push(info.validator),
                mapping: self.mapping.insert(info.nimbus_id, info.validator),
                events: self.events.push(EventView::AddCollator { new_collator: info.validator }),
                ..self
            })
        }
    }

    /// Under proof of authority, the authority removes an account from the
    /// set of collators, unless that would leave the set empty.
    pub open spec fn remove_collator(self, origin: Origin, old_collator: AccountId) -> Result<CollatorsState, DispatchError> {
        if !is_authority(origin) {
            Err(DispatchError::BadOrigin)
        } else if !self.is_closed_pos {
            Err(DispatchError::Collators(Error::ShouldUnderPoA))
        } else if without(self.collators, old_collator).len() == 0 {
            Err(DispatchError::Collators(Error::NoCollatorLeft))
        } else {
            Ok(CollatorsState {
                collators: without(self.collators, old_collator),
                events: self.events.push(EventView::RemoveCollator { old_collator }),
                ..self
            })
        }
    }

    /// The first session's validators join the set, with their keys.
    pub open spec fn on_genesis_session(self, validators: Seq<(AccountId, NimbusId)>) -> CollatorsState {
        CollatorsState {
            collators: self.collators + accounts_of(validators),
            mapping: insert_all(self.mapping, key_pairs(validators)),
            ..self
        }
    }

    /// A new session's validators, if there are any, become the set of
    /// collators with their keys under proof of stake; under proof of
    /// authority only their keys are taken in.
    pub open spec fn on_new_session(self, validators: Seq<(AccountId, NimbusId)>) -> CollatorsState {
        if validators.len() == 0 {
            self
        } else if !self.is_closed_pos {
            CollatorsState {
                collators: accounts_of(validators),
                mapping: insert_all(Map::empty(), key_pairs(validators)),
                ..self
            }
        } else {
            CollatorsState { mapping: insert_all(self.mapping, key_pairs(validators)), ..self }
        }
    }
}

/// Whether two consensus keys are the same.
pub fn nimbus_eq(a: &NimbusId, b: &NimbusId) -> (r: bool)
    ensures
        r == (*a == *b),
{
    crate::types::eq_bytes32(&a.key, &b.key)
}

/// Where `k` was associated last in `pairs`, the account it maps to.
proof fn lemma_insert_all_last(pairs: Seq<(NimbusId, AccountId)>, k: NimbusId, i: int)
    requires
        0 <= i < pairs.len(),
        pairs[i].0 == k,
        forall|j: int| i < j < pairs.len() ==> pairs[j].0 != k,
    ensures
        insert_all(Map::empty(), pairs).contains_key(k),
        insert_all(Map::empty(), pairs)[k] == pairs[i].1,
    decreases pairs.len(),
{
    if i < pairs.len() - 1 {
        lemma_insert_all_last(pairs.drop_last(), k, i);
    }
}

/// A key never associated in `pairs` maps to nothing.
proof fn lemma_insert_all_absent(pairs: Seq<(NimbusId, AccountId)>, k: NimbusId)
    requires
        forall|j: int| 0 <= j < pairs.len() ==> pairs[j].0 != k,
    ensures
        !insert_all(Map::empty(), pairs).contains_key(k),
    decreases pairs.len(),
{
    if pairs.len() > 0 {
        lemma_insert_all_absent(pairs.drop_last(), k);
    }
}

impl Pallet {
    /// Whether proof of stake is off.
    pub fn is_closed_pos(&self) -> (b: bool)
        ensures
            b == self@.is_closed_pos,
    {
        self.is_closed_pos
    }

    /// The set of collators.
    pub fn get_collators(&self) -> (v: Vec<AccountId>)
        ensures
            v@ == self@.collators,
    {
        self.collators.clone()
    }

    /// The account that authors with key `author`, if any.
    pub fn account_id_of(&self, author: &NimbusId) -> (r: Option<AccountId>)
        ensures
            r == (if self@.mapping.contains_key(*author) { Some(self@.mapping[*author]) } else { None::<AccountId> }),
    {
        let mut i: usize = self.mapping.len();
        while i > 0
            invariant
                i <= self.mapping@.len(),
                forall|j: int| i <= j < self.mapping@.len() ==> self.mapping@[j].0 != *author,
            decreases i,
        {
            i -= 1;
            if nimbus_eq(&self.mapping[i].0, author) {
                proof {
                    lemma_insert_all_last(self.mapping@, *author, i as int);
                }
                return Some(self.mapping[i].1);
            }
        }
        proof {
            lemma_insert_all_absent(self.mapping@, *author);
        }
        None
    }

    /// The account that authors with key `author`, if any.
    pub fn lookup_account(&self, author: &NimbusId) -> (r: Option<AccountId>)
        ensures
            r == (if self@.mapping.contains_key(*author) { Some(self@.mapping[*author]) } else { None::<AccountId> }),
    {
        self.account_id_of(author)
    }

    /// Whether `author` may author a block: it is a collator.
    pub fn can_author(&self, author: &AccountId, slot: &u32) -> (b: bool)
        ensures
            b == self@.collators.contains(*author),
    {
        crate::seqs::position_of(&self.collators, *author).is_some()
    }

    /// Turns proof of stake off.
    pub fn close_pos(&mut self, origin: Origin) -> (r: Result<(), DispatchError>)
        ensures
            follows(r, old(self)@, final(self)@, old(self)@.close_pos(origin)),
    {
        match ensure_authority(origin) {
            Ok(()) => {},
            Err(e) => return Err(e),
        }
        self.is_closed_pos = true;
        self.events.push(Event::ClosePoS);
        proof {
            assert(self@.events =~= old(self)@.events.push(EventView::ClosePoS));
        }
        Ok(())
    }

    /// Turns proof of stake back on.
    pub fn open_pos(&mut self, origin: Origin) -> (r: Result<(), DispatchError>)
        ensures
            follows(r, old(self)@, final(self)@, old(self)@.open_pos(origin)),
    {
        match ensure_authority(origin) {
            Ok(()) => {},
            Err(e) => return Err(e),
        }
        self.is_closed_pos = false;
        self.events.push(Event::OpenPoS);
        proof {
            assert(self@.events =~= old(self)@.events.push(EventView::OpenPoS));
        }
        Ok(())
    }

    /// Replaces the set of collators with `collators`, and takes their keys
    /// into the key mapping.
    pub fn set_collators(&mut self, origin: Origin, collators: Vec<CollatorInfo>) -> (r: Result<(), DispatchError>)
        ensures
            follows(r, old(self)@, final(self)@, old(self)@.set_collators(origin, collators@)),
    {
        match ensure_authority(origin) {
            Ok(()) => {},
            Err(e) => return Err(e),
        }
        if !self.is_closed_pos {
            return Err(DispatchError::Collators(Error::ShouldUnderPoA));
        }
        let mut accounts: Vec<AccountId> = Vec::new();
        let ghost old_mapping = self.mapping@;
        let mut i: usize = 0;
        while i < collators.len()
            invariant
                i <= collators@.len(),
                accounts@ == info_accounts(collators@.take(i as int)),
                self.mapping@ == old_mapping + info_pairs(collators@.take(i as int)),
                old_mapping == old(self).mapping@,
                self.events@ == old(self).events@,
                self.collators@ == old(self).collators@,
                self.is_closed_pos == old(self).is_closed_pos,
            decreases collators@.len() - i,
        {
            let c = collators[i];
            accounts.push(c.validator);
            self.mapping.push((c.nimbus_id, c.validator));
            proof {
                assert(accounts@ =~= info_accounts(collators@.take(i + 1)));
                assert(self.mapping@ =~= old_mapping + info_pairs(collators@.take(i + 1)));
            }
            i += 1;
        }
        proof {
            assert(collators@.take(collators@.len() as int) =~= collators@);
            lemma_insert_all_concat(Map::empty(), old_mapping, info_pairs(collators@));
        }
        let announced = accounts.clone();
        self.collators = accounts;
        self.events.push(Event::SetCollators { collators: announced });
        proof {
            assert(self@.events =~= old(self)@.events.push(EventView::SetCollators { collators: info_accounts(collators@) }));
        }
        Ok(())
    }

    /// Adds a collator with its key.
    pub fn add_collator(&mut self, origin: Origin, new_collator: CollatorInfo) -> (r: Result<(), DispatchError>)
        ensures
            follows(r, old(self)@, final(self)@, old(self)@.add_collator(origin, new_collator)),
    {
        match ensure_authority(origin) {
            Ok(()) => {},
            Err(e) => return Err(e),
        }
        if !self.is_closed_pos {
            return Err(DispatchError::Collators(Error::ShouldUnderPoA));
        }
        if crate::seqs::position_of(&self.collators, new_collator.validator).is_some() {
            return Err(DispatchError::Collators(Error::AlreadyCollator));
        }
        if self.account_id_of(&new_collator.nimbus_id).is_some() {
            return Err(DispatchError::Collators(Error::NimbusIdInUse));
        }
        self.collators.push(new_collator.validator);
        self.mapping.push((new_collator.nimbus_id, new_collator.validator));
        self.events.push(Event::AddCollator { new_collator: new_collator.validator });
        proof {
            assert(self.mapping@.drop_last() =~= old(self).mapping@);
            assert(self@.events =~= old(self)@.events.push(EventView::AddCollator { new_collator: new_collator.validator }));
        }
        Ok(())
    }

    /// Removes an account from the set of collators.
    pub fn remove_collator(&mut self, origin: Origin, old_collator: AccountId) -> (r: Result<(), DispatchError>)
        ensures
            follows(r, old(self)@, final(self)@, old(self)@.remove_collator(origin, old_collator)),
    {
        match ensure_authority(origin) {
            Ok(()) => {},
            Err(e) => return Err(e),
        }
        if !self.is_closed_pos {
            return Err(DispatchError::Collators(Error::ShouldUnderPoA));
        }
        let mut rest = self.collators.clone();
        retain_not_equal(&mut rest, old_collator);
        if rest.len() == 0 {
            return Err(DispatchError::Collators(Error::NoCollatorLeft));
        }
        self.collators = rest;
        self.events.push(Event::RemoveCollator { old_collator });
        proof {
            assert(self@.events =~= old(self)@.events.push(EventView::RemoveCollator { old_collator }));
        }
        Ok(())
    }

    /// Takes in `validators` and their keys: appended to the set and
    /// associated, in order.
    fn take_in(&mut self, validators: &Vec<(AccountId, NimbusId)>, with_accounts: bool)
        ensures
            final(self).is_closed_pos == old(self).is_closed_pos,
            final(self).events@ == old(self).events@,
            final(self)@.mapping == insert_all(old(self)@.mapping, key_pairs(validators@)),
            with_accounts ==> final(self)@.collators == old(self)@.collators + accounts_of(validators@),
            !with_accounts ==> final(self)@.collators == old(self)@.collators,
    {
        let mut i: usize = 0;
        while i < validators.len()
            invariant
                i <= validators@.len(),
                self.is_closed_pos == old(self).is_closed_pos,
                self.events@ == old(self).events@,
                self.mapping@ == old(self).mapping@ + key_pairs(validators@.take(i as int)),
                with_accounts ==> self.collators@ == old(self).collators@ + accounts_of(validators@.take(i as int)),
                !with_accounts ==> self.collators@ == old(self).collators@,
            decreases validators@.len() - i,
        {
            let (account, key) = validators[i];
            if with_accounts {
                self.collators.push(account);
            }
            self.mapping.push((key, account));
            proof {
                assert(key_pairs(validators@.take(i + 1)) =~= key_pairs(validators@.take(i as int)).push((key, account)));
                assert(accounts_of(validators@.take(i + 1)) =~= accounts_of(validators@.take(i as int)).push(account));
            }
            i += 1;
        }
        proof {
            assert(validators@.take(validators@.len() as int) =~= validators@);
            lemma_insert_all_concat(Map::empty(), old(self).mapping@, key_pairs(validators@));
        }
    }

    /// The first session: its validators join the set with their keys.
    pub fn on_genesis_session(&mut self, validators: Vec<(AccountId, NimbusId)>)
        requires
            validators@.len() > 0,
        ensures
            final(self)@ == old(self)@.on_genesis_session(validators@),
    {
        self.take_in(&validators, true);
    }

    /// A new session: under proof of stake its validators become the set of
    /// collators with their keys; under proof of authority only their keys
    /// are taken in.
    pub fn on_new_session(&mut self, changed: bool, validators: Vec<(AccountId, NimbusId)>, queued_validators: Vec<(AccountId, NimbusId)>)
        ensures
            final(self)@ == old(self)@.on_new_session(validators@),
    {
        if validators.len() == 0 {
            return;
        }
        if !self.is_closed_pos {
            self.collators = Vec::new();
            self.mapping = Vec::new();
            self.take_in(&validators, true);
            proof {
                assert(old(self)@.collators.len() >= 0);
                assert(Seq::<AccountId>::empty() + accounts_of(validators@) =~= accounts_of(validators@));
            }
        } else {
            self.take_in(&validators, false);
        }
    }

    /// A validator was disabled: nothing changes.
    pub fn on_disabled(&mut self, i: u32)
        ensures
            final(self)@ == old(self)@,
    {
    }
}

impl GenesisConfig {
    /// A genesis with no associations.
    pub fn default() -> (g: Self)
        ensures
            g.mapping@.len() == 0,
    {
        GenesisConfig { mapping: Vec::new() }
    }

    /// The collators pallet at genesis: each association's account in the
    /// set, in order, and its key mapped to it; proof of stake on.
    pub fn build(&self) -> (p: Pallet)
        ensures
            p@ == (CollatorsState {
                is_closed_pos: false,
                collators: accounts_of(self.mapping@),
                mapping: insert_all(Map::empty(), key_pairs(self.mapping@)),
                events: Seq::empty(),
            }),
    {
        let mut p = Pallet { is_closed_pos: false, collators: Vec::new(), mapping: Vec::new(), events: Vec::new() };
        p.take_in(&self.mapping, true);
        proof {
            assert(Seq::<AccountId>::empty() + accounts_of(self.mapping@) =~= accounts_of(self.mapping@));
            assert(p@.events =~= Seq::empty());
        }
        p
    }
}

} // verus!
