//! The group pallet: groups that accounts create on a server, join, leave
//! and disband, and candies that an account hands out to a group's members.
//!
//! Currency work is done by the runtime around each call, inside the same
//! transaction: a call takes the outcome of each reservation or transfer it
//! depends on as an argument, and returns the reservations it releases.
//! A refused call changes nothing, so the runtime rolls its currency work
//! back with it.
use std::collections::HashMap;
use vstd::prelude::*;
use crate::account::derived_account;
use crate::dispatch::{ensure_signed, follows, follows_refused, follows_with, signer, DispatchError, Origin};
use crate::group_id::{group_type_id, GroupId as GroupKind};
use crate::maps::{lemma_map_values_insert, lemma_map_values_remove};
use crate::group_laws::{create_group_keeps_invariants, disband_group_keeps_invariants, enter_group_keeps_invariants, get_candy_keeps_invariants, leave_group_keeps_invariants};
use crate::seqs::{first_index, position_of, retain_not_equal, without};
use crate::server::{Pallet as ServerPallet, ServerState};
use crate::traits::{GetServerInfo, ServerManager};
use crate::types::{AccountId, AssetId, Balance, BlockNumber, Perbill};

verus! {

broadcast use vstd::std_specs::hash::group_hash_axioms;

/// Identifiers of groups.
pub type GroupId = u64;

/// Identifiers of candies.
pub type CandyId = u64;

/// Identifiers of servers.
pub type ServerId = u64;

/// Counts of members.
pub type MemberCount = u32;

/// Who may enter a group.
#[derive(Clone, Copy, Debug, PartialEq, Eq, Structural)]
pub enum Visibility {
    /// Only the accounts its owner invited.
    Private,
    /// Every account.
    Public,
}

/// An amount of one currency.
#[derive(Clone, Copy, Debug, PartialEq, Eq)]
pub struct MultiAsset {
    pub asset_id: AssetId,
    pub amount: Balance,
}

/// Amounts of two currencies, as in a liquidity pool.
#[derive(Clone, Copy, Debug, PartialEq, Eq)]
pub struct Liquidity {
    pub a_asset: MultiAsset,
    pub b_asset: MultiAsset,
}

/// Whether a group is still active.
#[derive(Clone, Copy, Debug, PartialEq, Eq, Structural)]
pub enum GroupStatus {
    Active,
    Disbanded,
}

/// What the chain knows of a group.
#[derive(Debug)]
pub struct GroupInfo {
    pub owner: Option<AccountId>,
    pub creator: AccountId,
    pub commission: Perbill,
    pub group_account_id: AccountId,
    pub create_block_high: BlockNumber,
    pub visibility: Visibility,
    pub min_liquidity: Option<Liquidity>,
    pub max_members_number: u32,
    pub join_fee: Option<MultiAsset>,
    pub status: GroupStatus,
    pub members: Vec<AccountId>,
}

/// A group as plain values.
pub struct GroupInfoView {
    pub owner: Option<AccountId>,
    pub creator: AccountId,
    pub commission: Perbill,
    pub group_account_id: AccountId,
    pub create_block_high: BlockNumber,
    pub visibility: Visibility,
    pub min_liquidity: Option<Liquidity>,
    pub max_members_number: u32,
    pub join_fee: Option<MultiAsset>,
    pub status: GroupStatus,
    pub members: Seq<AccountId>,
}

impl View for GroupInfo {
    type V = GroupInfoView;

    open spec fn view(&self) -> GroupInfoView {
        GroupInfoView {
            owner: self.owner,
            creator: self.creator,
            commission: self.commission,
            group_account_id: self.group_account_id,
            create_block_high: self.create_block_high,
            visibility: self.visibility,
            min_liquidity: self.min_liquidity,
            max_members_number: self.max_members_number,
            join_fee: self.join_fee,
            status: self.status,
            members: self.members@,
        }
    }
}

/// What the chain knows of a candy: an amount its owner hands out to the
/// members of a group, and who got how much of it.
#[derive(Debug)]
pub struct CandyInfo {
    pub group_id: GroupId,
    pub owner: AccountId,
    pub asset: MultiAsset,
    pub claimed_amount: Balance,
    pub max_lucky_number: MemberCount,
    pub claim_detail: Vec<(AccountId, Balance)>,
    pub end_block: BlockNumber,
}

/// A candy as plain values.
pub struct CandyInfoView {
    pub group_id: GroupId,
    pub owner: AccountId,
    pub asset: MultiAsset,
    pub claimed_amount: Balance,
    pub max_lucky_number: MemberCount,
    pub claim_detail: Seq<(AccountId, Balance)>,
    pub end_block: BlockNumber,
}

impl View for CandyInfo {
    type V = CandyInfoView;

    open spec fn view(&self) -> CandyInfoView {
        CandyInfoView {
            group_id: self.group_id,
            owner: self.owner,
            asset: self.asset,
            claimed_amount: self.claimed_amount,
            max_lucky_number: self.max_lucky_number,
            claim_detail: self.claim_detail@,
            end_block: self.end_block,
        }
    }
}

/// The constants a runtime gives the group pallet.
#[derive(Clone, Copy, Debug, PartialEq, Eq)]
pub struct Config {
    /// How many blocks a candy can be claimed for.
    pub candy_expire: BlockNumber,
    /// The name under which candies are reserved.
    pub candy_reserve_identifier: [u8; 8],
    /// The native currency, in which a group's creator pays its deposit.
    pub native_currency_id: AssetId,
    /// The deposit for each started hundred members a group may have.
    pub one_hundred_s_reserve: Balance,
}

/// A currency operation that a call asks the runtime to carry out.
#[derive(Clone, Copy, Debug, PartialEq, Eq)]
pub enum CurrencyOp {
    /// Reserve `amount` of `currency_id` from `who`.
    Reserve { currency_id: AssetId, who: AccountId, amount: Balance },
    /// Reserve `amount` of `currency_id` from `who` under the name `id`.
    ReserveNamed { id: [u8; 8], currency_id: AssetId, who: AccountId, amount: Balance },
    /// Move `amount` of `currency_id` reserved by `from` under the name `id`
    /// to the free balance of `to`.
    RepatriateReservedNamed { id: [u8; 8], currency_id: AssetId, from: AccountId, to: AccountId, amount: Balance },
    /// Release `amount` of `currency_id` reserved by `who`.
    Unreserve { currency_id: AssetId, who: AccountId, amount: Balance },
    /// Release `amount` of `currency_id` reserved by `who` under the name `id`.
    UnreserveNamed { id: [u8; 8], currency_id: AssetId, who: AccountId, amount: Balance },
}

/// What the group pallet announces.
#[derive(Clone, Copy, Debug, PartialEq, Eq)]
pub enum Event {
    CreateGroup { creator: AccountId, group_id: GroupId },
    Invite { group_id: GroupId, who: AccountId, invitee: AccountId },
    EnterGroup { who: AccountId, group_id: GroupId },
    KickSomeOne { group_id: GroupId, who: AccountId, someone_kicked: AccountId },
    LeaveGroup { group_id: GroupId, old_member: AccountId },
    DisbandGroup { group_id: GroupId },
    GiveCandy { boss: AccountId, group_id: GroupId, candy: CandyId },
    RemoveExpiredCandy { group_id: GroupId, candy_id: CandyId, asset_id: AssetId, remain_amount: Balance },
    GetCandy { lucky_man: AccountId, group_id: GroupId, candy_id: CandyId, amount: MultiAsset },
}

/// Why the group pallet refuses a call.
#[derive(Clone, Copy, Debug, PartialEq, Eq)]
pub enum Error {
    StorageOverflow,
    GroupNotExists,
    CandyNotExists,
    ServerAtCapacity,
    InBlackList,
    NotGroupOwner,
    GroupAtCapacity,
    PrivateGroup,
    PermissionDenied,
    OnlyOneMember,
    OwnerCannotLeave,
    MemberNotInGroup,
    GroupDisbanded,
    AmountIsZero,
    AlreadyGetCandy,
    CandyNotInGroup,
    RemainAmountIsZero,
    LuckyNumberUpMax,
    ClaimedAmountUpMax,
    MemberAlreadyGetCandy,
    NotServerOwner,
    GroupNotInAnyServer,
    ServerNotExists,
}

/// The group pallet's configuration, storage and deposited events.
pub struct Pallet {
    pub config: Config,
    pub groups: HashMap<GroupId, GroupInfo>,
    pub next_group_id: GroupId,
    pub next_candy_id: CandyId,
    pub candies: HashMap<CandyId, CandyInfo>,
    pub candies_of_group: HashMap<GroupId, Vec<CandyId>>,
    pub server_of: HashMap<GroupId, ServerId>,
    pub black_list_of_group: HashMap<GroupId, Vec<AccountId>>,
    pub invitees_of_group: HashMap<GroupId, Vec<AccountId>>,
    pub create_reserve_of_group: HashMap<GroupId, Balance>,
    pub events: Vec<Event>,
}

/// The group pallet as plain values.
pub struct GroupState {
    pub config: Config,
    pub groups: Map<GroupId, GroupInfoView>,
    pub next_group_id: GroupId,
    pub next_candy_id: CandyId,
    pub candies: Map<CandyId, CandyInfoView>,
    pub candies_of_group: Map<GroupId, Seq<CandyId>>,
    pub server_of: Map<GroupId, ServerId>,
    pub black_list_of_group: Map<GroupId, Seq<AccountId>>,
    pub invitees_of_group: Map<GroupId, Seq<AccountId>>,
    pub create_reserve_of_group: Map<GroupId, Balance>,
    pub events: Seq<Event>,
}

impl View for Pallet {
    type V = GroupState;

    open spec fn view(&self) -> GroupState {
        GroupState {
            config: self.config,
            groups: self.groups@.map_values(|g: GroupInfo| g@),
            next_group_id: self.next_group_id,
            next_candy_id: self.next_candy_id,
            candies: self.candies@.map_values(|c: CandyInfo| c@),
            candies_of_group: self.candies_of_group@.map_values(|v: Vec<CandyId>| v@),
            server_of: self.server_of@,
            black_list_of_group: self.black_list_of_group@.map_values(|v: Vec<AccountId>| v@),
            invitees_of_group: self.invitees_of_group@.map_values(|v: Vec<AccountId>| v@),
            create_reserve_of_group: self.create_reserve_of_group@,
            events: self.events@,
        }
    }
}

/// The server that hosts groups created without naming one.
pub open spec fn official_server() -> ServerId {
    0
}

/// The deposit for a group of at most `max_members_number` members: one
/// `one_hundred_s_reserve` for each started hundred, or `None` if it does
/// not fit a balance.
pub open spec fn reserve_amount(config: Config, max_members_number: u32) -> Option<Balance> {
    let n = (max_members_number / 100 + 1) * config.one_hundred_s_reserve;
    if n <= u128::MAX {
        Some(n as Balance)
    } else {
        None
    }
}

/// What is left of a candy after its claims.
pub open spec fn remain_of(c: CandyInfoView) -> Balance {
    if c.asset.amount >= c.claimed_amount {
        (c.asset.amount - c.claimed_amount) as Balance
    } else {
        0
    }
}

/// The release of what is left of candy `c`, if anything is.
pub open spec fn release_of(config: Config, c: CandyInfoView) -> Seq<CurrencyOp> {
    if remain_of(c) != 0 {
        seq![CurrencyOp::UnreserveNamed {
            id: config.candy_reserve_identifier,
            currency_id: c.asset.asset_id,
            who: c.owner,
            amount: remain_of(c),
        }]
    } else {
        Seq::empty()
    }
}

/// Takes the candies `ids` out of `candies`, in order, and releases what
/// is left of each one that was there.
pub open spec fn release_candies(config: Config, candies: Map<CandyId, CandyInfoView>, ids: Seq<CandyId>) -> (Map<CandyId, CandyInfoView>, Seq<CurrencyOp>)
    decreases ids.len(),
{
    if ids.len() == 0 {
        (candies, Seq::empty())
    } else {
        let (m, ops) = release_candies(config, candies, ids.drop_last());
        let id = ids.last();
        if m.contains_key(id) {
            (m.remove(id), ops + release_of(config, m[id]))
        } else {
            (m, ops)
        }
    }
}

/// Whether `who` has claimed from a candy with these claims.
pub open spec fn has_claimed(claims: Seq<(AccountId, Balance)>, who: AccountId) -> bool {
    exists|i: int| 0 <= i < claims.len() && #[trigger] claims[i].0 == who
}

/// One claim of `amount` for `lucky_man` on candy `c` of a group with
/// `members`, whose transfer gave `transfer`: the candy after it and the
/// event it gives.
pub open spec fn claim_one(
    c: CandyInfoView,
    members: Seq<AccountId>,
    group_id: GroupId,
    candy_id: CandyId,
    lucky_man: AccountId,
    amount: Balance,
    transfer: Result<(), DispatchError>,
) -> Result<(CandyInfoView, Event), DispatchError> {
    if has_claimed(c.claim_detail, lucky_man) {
        Err(DispatchError::Group(Error::AlreadyGetCandy))
    } else if !members.contains(lucky_man) {
        Err(DispatchError::Group(Error::MemberNotInGroup))
    } else if !(c.max_lucky_number > (c.claim_detail.len() as u32)) {
        Err(DispatchError::Group(Error::LuckyNumberUpMax))
    } else if c.claimed_amount + amount > u128::MAX {
        Err(DispatchError::Group(Error::StorageOverflow))
    } else if c.claimed_amount + amount > c.asset.amount {
        Err(DispatchError::Group(Error::ClaimedAmountUpMax))
    } else {
        match transfer {
            Err(e) => Err(e),
            Ok(_) => Ok((
                CandyInfoView {
                    claimed_amount: (c.claimed_amount + amount) as Balance,
                    claim_detail: c.claim_detail.push((lucky_man, amount)),
                    ..c
                },
                Event::GetCandy {
                    lucky_man,
                    group_id,
                    candy_id,
                    amount: MultiAsset { asset_id: c.asset.asset_id, amount },
                },
            )),
        }
    }
}

/// The claims `detail` on candy `c`, in order, the `i`th one's transfer
/// giving `transfers[i]`: the candy after them and the events they give,
/// or the error of the first one refused.
pub open spec fn claim_all(
    c: CandyInfoView,
    members: Seq<AccountId>,
    group_id: GroupId,
    candy_id: CandyId,
    detail: Seq<(AccountId, Balance)>,
    transfers: Seq<Result<(), DispatchError>>,
) -> Result<(CandyInfoView, Seq<Event>), DispatchError>
    decreases detail.len(),
{
    if detail.len() == 0 {
        Ok((c, Seq::empty()))
    } else {
        match claim_all(c, members, group_id, candy_id, detail.drop_last(), transfers) {
            Err(e) => Err(e),
            Ok((c1, evs)) => {
                let (who, amount) = detail.last();
                match claim_one(c1, members, group_id, candy_id, who, amount, transfers[detail.len() - 1]) {
                    Err(e) => Err(e),
                    Ok((c2, ev)) => Ok((c2, evs.push(ev))),
                }
            },
        }
    }
}

impl GroupState {
    /// The candies of group `id`.
    pub open spec fn candies_of(self, id: GroupId) -> Seq<CandyId> {
        if self.candies_of_group.contains_key(id) {
            self.candies_of_group[id]
        } else {
            Seq::empty()
        }
    }

    /// The accounts group `id` has banned.
    pub open spec fn black_list(self, id: GroupId) -> Seq<AccountId> {
        if self.black_list_of_group.contains_key(id) {
            self.black_list_of_group[id]
        } else {
            Seq::empty()
        }
    }

    /// The accounts group `id` has invited.
    pub open spec fn invitees(self, id: GroupId) -> Seq<AccountId> {
        if self.invitees_of_group.contains_key(id) {
            self.invitees_of_group[id]
        } else {
            Seq::empty()
        }
    }

    /// The deposit the creator of group `id` made.
    pub open spec fn create_reserve(self, id: GroupId) -> Balance {
        if self.create_reserve_of_group.contains_key(id) {
            self.create_reserve_of_group[id]
        } else {
            0
        }
    }

    /// Group `id`, if it exists and is active.
    pub open spec fn active_group(self, id: GroupId) -> Result<GroupInfoView, DispatchError> {
        if !self.groups.contains_key(id) {
            Err(DispatchError::Group(Error::GroupNotExists))
        } else if self.groups[id].status != GroupStatus::Active {
            Err(DispatchError::Group(Error::GroupDisbanded))
        } else {
            Ok(self.groups[id])
        }
    }

    /// A group pallet with configuration `config` and nothing stored.
    pub open spec fn genesis(config: Config) -> GroupState {
        GroupState {
            config,
            groups: Map::empty(),
            next_group_id: 0,
            next_candy_id: 0,
            candies: Map::empty(),
            candies_of_group: Map::empty(),
            server_of: Map::empty(),
            black_list_of_group: Map::empty(),
            invitees_of_group: Map::empty(),
            create_reserve_of_group: Map::empty(),
            events: Seq::empty(),
        }
    }

    /// The reservation that creating a group asks for: the deposit for
    /// `max_members_number` members, in native currency, from the signer;
    /// none for an unsigned origin or a deposit that does not fit a balance.
    pub open spec fn create_group_request(self, origin: Origin, max_members_number: u32) -> Option<CurrencyOp> {
        match (signer(origin), reserve_amount(self.config, max_members_number)) {
            (Some(who), Some(amount)) => Some(
                CurrencyOp::Reserve { currency_id: self.config.native_currency_id, who, amount },
            ),
            _ => None,
        }
    }

    /// The reservation that giving a candy of `asset` asks for: the whole
    /// asset, from the signer, under the candy name; none for an unsigned
    /// origin.
    pub open spec fn give_candy_request(self, origin: Origin, asset: MultiAsset) -> Option<CurrencyOp> {
        match signer(origin) {
            Some(who) => Some(CurrencyOp::ReserveNamed {
                id: self.config.candy_reserve_identifier,
                currency_id: asset.asset_id,
                who,
                amount: asset.amount,
            }),
            None => None,
        }
    }

    /// The transfers that handing candy `candy_id` out as `detail` says asks
    /// for at block `now`: for each claim, in order, the claimed amount of
    /// the candy's asset, from what its owner reserved under the candy name,
    /// to the claiming member; none for a missing or expired candy.
    pub open spec fn claim_requests(self, candy_id: CandyId, detail: Seq<(AccountId, Balance)>, now: BlockNumber) -> Seq<CurrencyOp> {
        if self.candies.contains_key(candy_id) && !(self.candies[candy_id].end_block < now) {
            let c = self.candies[candy_id];
            detail.map_values(|p: (AccountId, Balance)| CurrencyOp::RepatriateReservedNamed {
                id: self.config.candy_reserve_identifier,
                currency_id: c.asset.asset_id,
                from: c.owner,
                to: p.0,
                amount: p.1,
            })
        } else {
            Seq::empty()
        }
    }

    /// A signed origin creates a group on a server (the official one if it
    /// names none), as its owner and only member, after reserving a deposit
    /// of native currency (the request of `create_group_request`), whose
    /// reservation gave `reserved`; the server
    /// must take the group on.
    pub open spec fn create_group(
        self,
        servers: ServerState,
        origin: Origin,
        server_id: Option<ServerId>,
        min_liquidity: Option<Liquidity>,
        max_members_number: u32,
        commission: Perbill,
        visibility: Visibility,
        join_fee: Option<MultiAsset>,
        now: BlockNumber,
        reserved: Result<(), DispatchError>,
    ) -> Result<(GroupState, ServerState), DispatchError> {
        match signer(origin) {
            None => Err(DispatchError::BadOrigin),
            Some(creator) => {
                let id = self.next_group_id;
                let sid = match server_id {
                    Some(s) => s,
                    None => official_server(),
                };
                if !servers.servers.contains_key(sid) {
                    Err(DispatchError::Group(Error::ServerNotExists))
                } else if reserve_amount(self.config, max_members_number) is None {
                    Err(DispatchError::Group(Error::StorageOverflow))
                } else if reserved is Err {
                    Err(reserved->Err_0)
                } else if id == u64::MAX {
                    Err(DispatchError::Group(Error::StorageOverflow))
                } else {
                    match servers.add_new_group(sid, id) {
                        Err(e) => Err(e),
                        Ok(servers2) => Ok((
                            GroupState {
                                create_reserve_of_group: self.create_reserve_of_group.insert(
                                    id,
                                    reserve_amount(self.config, max_members_number)->Some_0,
                                ),
                                groups: self.groups.insert(id, GroupInfoView {
                                    owner: Some(creator),
                                    creator,
                                    commission,
                                    group_account_id: derived_account(group_type_id(), id),
                                    create_block_high: now,
                                    visibility,
                                    min_liquidity,
                                    max_members_number,
                                    join_fee,
                                    status: GroupStatus::Active,
                                    members: seq![creator],
                                }),
                                next_group_id: (id + 1) as u64,
                                server_of: self.server_of.insert(id, sid),
                                events: self.events.push(Event::CreateGroup { creator, group_id: id }),
                                ..self
                            },
                            servers2,
                        )),
                    }
                }
            },
        }
    }

    /// A signed origin enters `new_member` into an active group: a member
    /// entering on its own joins, if the group has room and lets it in; the
    /// group's owner entering someone else invites them.  Banned accounts
    /// can do neither.
    pub open spec fn enter_group(self, origin: Origin, group_id: GroupId, new_member: AccountId) -> Result<GroupState, DispatchError> {
        match signer(origin) {
            None => Err(DispatchError::BadOrigin),
            Some(who) => match self.active_group(group_id) {
                Err(e) => Err(e),
                Ok(g) => if self.black_list(group_id).contains(new_member) {
                    Err(DispatchError::Group(Error::InBlackList))
                } else if who != new_member {
                    if g.owner != Some(who) {
                        Err(DispatchError::Group(Error::NotGroupOwner))
                    } else {
                        Ok(GroupState {
                            invitees_of_group: self.invitees_of_group.insert(
                                group_id,
                                without(self.invitees(group_id), new_member).push(new_member),
                            ),
                            events: self.events.push(Event::Invite { group_id, who, invitee: new_member }),
                            ..self
                        })
                    }
                } else if !(g.max_members_number > (g.members.len() as u32)) {
                    Err(DispatchError::Group(Error::GroupAtCapacity))
                } else if !((g.visibility == Visibility::Private && self.invitees(group_id).contains(new_member))
                    || g.visibility == Visibility::Public) {
                    Err(DispatchError::Group(Error::PermissionDenied))
                } else if g.max_members_number == u32::MAX {
                    Err(DispatchError::Group(Error::StorageOverflow))
                } else {
                    Ok(GroupState {
                        groups: self.groups.insert(group_id, GroupInfoView {
                            members: without(g.members, new_member).push(new_member),
                            ..g
                        }),
                        events: self.events.push(Event::EnterGroup { who: new_member, group_id }),
                        ..self
                    })
                },
            },
        }
    }

    /// A member leaves an active group, or its owner kicks `old_member` out
    /// and bans them; the owner cannot leave, nor can the last member.
    pub open spec fn leave_group(self, origin: Origin, group_id: GroupId, old_member: AccountId) -> Result<GroupState, DispatchError> {
        match signer(origin) {
            None => Err(DispatchError::BadOrigin),
            Some(who) => match self.active_group(group_id) {
                Err(e) => Err(e),
                Ok(g) => {
                    let kick = old_member != who;
                    if kick && g.owner != Some(who) {
                        Err(DispatchError::Group(Error::NotGroupOwner))
                    } else if !(g.members.len() > 1) {
                        Err(DispatchError::Group(Error::OnlyOneMember))
                    } else if g.owner == Some(old_member) {
                        Err(DispatchError::Group(Error::OwnerCannotLeave))
                    } else if !g.members.contains(old_member) {
                        Err(DispatchError::Group(Error::MemberNotInGroup))
                    } else {
                        Ok(GroupState {
                            groups: self.groups.insert(group_id, GroupInfoView {
                                members: g.members.remove(first_index(g.members, old_member)),
                                ..g
                            }),
                            black_list_of_group: if kick {
                                self.black_list_of_group.insert(
                                    group_id,
                                    without(self.black_list(group_id), old_member).push(old_member),
                                )
                            } else {
                                self.black_list_of_group
                            },
                            events: self.events.push(
                                if kick {
                                    Event::KickSomeOne { group_id, who, someone_kicked: old_member }
                                } else {
                                    Event::LeaveGroup { group_id, old_member }
                                },
                            ),
                            ..self
                        })
                    }
                },
            },
        }
    }

    /// The owner of an active group disbands it: its candies go, what is
    /// left of them and the creator's deposit are released, its ban and
    /// invitation lists go, and its server lets it go.
    pub open spec fn disband_group(self, servers: ServerState, origin: Origin, group_id: GroupId) -> Result<((GroupState, ServerState), Seq<CurrencyOp>), DispatchError> {
        match signer(origin) {
            None => Err(DispatchError::BadOrigin),
            Some(who) => match self.active_group(group_id) {
                Err(e) => Err(e),
                Ok(g) => if g.owner != Some(who) {
                    Err(DispatchError::Group(Error::NotGroupOwner))
                } else {
                    let (candies, released) = release_candies(self.config, self.candies, self.candies_of(group_id));
                    let deposit = self.create_reserve(group_id);
                    let ops = if deposit != 0 {
                        released.push(CurrencyOp::Unreserve {
                            currency_id: self.config.native_currency_id,
                            who: g.creator,
                            amount: deposit,
                        })
                    } else {
                        released
                    };
                    let servers2 = if self.server_of.contains_key(group_id) {
                        servers.remove_old_group(self.server_of[group_id], group_id)
                    } else {
                        Ok(servers)
                    };
                    match servers2 {
                        Err(e) => Err(e),
                        Ok(servers2) => Ok(((
                            GroupState {
                                candies,
                                candies_of_group: self.candies_of_group.insert(group_id, Seq::empty()),
                                groups: self.groups.insert(group_id, GroupInfoView { status: GroupStatus::Disbanded, ..g }),
                                black_list_of_group: self.black_list_of_group.remove(group_id),
                                invitees_of_group: self.invitees_of_group.remove(group_id),
                                events: self.events.push(Event::DisbandGroup { group_id }),
                                ..self
                            },
                            servers2),
                            ops,
                        )),
                    }
                },
            },
        }
    }

    /// A signed origin gives a group a candy of `asset`, claimable by at most
    /// `max_lucky_number` members until `candy_expire` blocks from now,
    /// after reserving it under the candy name (the request of
    /// `give_candy_request`), whose reservation gave `reserved`.
    pub open spec fn give_candy(
        self,
        origin: Origin,
        group_id: GroupId,
        asset: MultiAsset,
        max_lucky_number: MemberCount,
        now: BlockNumber,
        reserved: Result<(), DispatchError>,
    ) -> Result<GroupState, DispatchError> {
        match signer(origin) {
            None => Err(DispatchError::BadOrigin),
            Some(owner) => {
                let id = self.next_candy_id;
                if asset.amount == 0 {
                    Err(DispatchError::Group(Error::AmountIsZero))
                } else if now + self.config.candy_expire > u32::MAX {
                    Err(DispatchError::Group(Error::StorageOverflow))
                } else if id == u64::MAX {
                    Err(DispatchError::Group(Error::StorageOverflow))
                } else if reserved is Err {
                    Err(reserved->Err_0)
                } else {
                    Ok(GroupState {
                        candies: self.candies.insert(id, CandyInfoView {
                            group_id,
                            owner,
                            asset,
                            claimed_amount: 0,
                            max_lucky_number,
                            claim_detail: Seq::empty(),
                            end_block: (now + self.config.candy_expire) as BlockNumber,
                        }),
                        candies_of_group: self.candies_of_group.insert(group_id, self.candies_of(group_id).push(id)),
                        next_candy_id: (id + 1) as u64,
                        events: self.events.push(Event::GiveCandy { boss: owner, group_id, candy: id }),
                        ..self
                    })
                }
            },
        }
    }

    /// The owner of the server of an active group hands out a candy of the
    /// group to its members, the `i`th claim's transfer (the `i`th request of
    /// `claim_requests`) giving `transfers[i]`.  A candy past its end block
    /// is taken off the group's list of candies instead, and what is left of
    /// it released; the candy entry that is deleted then is the one stored
    /// under the group's id, not the candy's.
    pub open spec fn get_candy(
        self,
        servers: ServerState,
        origin: Origin,
        group_id: GroupId,
        candy_id: CandyId,
        detail: Seq<(AccountId, Balance)>,
        now: BlockNumber,
        transfers: Seq<Result<(), DispatchError>>,
    ) -> Result<(GroupState, Seq<CurrencyOp>), DispatchError> {
        match signer(origin) {
            None => Err(DispatchError::BadOrigin),
            Some(who) => match self.active_group(group_id) {
                Err(e) => Err(e),
                Ok(g) => if !self.candies_of(group_id).contains(candy_id) {
                    Err(DispatchError::Group(Error::CandyNotInGroup))
                } else if !self.candies.contains_key(candy_id) {
                    Err(DispatchError::Group(Error::CandyNotExists))
                } else {
                    let c = self.candies[candy_id];
                    if c.end_block < now {
                        Ok((
                            GroupState {
                                candies_of_group: self.candies_of_group.insert(
                                    group_id,
                                    without(self.candies_of(group_id), candy_id),
                                ),
                                candies: self.candies.remove(group_id),
                                events: self.events.push(Event::RemoveExpiredCandy {
                                    group_id,
                                    candy_id,
                                    asset_id: c.asset.asset_id,
                                    remain_amount: remain_of(c),
                                }),
                                ..self
                            },
                            release_of(self.config, c),
                        ))
                    } else if !self.server_of.contains_key(group_id) {
                        Err(DispatchError::Group(Error::GroupNotInAnyServer))
                    } else if !servers.is_owner(self.server_of[group_id], who) {
                        Err(DispatchError::Group(Error::NotServerOwner))
                    } else {
                        match claim_all(c, g.members, group_id, candy_id, detail, transfers) {
                            Err(e) => Err(e),
                            Ok((c2, evs)) => Ok((
                                GroupState {
                                    candies: self.candies.insert(candy_id, c2),
                                    events: self.events + evs,
                                    ..self
                                },
                                Seq::empty(),
                            )),
                        }
                    }
                },
            },
        }
    }
}


/// Whether `who` appears in `claims`.
fn claimed_by(claims: &Vec<(AccountId, Balance)>, who: AccountId) -> (b: bool)
    ensures
        b == has_claimed(claims@, who),
{
    let mut i: usize = 0;
    while i < claims.len()
        invariant
            i <= claims@.len(),
            forall|j: int| 0 <= j < i ==> (#[trigger] claims@[j]).0 != who,
        decreases claims@.len() - i,
    {
        if claims[i].0 == who {
            assert(claims@[i as int].0 == who);
            return true;
        }
        i += 1;
    }
    false
}

/// Claims in two parts: someone claimed in the whole exactly when they
/// claimed in one of the parts.
proof fn lemma_has_claimed_concat(a: Seq<(AccountId, Balance)>, b: Seq<(AccountId, Balance)>, who: AccountId)
    ensures
        has_claimed(a + b, who) == (has_claimed(a, who) || has_claimed(b, who)),
{
    if has_claimed(a + b, who) {
        let i = choose|i: int| 0 <= i < (a + b).len() && #[trigger] (a + b)[i].0 == who;
        if i < a.len() {
            assert(a[i].0 == who);
        } else {
            assert(b[i - a.len()].0 == who);
        }
    }
    if has_claimed(a, who) {
        let i = choose|i: int| 0 <= i < a.len() && #[trigger] a[i].0 == who;
        assert((a + b)[i].0 == who);
    }
    if has_claimed(b, who) {
        let i = choose|i: int| 0 <= i < b.len() && #[trigger] b[i].0 == who;
        assert((a + b)[i + a.len()].0 == who);
    }
}

/// Once the claims up to some point are refused, all of them are, with the
/// same error.
proof fn lemma_claim_all_prefix_err(
    c: CandyInfoView,
    members: Seq<AccountId>,
    group_id: GroupId,
    candy_id: CandyId,
    detail: Seq<(AccountId, Balance)>,
    transfers: Seq<Result<(), DispatchError>>,
    n: int,
)
    requires
        0 <= n <= detail.len(),
        claim_all(c, members, group_id, candy_id, detail.take(n), transfers) is Err,
    ensures
        claim_all(c, members, group_id, candy_id, detail, transfers)
            == claim_all(c, members, group_id, candy_id, detail.take(n), transfers),
    decreases detail.len(),
{
    if n == detail.len() {
        assert(detail.take(n) =~= detail);
    } else {
        assert(detail.drop_last().take(n) =~= detail.take(n));
        lemma_claim_all_prefix_err(c, members, group_id, candy_id, detail.drop_last(), transfers, n);
    }
}

/// A copy of the list of groups that server `server_id` holds, if it holds
/// one.
fn save_server_groups(servers: &ServerPallet, server_id: ServerId) -> (saved: Option<Vec<GroupId>>)
    ensures
        match saved {
            Some(v) => servers@.groups_of_server.contains_key(server_id) && servers@.groups_of_server[server_id] == v@,
            None => !servers@.groups_of_server.contains_key(server_id),
        },
{
    match servers.groups_of_server.get(&server_id) {
        Some(v) => Some(v.clone()),
        None => None,
    }
}

/// Puts back the list of groups of server `server_id` that a refusal of
/// the server took out, so that the server is as it was in `pre`.
fn restore_server_groups(servers: &mut ServerPallet, server_id: ServerId, saved: Option<Vec<GroupId>>, Ghost(pre): Ghost<ServerState>)
    requires
        old(servers)@ == pre || old(servers)@ == (ServerState {
            groups_of_server: pre.groups_of_server.remove(server_id),
            ..pre
        }),
        match saved {
            Some(v) => pre.groups_of_server.contains_key(server_id) && pre.groups_of_server[server_id] == v@,
            None => !pre.groups_of_server.contains_key(server_id),
        },
    ensures
        final(servers)@ == pre,
{
    match saved {
        Some(v) => {
            proof {
                lemma_map_values_insert(servers.groups_of_server@, server_id, v, |v: Vec<GroupId>| v@);
            }
            servers.groups_of_server.insert(server_id, v);
        },
        None => {},
    }
    assert(servers@.groups_of_server =~= pre.groups_of_server);
}

impl Pallet {
    /// The server that hosts groups created without naming one.
    pub fn get_official_server() -> (id: ServerId)
        ensures
            id == official_server(),
    {
        0
    }

    /// Whether `maybe_owner` owns server `server_id`.
    pub fn is_server_owner(servers: &ServerPallet, server_id: ServerId, maybe_owner: AccountId) -> (b: bool)
        ensures
            b == servers@.is_owner(server_id, maybe_owner),
    {
        match servers.try_get_server_owner(server_id) {
            Ok(owner) => owner == Some(maybe_owner),
            Err(_) => false,
        }
    }

    /// Whether server `server_id` hosts as many groups as it may.
    pub fn is_server_at_capacity(servers: &ServerPallet, server_id: ServerId) -> (b: bool)
        ensures
            b == servers@.is_at_capacity(server_id),
    {
        servers.is_at_capacity(server_id)
    }

    /// A group pallet with configuration `config` and nothing stored.
    pub fn new(config: Config) -> (p: Self)
        ensures
            p@ == GroupState::genesis(config),
            p@.wf(),
            p@.ids_below_next(),
    {
        let p = Pallet {
            config,
            groups: HashMap::new(),
            next_group_id: 0,
            next_candy_id: 0,
            candies: HashMap::new(),
            candies_of_group: HashMap::new(),
            server_of: HashMap::new(),
            black_list_of_group: HashMap::new(),
            invitees_of_group: HashMap::new(),
            create_reserve_of_group: HashMap::new(),
            events: Vec::new(),
        };
        assert(p@.groups =~= Map::empty());
        assert(p@.candies =~= Map::empty());
        assert(p@.candies_of_group =~= Map::empty());
        assert(p@.black_list_of_group =~= Map::empty());
        assert(p@.invitees_of_group =~= Map::empty());
        p
    }

    /// The deposit for a group of at most `max_members_number` members, or
    /// `None` if it does not fit a balance.
    pub fn reserve_amount(&self, max_members_number: u32) -> (r: Option<Balance>)
        ensures
            r == reserve_amount(self.config, max_members_number),
    {
        let hundreds: u128 = (max_members_number / 100 + 1) as u128;
        hundreds.checked_mul(self.config.one_hundred_s_reserve)
    }

    /// The reservation that creating a group of at most
    /// `max_members_number` members for `origin` asks for.
    pub fn create_group_request(&self, origin: Origin, max_members_number: u32) -> (r: Option<CurrencyOp>)
        ensures
            r == self@.create_group_request(origin, max_members_number),
    {
        match (origin, self.reserve_amount(max_members_number)) {
            (Origin::Signed(who), Some(amount)) => Some(
                CurrencyOp::Reserve { currency_id: self.config.native_currency_id, who, amount },
            ),
            _ => None,
        }
    }

    /// The reservation that giving a candy of `asset` for `origin` asks for.
    pub fn give_candy_request(&self, origin: Origin, asset: MultiAsset) -> (r: Option<CurrencyOp>)
        ensures
            r == self@.give_candy_request(origin, asset),
    {
        match origin {
            Origin::Signed(who) => Some(CurrencyOp::ReserveNamed {
                id: self.config.candy_reserve_identifier,
                currency_id: asset.asset_id,
                who,
                amount: asset.amount,
            }),
            _ => None,
        }
    }

    /// The transfers that handing candy `candy_id` out as `detail` says asks
    /// for at block `now`, in the order of the claims.
    pub fn claim_requests(&self, candy_id: CandyId, detail: &Vec<(AccountId, Balance)>, now: BlockNumber) -> (r: Vec<CurrencyOp>)
        ensures
            r@ == self@.claim_requests(candy_id, detail@, now),
    {
        let (asset_id, owner) = match self.candies.get(&candy_id) {
            Some(c) => {
                if c.end_block < now {
                    return Vec::new();
                }
                (c.asset.asset_id, c.owner)
            },
            None => return Vec::new(),
        };
        let id = self.config.candy_reserve_identifier;
        let mut r: Vec<CurrencyOp> = Vec::new();
        let mut i: usize = 0;
        while i < detail.len()
            invariant
                i <= detail@.len(),
                self@.candies.contains_key(candy_id),
                !(self@.candies[candy_id].end_block < now),
                asset_id == self@.candies[candy_id].asset.asset_id,
                owner == self@.candies[candy_id].owner,
                id == self@.config.candy_reserve_identifier,
                r@ == detail@.take(i as int).map_values(|p: (AccountId, Balance)| CurrencyOp::RepatriateReservedNamed {
                    id,
                    currency_id: asset_id,
                    from: owner,
                    to: p.0,
                    amount: p.1,
                }),
            decreases detail@.len() - i,
        {
            let (to, amount) = detail[i];
            r.push(CurrencyOp::RepatriateReservedNamed { id, currency_id: asset_id, from: owner, to, amount });
            proof {
                assert(r@ =~= detail@.take(i + 1).map_values(|p: (AccountId, Balance)| CurrencyOp::RepatriateReservedNamed {
                    id,
                    currency_id: asset_id,
                    from: owner,
                    to: p.0,
                    amount: p.1,
                }));
            }
            i += 1;
        }
        proof {
            assert(detail@.take(detail@.len() as int) =~= detail@);
        }
        r
    }

    /// The server that hosts group `group_id`, if one was recorded.
    pub fn get_server_id(&self, group_id: GroupId) -> (r: Option<ServerId>)
        ensures
            r == (if self@.server_of.contains_key(group_id) { Some(self@.server_of[group_id]) } else { None::<ServerId> }),
    {
        match self.server_of.get(&group_id) {
            Some(s) => Some(*s),
            None => None,
        }
    }

    /// Adding liquidity to a group asks nothing yet.
    pub fn try_add_liquidity(&self, group_id: GroupId, liquidity: Option<Liquidity>) -> (r: Result<(), DispatchError>)
        ensures
            (r is Ok),
    {
        Ok(())
    }

    /// Group `group_id` must exist and be active.
    fn try_get_exists_and_active_group(&self, group_id: GroupId) -> (r: Result<(), DispatchError>)
        ensures
            match self@.active_group(group_id) {
                Ok(_) => (r is Ok),
                Err(e) => r == Err::<(), DispatchError>(e),
            },
    {
        match self.groups.get(&group_id) {
            None => Err(DispatchError::Group(Error::GroupNotExists)),
            Some(g) => {
                if g.status == GroupStatus::Active {
                    Ok(())
                } else {
                    Err(DispatchError::Group(Error::GroupDisbanded))
                }
            },
        }
    }

    /// Records that server `server_id` hosts group `group_id` and adds the
    /// group to the server, or, if `is_remove_group`, removes it from the
    /// server.
    pub fn try_update_server_info(
        &mut self,
        servers: &mut ServerPallet,
        server_id: ServerId,
        group_id: GroupId,
        is_remove_group: bool,
    ) -> (r: Result<(), DispatchError>)
        ensures
            is_remove_group ==> final(self)@ == old(self)@ && follows_refused(
                r,
                final(servers)@,
                old(servers)@.remove_old_group(server_id, group_id),
                old(servers)@.remove_old_group_refused(server_id),
            ),
            !is_remove_group ==> final(self)@ == (GroupState {
                server_of: old(self)@.server_of.insert(group_id, server_id),
                ..old(self)@
            }) && follows_refused(
                r,
                final(servers)@,
                old(servers)@.add_new_group(server_id, group_id),
                old(servers)@.add_new_group_refused(server_id),
            ),
    {
        if is_remove_group {
            servers.try_remove_old_group(server_id, group_id)
        } else {
            self.server_of.insert(group_id, server_id);
            servers.try_add_new_group(server_id, group_id)
        }
    }

    /// Creates a group for the signer of `origin`; `reserved` is what the
    /// reservation that `create_group_request` names gave.
    pub fn create_group(
        &mut self,
        servers: &mut ServerPallet,
        origin: Origin,
        server_id: Option<ServerId>,
        min_liquidity: Option<Liquidity>,
        max_members_number: u32,
        commission: Perbill,
        visibility: Visibility,
        join_fee: Option<MultiAsset>,
        now: BlockNumber,
        reserved: Result<(), DispatchError>,
    ) -> (r: Result<(), DispatchError>)
        ensures
            follows(
                r,
                (old(self)@, old(servers)@),
                (final(self)@, final(servers)@),
                old(self)@.create_group(
                    old(servers)@,
                    origin,
                    server_id,
                    min_liquidity,
                    max_members_number,
                    commission,
                    visibility,
                    join_fee,
                    now,
                    reserved,
                ),
            ),
            old(self)@.wf() ==> final(self)@.wf(),
            old(self)@.ids_below_next() ==> final(self)@.ids_below_next(),
    {
        let creator = match ensure_signed(origin) {
            Ok(who) => who,
            Err(e) => return Err(e),
        };
        let id = self.next_group_id;
        let sid = match server_id {
            Some(s) => s,
            None => Self::get_official_server(),
        };
        if !servers.is_server_exists(sid) {
            return Err(DispatchError::Group(Error::ServerNotExists));
        }
        let group_account_id = GroupKind(id).into_account_truncating();
        let deposit = match self.reserve_amount(max_members_number) {
            Some(a) => a,
            None => return Err(DispatchError::Group(Error::StorageOverflow)),
        };
        match reserved {
            Err(e) => return Err(e),
            Ok(()) => {},
        }
        if id == u64::MAX {
            return Err(DispatchError::Group(Error::StorageOverflow));
        }
        let ghost pre = self@;
        let ghost pre_servers = servers@;
        let previous_server = self.get_server_id(id);
        let saved = save_server_groups(servers, sid);
        match self.try_update_server_info(servers, sid, id, false) {
            Ok(()) => {},
            Err(e) => {
                restore_server_groups(servers, sid, saved, Ghost(pre_servers));
                match previous_server {
                    Some(p) => {
                        self.server_of.insert(id, p);
                    },
                    None => {
                        self.server_of.remove(&id);
                    },
                }
                proof {
                    assert(self@.server_of =~= pre.server_of);
                }
                return Err(e);
            },
        }
        let mut members: Vec<AccountId> = Vec::new();
        members.push(creator);
        let info = GroupInfo {
            owner: Some(creator),
            creator,
            commission,
            group_account_id,
            create_block_high: now,
            visibility,
            min_liquidity,
            max_members_number,
            join_fee,
            status: GroupStatus::Active,
            members,
        };
        proof {
            lemma_map_values_insert(self.groups@, id, info, |g: GroupInfo| g@);
            assert(info@.members =~= seq![creator]);
        }
        self.create_reserve_of_group.insert(id, deposit);
        self.groups.insert(id, info);
        self.next_group_id = id + 1;
        self.events.push(Event::CreateGroup { creator, group_id: id });
        proof {
            create_group_keeps_invariants(old(self)@, old(servers)@, origin, server_id, min_liquidity, max_members_number, commission, visibility, join_fee, now, reserved);
        }
        Ok(())
    }

    /// Whether `who` is on the ban list of group `group_id`.
    fn is_banned(&self, group_id: GroupId, who: AccountId) -> (b: bool)
        ensures
            b == self@.black_list(group_id).contains(who),
    {
        match self.black_list_of_group.get(&group_id) {
            Some(bl) => position_of(bl, who).is_some(),
            None => false,
        }
    }

    /// Whether `who` is on the invitation list of group `group_id`.
    fn is_invited(&self, group_id: GroupId, who: AccountId) -> (b: bool)
        ensures
            b == self@.invitees(group_id).contains(who),
    {
        match self.invitees_of_group.get(&group_id) {
            Some(inv) => position_of(inv, who).is_some(),
            None => false,
        }
    }

    /// Enters `new_member` into group `group_id`: the signer joins it
    /// itself, or its owner invites someone else.
    pub fn enter_group(&mut self, origin: Origin, group_id: GroupId, new_member: AccountId, liquidity: Option<Liquidity>) -> (r: Result<(), DispatchError>)
        ensures
            follows(r, old(self)@, final(self)@, old(self)@.enter_group(origin, group_id, new_member)),
            old(self)@.wf() ==> final(self)@.wf(),
            old(self)@.ids_below_next() ==> final(self)@.ids_below_next(),
    {
        let who = match ensure_signed(origin) {
            Ok(who) => who,
            Err(e) => return Err(e),
        };
        match self.try_get_exists_and_active_group(group_id) {
            Ok(()) => {},
            Err(e) => return Err(e),
        }
        if self.is_banned(group_id, new_member) {
            return Err(DispatchError::Group(Error::InBlackList));
        }
        let (owner, max, len, visibility) = match self.groups.get(&group_id) {
            Some(g) => (g.owner, g.max_members_number, g.members.len(), g.visibility),
            None => return Err(DispatchError::Group(Error::GroupNotExists)),
        };
        if who != new_member {
            if owner != Some(who) {
                return Err(DispatchError::Group(Error::NotGroupOwner));
            }
            let ghost pre = self.invitees_of_group@;
            let mut invitees = match self.invitees_of_group.remove(&group_id) {
                Some(v) => v,
                None => Vec::new(),
            };
            retain_not_equal(&mut invitees, new_member);
            invitees.push(new_member);
            proof {
                lemma_map_values_insert(pre, group_id, invitees, |v: Vec<AccountId>| v@);
                assert(pre.remove(group_id).insert(group_id, invitees) =~= pre.insert(group_id, invitees));
            }
            self.invitees_of_group.insert(group_id, invitees);
            self.events.push(Event::Invite { group_id, who, invitee: new_member });
            proof {
                enter_group_keeps_invariants(old(self)@, origin, group_id, new_member);
            }
            return Ok(());
        }
        if !(max > len as u32) {
            return Err(DispatchError::Group(Error::GroupAtCapacity));
        }
        let invited = self.is_invited(group_id, new_member);
        if !((visibility == Visibility::Private && invited) || visibility == Visibility::Public) {
            return Err(DispatchError::Group(Error::PermissionDenied));
        }
        match self.try_add_liquidity(group_id, liquidity) {
            Ok(()) => {},
            Err(e) => return Err(e),
        }
        if max == u32::MAX {
            return Err(DispatchError::Group(Error::StorageOverflow));
        }
        let ghost pre = self.groups@;
        let mut g = match self.groups.remove(&group_id) {
            Some(g) => g,
            None => return Err(DispatchError::Group(Error::GroupNotExists)),
        };
        retain_not_equal(&mut g.members, new_member);
        g.members.push(new_member);
        proof {
            lemma_map_values_insert(pre, group_id, g, |g: GroupInfo| g@);
            assert(pre.remove(group_id).insert(group_id, g) =~= pre.insert(group_id, g));
        }
        self.groups.insert(group_id, g);
        self.events.push(Event::EnterGroup { who: new_member, group_id });
        proof {
            enter_group_keeps_invariants(old(self)@, origin, group_id, new_member);
        }
        Ok(())
    }

    /// Takes `old_member` out of group `group_id`: the member leaves, or
    /// the owner kicks them out and bans them.
    pub fn leave_group(&mut self, origin: Origin, group_id: GroupId, old_member: AccountId) -> (r: Result<(), DispatchError>)
        ensures
            follows(r, old(self)@, final(self)@, old(self)@.leave_group(origin, group_id, old_member)),
            old(self)@.wf() ==> final(self)@.wf(),
            old(self)@.ids_below_next() ==> final(self)@.ids_below_next(),
    {
        let who = match ensure_signed(origin) {
            Ok(who) => who,
            Err(e) => return Err(e),
        };
        match self.try_get_exists_and_active_group(group_id) {
            Ok(()) => {},
            Err(e) => return Err(e),
        }
        let (owner, len, pos) = match self.groups.get(&group_id) {
            Some(g) => (g.owner, g.members.len(), position_of(&g.members, old_member)),
            None => return Err(DispatchError::Group(Error::GroupNotExists)),
        };
        let is_kick = old_member != who;
        if is_kick && owner != Some(who) {
            return Err(DispatchError::Group(Error::NotGroupOwner));
        }
        if !(len > 1) {
            return Err(DispatchError::Group(Error::OnlyOneMember));
        }
        if owner == Some(old_member) {
            return Err(DispatchError::Group(Error::OwnerCannotLeave));
        }
        let pos = match pos {
            Some(p) => p,
            None => return Err(DispatchError::Group(Error::MemberNotInGroup)),
        };
        if is_kick {
            let ghost pre = self.black_list_of_group@;
            let mut banned = match self.black_list_of_group.remove(&group_id) {
                Some(v) => v,
                None => Vec::new(),
            };
            retain_not_equal(&mut banned, old_member);
            banned.push(old_member);
            proof {
                lemma_map_values_insert(pre, group_id, banned, |v: Vec<AccountId>| v@);
                assert(pre.remove(group_id).insert(group_id, banned) =~= pre.insert(group_id, banned));
            }
            self.black_list_of_group.insert(group_id, banned);
        }
        let ghost pre = self.groups@;
        let mut g = match self.groups.remove(&group_id) {
            Some(g) => g,
            None => return Err(DispatchError::Group(Error::GroupNotExists)),
        };
        g.members.remove(pos);
        proof {
            lemma_map_values_insert(pre, group_id, g, |g: GroupInfo| g@);
            assert(pre.remove(group_id).insert(group_id, g) =~= pre.insert(group_id, g));
        }
        self.groups.insert(group_id, g);
        if is_kick {
            self.events.push(Event::KickSomeOne { group_id, who, someone_kicked: old_member });
        } else {
            self.events.push(Event::LeaveGroup { group_id, old_member });
        }
        proof {
            leave_group_keeps_invariants(old(self)@, origin, group_id, old_member);
        }
        Ok(())
    }

    /// Gives group `group_id` a candy of `asset` from the signer; `reserved`
    /// is what the reservation that `give_candy_request` names gave.
    pub fn give_candy(
        &mut self,
        origin: Origin,
        group_id: GroupId,
        asset: MultiAsset,
        max_lucky_number: MemberCount,
        now: BlockNumber,
        reserved: Result<(), DispatchError>,
    ) -> (r: Result<(), DispatchError>)
        ensures
            follows(r, old(self)@, final(self)@, old(self)@.give_candy(origin, group_id, asset, max_lucky_number, now, reserved)),
            old(self)@.wf() ==> final(self)@.wf(),
            old(self)@.ids_below_next() ==> final(self)@.ids_below_next(),
    {
        let owner = match ensure_signed(origin) {
            Ok(who) => who,
            Err(e) => return Err(e),
        };
        if asset.amount == 0 {
            return Err(DispatchError::Group(Error::AmountIsZero));
        }
        let id = self.next_candy_id;
        let end_block = match now.checked_add(self.config.candy_expire) {
            Some(b) => b,
            None => return Err(DispatchError::Group(Error::StorageOverflow)),
        };
        if id == u64::MAX {
            return Err(DispatchError::Group(Error::StorageOverflow));
        }
        match reserved {
            Err(e) => return Err(e),
            Ok(()) => {},
        }
        let candy = CandyInfo {
            group_id,
            owner,
            asset,
            claimed_amount: 0,
            max_lucky_number,
            claim_detail: Vec::new(),
            end_block,
        };
        proof {
            lemma_map_values_insert(self.candies@, id, candy, |c: CandyInfo| c@);
        }
        self.candies.insert(id, candy);
        let ghost pre = self.candies_of_group@;
        let mut ids = match self.candies_of_group.remove(&group_id) {
            Some(v) => v,
            None => Vec::new(),
        };
        ids.push(id);
        proof {
            lemma_map_values_insert(pre, group_id, ids, |v: Vec<CandyId>| v@);
            assert(pre.remove(group_id).insert(group_id, ids) =~= pre.insert(group_id, ids));
        }
        self.candies_of_group.insert(group_id, ids);
        self.next_candy_id = id + 1;
        self.events.push(Event::GiveCandy { boss: owner, group_id, candy: id });
        Ok(())
    }

    /// Disbands group `group_id`; only its owner may.  Returns the
    /// reservations that the runtime is to release.
    pub fn disband_group(&mut self, servers: &mut ServerPallet, origin: Origin, group_id: GroupId) -> (r: Result<Vec<CurrencyOp>, DispatchError>)
        ensures
            follows_with(
                r,
                (old(self)@, old(servers)@),
                (final(self)@, final(servers)@),
                old(self)@.disband_group(old(servers)@, origin, group_id),
            ),
            old(self)@.wf() ==> final(self)@.wf(),
            old(self)@.ids_below_next() ==> final(self)@.ids_below_next(),
    {
        let who = match ensure_signed(origin) {
            Ok(who) => who,
            Err(e) => return Err(e),
        };
        match self.try_get_exists_and_active_group(group_id) {
            Ok(()) => {},
            Err(e) => return Err(e),
        }
        let (owner, creator) = match self.groups.get(&group_id) {
            Some(g) => (g.owner, g.creator),
            None => return Err(DispatchError::Group(Error::GroupNotExists)),
        };
        if owner != Some(who) {
            return Err(DispatchError::Group(Error::NotGroupOwner));
        }
        match self.get_server_id(group_id) {
            Some(server_id) => {
                let ghost pre_servers = servers@;
                let saved = save_server_groups(servers, server_id);
                match self.try_update_server_info(servers, server_id, group_id, true) {
                    Ok(()) => {},
                    Err(e) => {
                        restore_server_groups(servers, server_id, saved, Ghost(pre_servers));
                        return Err(e);
                    },
                }
            },
            None => {},
        }
        let ghost pre = self@;
        let ghost pre_cog = self.candies_of_group@;
        let ghost pre_groups = self.groups@;
        let ghost pre_bl = self.black_list_of_group@;
        let ghost pre_inv = self.invitees_of_group@;
        let ghost srv = servers@;
        let ids = match self.candies_of_group.remove(&group_id) {
            Some(v) => v,
            None => Vec::new(),
        };
        assert(ids@ == pre.candies_of(group_id));
        let mut ops: Vec<CurrencyOp> = Vec::new();
        let mut i: usize = 0;
        while i < ids.len()
            invariant
                i <= ids@.len(),
                ids@ == pre.candies_of(group_id),
                (self@.candies, ops@) == release_candies(pre.config, pre.candies, ids@.take(i as int)),
                self.config == pre.config,
                self.groups@ == pre_groups,
                self.black_list_of_group@ == pre_bl,
                self.invitees_of_group@ == pre_inv,
                self.candies_of_group@ == pre_cog.remove(group_id),
                self.server_of@ == pre.server_of,
                self.create_reserve_of_group@ == pre.create_reserve_of_group,
                self.events@ == pre.events,
                self.next_group_id == pre.next_group_id,
                self.next_candy_id == pre.next_candy_id,
                servers@ == srv,
            decreases ids@.len() - i,
        {
            let id = ids[i];
            proof {
                assert(ids@.take(i + 1).drop_last() =~= ids@.take(i as int));
            }
            let ghost before = self.candies@;
            match self.candies.remove(&id) {
                Some(c) => {
                    proof {
                        lemma_map_values_remove(before, id, |c: CandyInfo| c@);
                    }
                    let remain = c.asset.amount.saturating_sub(c.claimed_amount);
                    if remain != 0 {
                        ops.push(CurrencyOp::UnreserveNamed {
                            id: self.config.candy_reserve_identifier,
                            currency_id: c.asset.asset_id,
                            who: c.owner,
                            amount: remain,
                        });
                    }
                    proof {
                        assert(ops@ =~= release_candies(pre.config, pre.candies, ids@.take(i as int)).1 + release_of(pre.config, c@));
                    }
                },
                None => {
                    proof {
                        assert(before.remove(id) =~= before);
                    }
                },
            }
            i += 1;
        }
        proof {
            assert(ids@.take(ids@.len() as int) =~= ids@);
        }
        let empty: Vec<CandyId> = Vec::new();
        proof {
            lemma_map_values_insert(pre_cog, group_id, empty, |v: Vec<CandyId>| v@);
            assert(pre_cog.remove(group_id).insert(group_id, empty) =~= pre_cog.insert(group_id, empty));
        }
        self.candies_of_group.insert(group_id, empty);
        let deposit = match self.create_reserve_of_group.get(&group_id) {
            Some(d) => *d,
            None => 0,
        };
        if deposit != 0 {
            ops.push(CurrencyOp::Unreserve { currency_id: self.config.native_currency_id, who: creator, amount: deposit });
        }
        let mut g = match self.groups.remove(&group_id) {
            Some(g) => g,
            None => return Err(DispatchError::Group(Error::GroupNotExists)),
        };
        g.status = GroupStatus::Disbanded;
        proof {
            lemma_map_values_insert(pre_groups, group_id, g, |g: GroupInfo| g@);
            assert(pre_groups.remove(group_id).insert(group_id, g) =~= pre_groups.insert(group_id, g));
        }
        self.groups.insert(group_id, g);
        proof {
            lemma_map_values_remove(self.black_list_of_group@, group_id, |v: Vec<AccountId>| v@);
            lemma_map_values_remove(self.invitees_of_group@, group_id, |v: Vec<AccountId>| v@);
        }
        self.black_list_of_group.remove(&group_id);
        self.invitees_of_group.remove(&group_id);
        self.events.push(Event::DisbandGroup { group_id });
        proof {
            disband_group_keeps_invariants(old(self)@, old(servers)@, origin, group_id);
        }
        Ok(ops)
    }

    /// Hands candy `candy_id` of group `group_id` out as `detail` says, for
    /// the owner of the group's server; the transfer of the `i`th claim (the
    /// `i`th request that `claim_requests` gives) gave `transfers[i]`.  A
    /// candy past its end block is taken off the group's list instead, the
    /// candy entry stored under the group's id is deleted, and the result is
    /// the release of what was left of the candy.
    pub fn get_candy(
        &mut self,
        servers: &ServerPallet,
        origin: Origin,
        group_id: GroupId,
        candy_id: CandyId,
        detail: Vec<(AccountId, Balance)>,
        now: BlockNumber,
        transfers: &Vec<Result<(), DispatchError>>,
    ) -> (r: Result<Vec<CurrencyOp>, DispatchError>)
        requires
            transfers@.len() == detail@.len(),
        ensures
            follows_with(
                r,
                old(self)@,
                final(self)@,
                old(self)@.get_candy(servers@, origin, group_id, candy_id, detail@, now, transfers@),
            ),
            old(self)@.wf() ==> final(self)@.wf(),
            old(self)@.ids_below_next() ==> final(self)@.ids_below_next(),
    {
        let who = match ensure_signed(origin) {
            Ok(who) => who,
            Err(e) => return Err(e),
        };
        match self.try_get_exists_and_active_group(group_id) {
            Ok(()) => {},
            Err(e) => return Err(e),
        }
        let in_group = match self.candies_of_group.get(&group_id) {
            Some(ids) => position_of(ids, candy_id).is_some(),
            None => false,
        };
        if !in_group {
            return Err(DispatchError::Group(Error::CandyNotInGroup));
        }
        let (end_block, asset, claimed, candy_owner, max_lucky, n_claims) = match self.candies.get(&candy_id) {
            Some(c) => (c.end_block, c.asset, c.claimed_amount, c.owner, c.max_lucky_number, c.claim_detail.len()),
            None => return Err(DispatchError::Group(Error::CandyNotExists)),
        };
        if end_block < now {
            let remain = asset.amount.saturating_sub(claimed);
            let mut ops: Vec<CurrencyOp> = Vec::new();
            if remain != 0 {
                ops.push(CurrencyOp::UnreserveNamed {
                    id: self.config.candy_reserve_identifier,
                    currency_id: asset.asset_id,
                    who: candy_owner,
                    amount: remain,
                });
            }
            let ghost pre = self.candies_of_group@;
            let mut ids = match self.candies_of_group.remove(&group_id) {
                Some(v) => v,
                None => Vec::new(),
            };
            retain_not_equal(&mut ids, candy_id);
            proof {
                lemma_map_values_insert(pre, group_id, ids, |v: Vec<CandyId>| v@);
                assert(pre.remove(group_id).insert(group_id, ids) =~= pre.insert(group_id, ids));
            }
            self.candies_of_group.insert(group_id, ids);
            proof {
                lemma_map_values_remove(self.candies@, group_id, |c: CandyInfo| c@);
            }
            self.candies.remove(&group_id);
            self.events.push(Event::RemoveExpiredCandy { group_id, candy_id, asset_id: asset.asset_id, remain_amount: remain });
            proof {
                assert(ops@ =~= release_of(self.config, old(self)@.candies[candy_id]));
            }
            proof {
                get_candy_keeps_invariants(old(self)@, servers@, origin, group_id, candy_id, detail@, now, transfers@);
            }
            return Ok(ops);
        }
        let server_id = match self.server_of.get(&group_id) {
            Some(s) => *s,
            None => return Err(DispatchError::Group(Error::GroupNotInAnyServer)),
        };
        if !Self::is_server_owner(servers, server_id, who) {
            return Err(DispatchError::Group(Error::NotServerOwner));
        }
        let ghost c0 = self@.candies[candy_id];
        let ghost members = self@.groups[group_id].members;
        let mut added: Vec<(AccountId, Balance)> = Vec::new();
        let mut new_events: Vec<Event> = Vec::new();
        let mut claimed_now: Balance = claimed;
        let mut i: usize = 0;
        while i < detail.len()
            invariant
                i <= detail@.len(),
                transfers@.len() == detail@.len(),
                self@ == old(self)@,
                self@.groups.contains_key(group_id),
                self@.candies.contains_key(candy_id),
                c0 == self@.candies[candy_id],
                members == self@.groups[group_id].members,
                c0.claimed_amount == claimed,
                c0.asset == asset,
                c0.max_lucky_number == max_lucky,
                c0.claim_detail.len() == n_claims,
                !(c0.end_block < now),
                signer(origin) == Some(who),
                old(self)@.active_group(group_id) is Ok,
                old(self)@.candies_of(group_id).contains(candy_id),
                old(self)@.server_of.contains_key(group_id),
                servers@.is_owner(old(self)@.server_of[group_id], who),
                claim_all(c0, members, group_id, candy_id, detail@.take(i as int), transfers@) == Ok::<(CandyInfoView, Seq<Event>), DispatchError>((
                    CandyInfoView { claimed_amount: claimed_now, claim_detail: c0.claim_detail + added@, ..c0 },
                    new_events@,
                )),
            decreases detail@.len() - i,
        {
            let (lucky_man, amount) = detail[i];
            let ghost prev = CandyInfoView { claimed_amount: claimed_now, claim_detail: c0.claim_detail + added@, ..c0 };
            proof {
                assert(detail@.take(i + 1).drop_last() =~= detail@.take(i as int));
                assert(detail@.take(i + 1).last() == detail@[i as int]);
            }
            let err: Option<DispatchError> = {
                let already = match self.candies.get(&candy_id) {
                    Some(c) => claimed_by(&c.claim_detail, lucky_man),
                    None => false,
                } || claimed_by(&added, lucky_man);
                proof {
                    lemma_has_claimed_concat(c0.claim_detail, added@, lucky_man);
                }
                if already {
                    Some(DispatchError::Group(Error::AlreadyGetCandy))
                } else {
                    let is_member = match self.groups.get(&group_id) {
                        Some(g) => position_of(&g.members, lucky_man).is_some(),
                        None => false,
                    };
                    if !is_member {
                        Some(DispatchError::Group(Error::MemberNotInGroup))
                    } else if !(max_lucky > #[verifier::truncate] ((n_claims as u128 + added.len() as u128) as u32)) {
                        Some(DispatchError::Group(Error::LuckyNumberUpMax))
                    } else {
                        match claimed_now.checked_add(amount) {
                            None => Some(DispatchError::Group(Error::StorageOverflow)),
                            Some(total) => if total > asset.amount {
                                Some(DispatchError::Group(Error::ClaimedAmountUpMax))
                            } else {
                                match transfers[i] {
                                    Err(e) => Some(e),
                                    Ok(()) => None,
                                }
                            },
                        }
                    }
                }
            };
            proof {
                assert(prev.claim_detail.len() == n_claims + added@.len());
                assert(claim_all(c0, members, group_id, candy_id, detail@.take(i + 1), transfers@)
                    == match claim_one(prev, members, group_id, candy_id, lucky_man, amount, transfers@[i as int]) {
                        Err(e) => Err(e),
                        Ok((c2, ev)) => Ok((c2, new_events@.push(ev))),
                    });
            }
            match err {
                Some(e) => {
                    proof {
                        assert(claim_one(prev, members, group_id, candy_id, lucky_man, amount, transfers@[i as int]) == Err::<(CandyInfoView, Event), DispatchError>(e));
                        lemma_claim_all_prefix_err(c0, members, group_id, candy_id, detail@, transfers@, i + 1);
                    }
                    return Err(e);
                },
                None => {},
            }
            claimed_now = claimed_now + amount;
            added.push((lucky_man, amount));
            new_events.push(Event::GetCandy {
                lucky_man,
                group_id,
                candy_id,
                amount: MultiAsset { asset_id: asset.asset_id, amount },
            });
            proof {
                assert(c0.claim_detail + added@ =~= (c0.claim_detail + added@.drop_last()).push((lucky_man, amount)));
            }
            i += 1;
        }
        proof {
            assert(detail@.take(detail@.len() as int) =~= detail@);
        }
        let ghost pre = self.candies@;
        let mut c = match self.candies.remove(&candy_id) {
            Some(c) => c,
            None => return Err(DispatchError::Group(Error::CandyNotExists)),
        };
        c.claimed_amount = claimed_now;
        c.claim_detail.append(&mut added);
        proof {
            lemma_map_values_insert(pre, candy_id, c, |c: CandyInfo| c@);
            assert(pre.remove(candy_id).insert(candy_id, c) =~= pre.insert(candy_id, c));
        }
        self.candies.insert(candy_id, c);
        self.events.append(&mut new_events);
        proof {
            get_candy_keeps_invariants(old(self)@, servers@, origin, group_id, candy_id, detail@, now, transfers@);
        }
        Ok(Vec::new())
    }
}

} // verus!
