//! What every call of the group pallet keeps, and how its calls combine.
use vstd::prelude::*;
use crate::dispatch::{signer, DispatchError, Origin};
use crate::group::{claim_all, claim_one, has_claimed, release_candies, CandyId, CandyInfoView, Config, GroupId, GroupInfoView, GroupState, GroupStatus, Liquidity, MemberCount, MultiAsset, ServerId, Visibility};
use crate::seqs::{first_index, lemma_first_index_exists, lemma_without_contains, lemma_without_len, without};
use crate::server::ServerState;
use crate::server_laws::{step as server_step, ServerCall};
use crate::types::{AccountId, Balance, BlockNumber, Perbill};

verus! {

/// The sum of the amounts of `claims`.
pub open spec fn claims_total(claims: Seq<(AccountId, Balance)>) -> int
    decreases claims.len(),
{
    if claims.len() == 0 {
        0
    } else {
        claims_total(claims.drop_last()) + claims.last().1
    }
}

/// No account appears twice among `claims`.
pub open spec fn claimants_distinct(claims: Seq<(AccountId, Balance)>) -> bool {
    forall|i: int, j: int| 0 <= i < j < claims.len() ==> claims[i].0 != claims[j].0
}

impl GroupInfoView {
    /// A group has an owner, who is one of its members, and no member twice.
    pub open spec fn wf(self) -> bool {
        &&& self.owner is Some
        &&& self.members.contains(self.owner->Some_0)
        &&& self.members.no_duplicates()
    }
}

impl CandyInfoView {
    /// A candy's claims are by distinct accounts, at most as many as it
    /// allows, and add up to what was claimed, which is at most its amount.
    pub open spec fn wf(self) -> bool {
        &&& self.claimed_amount <= self.asset.amount
        &&& self.claimed_amount == claims_total(self.claim_detail)
        &&& claimants_distinct(self.claim_detail)
        &&& self.claim_detail.len() <= self.max_lucky_number
    }
}

impl GroupState {
    /// Every group and every candy is well formed.
    pub open spec fn wf(self) -> bool {
        &&& forall|id: GroupId| #[trigger] self.groups.contains_key(id) ==> self.groups[id].wf()
        &&& forall|id: CandyId| #[trigger] self.candies.contains_key(id) ==> self.candies[id].wf()
    }
}

/// Taking a value out of a list without repeats leaves a list without
/// repeats.
proof fn lemma_without_no_duplicates(s: Seq<AccountId>, x: AccountId)
    requires
        s.no_duplicates(),
    ensures
        without(s, x).no_duplicates(),
    decreases s.len(),
{
    if s.len() > 0 {
        let d = s.drop_last();
        assert(d.no_duplicates());
        lemma_without_no_duplicates(d, x);
        if s.last() != x {
            lemma_without_contains(d, x, s.last());
            if d.contains(s.last()) {
                let i = choose|i: int| 0 <= i < d.len() && d[i] == s.last();
                assert(s[i] == s[s.len() - 1]);
            }
        }
    }
}

/// Removing one position from a list without repeats leaves one without
/// repeats, holding every other value it held.
proof fn lemma_remove_at(s: Seq<AccountId>, i: int, y: AccountId)
    requires
        s.no_duplicates(),
        0 <= i < s.len(),
        s.contains(y),
        s[i] != y,
    ensures
        s.remove(i).no_duplicates(),
        s.remove(i).contains(y),
{
    let k = choose|k: int| 0 <= k < s.len() && s[k] == y;
    if k < i {
        assert(s.remove(i)[k] == y);
    } else {
        assert(s.remove(i)[k - 1] == y);
    }
}

/// Joining keeps a group well formed.
proof fn lemma_join_keeps_wf(g: GroupInfoView, x: AccountId)
    requires
        g.wf(),
    ensures
        (GroupInfoView { members: without(g.members, x).push(x), ..g }).wf(),
{
    let w = without(g.members, x);
    lemma_without_no_duplicates(g.members, x);
    lemma_without_contains(g.members, x, x);
    lemma_without_contains(g.members, x, g.owner->Some_0);
    assert(w.push(x)[w.len() as int] == x);
    if g.owner->Some_0 != x {
        let k = choose|k: int| 0 <= k < w.len() && w[k] == g.owner->Some_0;
        assert(w.push(x)[k] == g.owner->Some_0);
    }
}

/// Releasing candies keeps every remaining candy as it was.
proof fn lemma_release_candies_submap(config: Config, candies: Map<CandyId, CandyInfoView>, ids: Seq<CandyId>)
    ensures
        forall|id: CandyId| #[trigger] release_candies(config, candies, ids).0.contains_key(id) ==> candies.contains_key(id)
            && release_candies(config, candies, ids).0[id] == candies[id],
    decreases ids.len(),
{
    if ids.len() > 0 {
        lemma_release_candies_submap(config, candies, ids.drop_last());
        let m = release_candies(config, candies, ids.drop_last()).0;
        let r = release_candies(config, candies, ids).0;
        assert forall|id: CandyId| #[trigger] r.contains_key(id) implies candies.contains_key(id) && r[id] == candies[id] by {
            assert(m.contains_key(id));
        }
    }
}

/// One accepted claim keeps a candy well formed.
proof fn lemma_claim_one_keeps_wf(
    c: CandyInfoView,
    members: Seq<AccountId>,
    group_id: GroupId,
    candy_id: CandyId,
    who: AccountId,
    amount: Balance,
    transfer: Result<(), DispatchError>,
)
    requires
        c.wf(),
        claim_one(c, members, group_id, candy_id, who, amount, transfer) is Ok,
    ensures
        claim_one(c, members, group_id, candy_id, who, amount, transfer)->Ok_0.0.wf(),
{
    let c2 = claim_one(c, members, group_id, candy_id, who, amount, transfer)->Ok_0.0;
    assert(c2.claim_detail.drop_last() =~= c.claim_detail);
    assert forall|i: int, j: int| 0 <= i < j < c2.claim_detail.len() implies c2.claim_detail[i].0 != c2.claim_detail[j].0 by {
        if j == c.claim_detail.len() {
            assert(c2.claim_detail[i] == c.claim_detail[i]);
            if c.claim_detail[i].0 == who {
                assert(has_claimed(c.claim_detail, who));
            }
        } else {
            assert(c2.claim_detail[i] == c.claim_detail[i]);
            assert(c2.claim_detail[j] == c.claim_detail[j]);
        }
    }
}

/// Accepted claims keep a candy well formed.
proof fn lemma_claim_all_keeps_wf(
    c: CandyInfoView,
    members: Seq<AccountId>,
    group_id: GroupId,
    candy_id: CandyId,
    detail: Seq<(AccountId, Balance)>,
    transfers: Seq<Result<(), DispatchError>>,
)
    requires
        c.wf(),
        claim_all(c, members, group_id, candy_id, detail, transfers) is Ok,
    ensures
        claim_all(c, members, group_id, candy_id, detail, transfers)->Ok_0.0.wf(),
    decreases detail.len(),
{
    if detail.len() > 0 {
        lemma_claim_all_keeps_wf(c, members, group_id, candy_id, detail.drop_last(), transfers);
        let c1 = claim_all(c, members, group_id, candy_id, detail.drop_last(), transfers)->Ok_0.0;
        lemma_claim_one_keeps_wf(c1, members, group_id, candy_id, detail.last().0, detail.last().1, transfers[detail.len() - 1]);
    }
}

/// Creating a group keeps the group pallet well formed.
pub proof fn create_group_keeps_wf(
    s: GroupState,
    servers: ServerState,
    origin: Origin,
    server_id: Option<ServerId>,
    min_liquidity: Option<Liquidity>,
    max_members_number: u32,
    commission: Perbill,
    visibility: Visibility,
    join_fee: Option<MultiAsset>,
    now: BlockNumber,
    reserved: Result<(), DispatchError>,
)
    requires
        s.wf(),
        s.create_group(servers, origin, server_id, min_liquidity, max_members_number, commission, visibility, join_fee, now, reserved) is Ok,
    ensures
        s.create_group(servers, origin, server_id, min_liquidity, max_members_number, commission, visibility, join_fee, now, reserved)->Ok_0.0.wf(),
{
    let creator = signer(origin)->Some_0;
    assert(seq![creator].contains(creator)) by {
        assert(seq![creator][0] == creator);
    }
}

/// Entering a group, or being invited to it, keeps the group pallet well
/// formed.
pub proof fn enter_group_keeps_wf(s: GroupState, origin: Origin, group_id: GroupId, new_member: AccountId)
    requires
        s.wf(),
        s.enter_group(origin, group_id, new_member) is Ok,
    ensures
        s.enter_group(origin, group_id, new_member)->Ok_0.wf(),
{
    if signer(origin)->Some_0 == new_member {
        lemma_join_keeps_wf(s.groups[group_id], new_member);
    }
}

/// Leaving a group, or being kicked out of it, keeps the group pallet well
/// formed.
pub proof fn leave_group_keeps_wf(s: GroupState, origin: Origin, group_id: GroupId, old_member: AccountId)
    requires
        s.wf(),
        s.leave_group(origin, group_id, old_member) is Ok,
    ensures
        s.leave_group(origin, group_id, old_member)->Ok_0.wf(),
{
    let g = s.groups[group_id];
    let i = first_index(g.members, old_member);
    lemma_first_index_exists(g.members, old_member);
    lemma_remove_at(g.members, i, g.owner->Some_0);
}

/// Disbanding a group keeps the group pallet well formed.
pub proof fn disband_group_keeps_wf(s: GroupState, servers: ServerState, origin: Origin, group_id: GroupId)
    requires
        s.wf(),
        s.disband_group(servers, origin, group_id) is Ok,
    ensures
        s.disband_group(servers, origin, group_id)->Ok_0.0.0.wf(),
{
    lemma_release_candies_submap(s.config, s.candies, s.candies_of(group_id));
}

/// Giving a candy keeps the group pallet well formed.
pub proof fn give_candy_keeps_wf(
    s: GroupState,
    origin: Origin,
    group_id: GroupId,
    asset: MultiAsset,
    max_lucky_number: MemberCount,
    now: BlockNumber,
    reserved: Result<(), DispatchError>,
)
    requires
        s.wf(),
        s.give_candy(origin, group_id, asset, max_lucky_number, now, reserved) is Ok,
    ensures
        s.give_candy(origin, group_id, asset, max_lucky_number, now, reserved)->Ok_0.wf(),
{
}

/// Handing a candy out, or removing it once expired, keeps the group
/// pallet well formed.
pub proof fn get_candy_keeps_wf(
    s: GroupState,
    servers: ServerState,
    origin: Origin,
    group_id: GroupId,
    candy_id: CandyId,
    detail: Seq<(AccountId, Balance)>,
    now: BlockNumber,
    transfers: Seq<Result<(), DispatchError>>,
)
    requires
        s.wf(),
        s.get_candy(servers, origin, group_id, candy_id, detail, now, transfers) is Ok,
    ensures
        s.get_candy(servers, origin, group_id, candy_id, detail, now, transfers)->Ok_0.0.wf(),
{
    let c = s.candies[candy_id];
    if !(c.end_block < now) {
        lemma_claim_all_keeps_wf(c, s.groups[group_id].members, group_id, candy_id, detail, transfers);
    }
}


/// An account that is not a member of an active public group, is not
/// banned from it and finds room in it, joins it and leaves it again: the
/// group's members are as they were.
pub proof fn join_then_leave_restores_members(s: GroupState, group_id: GroupId, who: AccountId)
    requires
        s.wf(),
        s.active_group(group_id) is Ok,
        s.groups[group_id].visibility == Visibility::Public,
        !s.groups[group_id].members.contains(who),
        !s.black_list(group_id).contains(who),
        s.groups[group_id].max_members_number > (s.groups[group_id].members.len() as u32),
        s.groups[group_id].max_members_number < u32::MAX,
    ensures
        s.enter_group(Origin::Signed(who), group_id, who) is Ok,
        s.enter_group(Origin::Signed(who), group_id, who)->Ok_0.leave_group(Origin::Signed(who), group_id, who) is Ok,
        s.enter_group(Origin::Signed(who), group_id, who)->Ok_0.leave_group(Origin::Signed(who), group_id, who)->Ok_0.groups[group_id].members
            == s.groups[group_id].members,
{
    let g = s.groups[group_id];
    let m = g.members;
    crate::seqs::lemma_without_absent(m, who);
    let s1 = s.enter_group(Origin::Signed(who), group_id, who)->Ok_0;
    let m1 = m.push(who);
    assert(s1.groups[group_id].members == m1);
    assert(m1[m.len() as int] == who);
    assert(m1.contains(who));
    assert(m.contains(g.owner->Some_0));
    assert(m.len() >= 1) by {
        let k = choose|k: int| 0 <= k < m.len() && m[k] == g.owner->Some_0;
    }
    assert(g.owner != Some(who));
    assert(crate::seqs::is_first_index(m1, who, m.len() as int)) by {
        assert forall|j: int| 0 <= j < m.len() implies m1[j] != who by {
            assert(m1[j] == m[j]);
        }
    }
    crate::seqs::lemma_first_index(m1, who, m.len() as int);
    assert(m1.remove(m.len() as int) =~= m);
}

/// Once a group is disbanded, every call on it is refused as disbanded.
pub proof fn disbanded_group_refuses_calls(
    s: GroupState,
    servers: ServerState,
    origin: Origin,
    group_id: GroupId,
    who: AccountId,
    member: AccountId,
    candy_id: CandyId,
    detail: Seq<(AccountId, Balance)>,
    now: BlockNumber,
    transfers: Seq<Result<(), DispatchError>>,
)
    requires
        s.disband_group(servers, origin, group_id) is Ok,
    ensures
        ({
            let (s2, servers2) = s.disband_group(servers, origin, group_id)->Ok_0.0;
            let refused = Err::<GroupInfoView, DispatchError>(DispatchError::Group(crate::group::Error::GroupDisbanded));
            &&& s2.active_group(group_id) == refused
            &&& s2.enter_group(Origin::Signed(who), group_id, member) == Err::<GroupState, DispatchError>(DispatchError::Group(crate::group::Error::GroupDisbanded))
            &&& s2.leave_group(Origin::Signed(who), group_id, member) == Err::<GroupState, DispatchError>(DispatchError::Group(crate::group::Error::GroupDisbanded))
            &&& s2.disband_group(servers2, Origin::Signed(who), group_id) is Err
            &&& s2.get_candy(servers2, Origin::Signed(who), group_id, candy_id, detail, now, transfers) is Err
        }),
{
}


/// Handing a candy out keeps every well-formed candy well formed, whatever
/// the call's result: no candy pays out more than it holds, has more
/// winners than it allows, or pays one account twice.
pub proof fn get_candy_keeps_each_candy_wf(
    s: GroupState,
    servers: ServerState,
    origin: Origin,
    group_id: GroupId,
    candy_id: CandyId,
    detail: Seq<(AccountId, Balance)>,
    now: BlockNumber,
    transfers: Seq<Result<(), DispatchError>>,
    c: CandyId,
)
    requires
        s.candies.contains_key(c) ==> s.candies[c].wf(),
    ensures
        ({
            let s2 = match s.get_candy(servers, origin, group_id, candy_id, detail, now, transfers) {
                Ok((next, _)) => next,
                Err(_) => s,
            };
            s2.candies.contains_key(c) ==> s2.candies[c].wf()
        }),
{
    if s.get_candy(servers, origin, group_id, candy_id, detail, now, transfers) is Ok && c == candy_id {
        let c0 = s.candies[candy_id];
        if !(c0.end_block < now) {
            lemma_claim_all_keeps_wf(c0, s.groups[group_id].members, group_id, candy_id, detail, transfers);
        }
    }
}

/// Entering a group keeps its members free of repeats, never takes the
/// member count past the larger of what it was and the group's limit,
/// changes no other field of the group, and, when the signer enters
/// itself successfully, makes the signer a member.
pub proof fn enter_group_bounds_members(s: GroupState, origin: Origin, group_id: GroupId, m: AccountId)
    requires
        s.groups.contains_key(group_id),
        s.groups[group_id].members.no_duplicates(),
        s.groups[group_id].members.len() <= u32::MAX,
    ensures
        ({
            let g = s.groups[group_id];
            let s2 = match s.enter_group(origin, group_id, m) {
                Ok(next) => next,
                Err(_) => s,
            };
            let g2 = s2.groups[group_id];
            &&& s2.groups.contains_key(group_id)
            &&& g2.members.no_duplicates()
            &&& g2.members.len() <= (if g.members.len() >= g.max_members_number { g.members.len() as int } else { g.max_members_number as int })
            &&& g2.owner == g.owner
            &&& g2.creator == g.creator
            &&& g2.status == g.status
            &&& g2.max_members_number == g.max_members_number
            &&& (s.enter_group(origin, group_id, m) is Ok && signer(origin) == Some(m) ==> g2.members.contains(m))
        }),
{
    let g = s.groups[group_id];
    if s.enter_group(origin, group_id, m) is Ok && signer(origin) == Some(m) {
        let w = without(g.members, m);
        lemma_without_no_duplicates(g.members, m);
        lemma_without_contains(g.members, m, m);
        lemma_without_len(g.members, m);
        assert(w.push(m)[w.len() as int] == m);
        assert((g.members.len() as u32) == g.members.len());
    }
}

/// A call of the group pallet, or of the server pallet beside it, with its
/// arguments and the outcomes of the currency operations it waits on.
pub enum GroupCall {
    CreateGroup {
        origin: Origin,
        server_id: Option<ServerId>,
        min_liquidity: Option<Liquidity>,
        max_members_number: u32,
        commission: Perbill,
        visibility: Visibility,
        join_fee: Option<MultiAsset>,
        now: BlockNumber,
        reserved: Result<(), DispatchError>,
    },
    EnterGroup { origin: Origin, group_id: GroupId, new_member: AccountId },
    LeaveGroup { origin: Origin, group_id: GroupId, old_member: AccountId },
    DisbandGroup { origin: Origin, group_id: GroupId },
    GiveCandy {
        origin: Origin,
        group_id: GroupId,
        asset: MultiAsset,
        max_lucky_number: MemberCount,
        now: BlockNumber,
        reserved: Result<(), DispatchError>,
    },
    GetCandy {
        origin: Origin,
        group_id: GroupId,
        candy_id: CandyId,
        detail: Seq<(AccountId, Balance)>,
        now: BlockNumber,
        transfers: Seq<Result<(), DispatchError>>,
    },
    Server(ServerCall),
}

/// The two pallets after `call`: the rule's next state where it accepts
/// the call; a refused group call changes nothing.
pub open spec fn group_step(s: (GroupState, ServerState), call: GroupCall) -> (GroupState, ServerState) {
    let (g, sv) = s;
    match call {
        GroupCall::CreateGroup {
            origin,
            server_id,
            min_liquidity,
            max_members_number,
            commission,
            visibility,
            join_fee,
            now,
            reserved,
        } => match g.create_group(
            sv,
            origin,
            server_id,
            min_liquidity,
            max_members_number,
            commission,
            visibility,
            join_fee,
            now,
            reserved,
        ) {
            Ok(next) => next,
            Err(_) => s,
        },
        GroupCall::EnterGroup { origin, group_id, new_member } => match g.enter_group(origin, group_id, new_member) {
            Ok(next) => (next, sv),
            Err(_) => s,
        },
        GroupCall::LeaveGroup { origin, group_id, old_member } => match g.leave_group(origin, group_id, old_member) {
            Ok(next) => (next, sv),
            Err(_) => s,
        },
        GroupCall::DisbandGroup { origin, group_id } => match g.disband_group(sv, origin, group_id) {
            Ok((next, _)) => next,
            Err(_) => s,
        },
        GroupCall::GiveCandy { origin, group_id, asset, max_lucky_number, now, reserved } => match g.give_candy(
            origin,
            group_id,
            asset,
            max_lucky_number,
            now,
            reserved,
        ) {
            Ok(next) => (next, sv),
            Err(_) => s,
        },
        GroupCall::GetCandy { origin, group_id, candy_id, detail, now, transfers } => match g.get_candy(
            sv,
            origin,
            group_id,
            candy_id,
            detail,
            now,
            transfers,
        ) {
            Ok((next, _)) => (next, sv),
            Err(_) => s,
        },
        GroupCall::Server(c) => (g, server_step(sv, c)),
    }
}

/// The two pallets after `calls`, one after the other.
pub open spec fn group_run(s: (GroupState, ServerState), calls: Seq<GroupCall>) -> (GroupState, ServerState)
    decreases calls.len(),
{
    if calls.len() == 0 {
        s
    } else {
        group_step(group_run(s, calls.drop_last()), calls.last())
    }
}

impl GroupState {
    /// Every group has an index below the next free one.
    pub open spec fn ids_below_next(self) -> bool {
        forall|id: GroupId| #[trigger] self.groups.contains_key(id) ==> id < self.next_group_id
    }
}

/// One call keeps every group's index below the next free one, and leaves
/// a disbanded group as it is.
proof fn lemma_step_keeps_disbanded(s: (GroupState, ServerState), call: GroupCall, id: GroupId)
    requires
        s.0.ids_below_next(),
        s.0.groups.contains_key(id),
        s.0.groups[id].status == GroupStatus::Disbanded,
    ensures
        group_step(s, call).0.ids_below_next(),
        group_step(s, call).0.groups.contains_key(id),
        group_step(s, call).0.groups[id] == s.0.groups[id],
{
}

/// A disbanded group stays as it is through any calls of either pallet.
proof fn lemma_run_keeps_disbanded(s: (GroupState, ServerState), calls: Seq<GroupCall>, id: GroupId)
    requires
        s.0.ids_below_next(),
        s.0.groups.contains_key(id),
        s.0.groups[id].status == GroupStatus::Disbanded,
    ensures
        group_run(s, calls).0.ids_below_next(),
        group_run(s, calls).0.groups.contains_key(id),
        group_run(s, calls).0.groups[id] == s.0.groups[id],
    decreases calls.len(),
{
    if calls.len() > 0 {
        lemma_run_keeps_disbanded(s, calls.drop_last(), id);
        lemma_step_keeps_disbanded(group_run(s, calls.drop_last()), calls.last(), id);
    }
}

/// Disbanding is final: once a group is disbanded, it stays as it was
/// left through any later calls of either pallet, and every later attempt
/// to enter it, leave it, hand out its candies or disband it again is
/// refused, as disbanded when the call is signed.
pub proof fn disbanded_group_stays_disbanded(
    s: GroupState,
    servers: ServerState,
    origin: Origin,
    group_id: GroupId,
    later: Seq<GroupCall>,
    origin2: Origin,
    member: AccountId,
    candy_id: CandyId,
    detail: Seq<(AccountId, Balance)>,
    now: BlockNumber,
    transfers: Seq<Result<(), DispatchError>>,
)
    requires
        s.ids_below_next(),
        s.disband_group(servers, origin, group_id) is Ok,
    ensures
        ({
            let s1 = s.disband_group(servers, origin, group_id)->Ok_0.0;
            let (s2, servers2) = group_run(s1, later);
            let disbanded = DispatchError::Group(crate::group::Error::GroupDisbanded);
            let expected = if signer(origin2) is Some { disbanded } else { DispatchError::BadOrigin };
            &&& s2.groups.contains_key(group_id)
            &&& s2.groups[group_id] == s1.0.groups[group_id]
            &&& s2.groups[group_id].status == GroupStatus::Disbanded
            &&& s2.enter_group(origin2, group_id, member) == Err::<GroupState, DispatchError>(expected)
            &&& s2.leave_group(origin2, group_id, member) == Err::<GroupState, DispatchError>(expected)
            &&& s2.disband_group(servers2, origin2, group_id)
                == Err::<((GroupState, ServerState), Seq<crate::group::CurrencyOp>), DispatchError>(expected)
            &&& s2.get_candy(servers2, origin2, group_id, candy_id, detail, now, transfers)
                == Err::<(GroupState, Seq<crate::group::CurrencyOp>), DispatchError>(expected)
        }),
{
    let s1 = s.disband_group(servers, origin, group_id)->Ok_0.0;
    lemma_run_keeps_disbanded(s1, later, group_id);
}

/// An accepted creation of a group keeps the pallet well formed, and every
/// group's index below the next free one.
pub(crate) proof fn create_group_keeps_invariants(
    s: GroupState,
    servers: ServerState,
    origin: Origin,
    server_id: Option<ServerId>,
    min_liquidity: Option<Liquidity>,
    max_members_number: u32,
    commission: Perbill,
    visibility: Visibility,
    join_fee: Option<MultiAsset>,
    now: BlockNumber,
    reserved: Result<(), DispatchError>,
)
    requires
        s.create_group(servers, origin, server_id, min_liquidity, max_members_number, commission, visibility, join_fee, now, reserved) is Ok,
    ensures
        s.wf() ==> s.create_group(servers, origin, server_id, min_liquidity, max_members_number, commission, visibility, join_fee, now, reserved)->Ok_0.0.wf(),
        s.ids_below_next() ==> s.create_group(servers, origin, server_id, min_liquidity, max_members_number, commission, visibility, join_fee, now, reserved)->Ok_0.0.ids_below_next(),
{
    if s.wf() {
        create_group_keeps_wf(s, servers, origin, server_id, min_liquidity, max_members_number, commission, visibility, join_fee, now, reserved);
    }
}

/// An accepted entry keeps the pallet well formed, and every group's index
/// below the next free one.
pub(crate) proof fn enter_group_keeps_invariants(s: GroupState, origin: Origin, group_id: GroupId, new_member: AccountId)
    requires
        s.enter_group(origin, group_id, new_member) is Ok,
    ensures
        s.wf() ==> s.enter_group(origin, group_id, new_member)->Ok_0.wf(),
        s.ids_below_next() ==> s.enter_group(origin, group_id, new_member)->Ok_0.ids_below_next(),
{
    if s.wf() {
        enter_group_keeps_wf(s, origin, group_id, new_member);
    }
}

/// An accepted departure keeps the pallet well formed, and every group's
/// index below the next free one.
pub(crate) proof fn leave_group_keeps_invariants(s: GroupState, origin: Origin, group_id: GroupId, old_member: AccountId)
    requires
        s.leave_group(origin, group_id, old_member) is Ok,
    ensures
        s.wf() ==> s.leave_group(origin, group_id, old_member)->Ok_0.wf(),
        s.ids_below_next() ==> s.leave_group(origin, group_id, old_member)->Ok_0.ids_below_next(),
{
    if s.wf() {
        leave_group_keeps_wf(s, origin, group_id, old_member);
    }
}

/// An accepted disbanding keeps the pallet well formed, and every group's
/// index below the next free one.
pub(crate) proof fn disband_group_keeps_invariants(s: GroupState, servers: ServerState, origin: Origin, group_id: GroupId)
    requires
        s.disband_group(servers, origin, group_id) is Ok,
    ensures
        s.wf() ==> s.disband_group(servers, origin, group_id)->Ok_0.0.0.wf(),
        s.ids_below_next() ==> s.disband_group(servers, origin, group_id)->Ok_0.0.0.ids_below_next(),
{
    if s.wf() {
        disband_group_keeps_wf(s, servers, origin, group_id);
    }
}

/// An accepted hand-out of a candy keeps the pallet well formed, and every
/// group's index below the next free one.
pub(crate) proof fn get_candy_keeps_invariants(
    s: GroupState,
    servers: ServerState,
    origin: Origin,
    group_id: GroupId,
    candy_id: CandyId,
    detail: Seq<(AccountId, Balance)>,
    now: BlockNumber,
    transfers: Seq<Result<(), DispatchError>>,
)
    requires
        s.get_candy(servers, origin, group_id, candy_id, detail, now, transfers) is Ok,
    ensures
        s.wf() ==> s.get_candy(servers, origin, group_id, candy_id, detail, now, transfers)->Ok_0.0.wf(),
        s.ids_below_next() ==> s.get_candy(servers, origin, group_id, candy_id, detail, now, transfers)->Ok_0.0.ids_below_next(),
{
    if s.wf() {
        get_candy_keeps_wf(s, servers, origin, group_id, candy_id, detail, now, transfers);
    }
}

/// A member that leaves a group on its own bans no one: the group's ban
/// list, and every other, is as it was.  Only an owner kicking someone out
/// bans them.
pub proof fn leaving_bans_only_the_kicked(s: GroupState, who: AccountId, group_id: GroupId, old_member: AccountId)
    ensures
        s.leave_group(Origin::Signed(who), group_id, who) is Ok
            ==> s.leave_group(Origin::Signed(who), group_id, who)->Ok_0.black_list_of_group == s.black_list_of_group,
        (s.leave_group(Origin::Signed(who), group_id, old_member) is Ok && who != old_member)
            ==> s.leave_group(Origin::Signed(who), group_id, old_member)->Ok_0.black_list(group_id).contains(old_member),
{
    if s.leave_group(Origin::Signed(who), group_id, old_member) is Ok && who != old_member {
        let w = without(s.black_list(group_id), old_member);
        assert(w.push(old_member)[w.len() as int] == old_member);
    }
}

/// A member that left an active public group on its own may enter it
/// again, if the group has room.
pub proof fn leaving_then_entering_again(s: GroupState, group_id: GroupId, who: AccountId)
    requires
        s.leave_group(Origin::Signed(who), group_id, who) is Ok,
        !s.black_list(group_id).contains(who),
        s.groups[group_id].visibility == Visibility::Public,
        s.groups[group_id].max_members_number < u32::MAX,
        s.groups[group_id].members.len() <= s.groups[group_id].max_members_number,
    ensures
        s.leave_group(Origin::Signed(who), group_id, who)->Ok_0.enter_group(Origin::Signed(who), group_id, who) is Ok,
{
    let g = s.groups[group_id];
    let s1 = s.leave_group(Origin::Signed(who), group_id, who)->Ok_0;
    let g1 = s1.groups[group_id];
    lemma_first_index_exists(g.members, who);
    assert(g1.members.len() == g.members.len() - 1);
    assert(s1.black_list(group_id) == s.black_list(group_id));
}

/// An account on a group's ban list never enters it: neither joining on its
/// own nor being invited by the owner, whoever signs.
pub proof fn banned_account_never_enters(s: GroupState, who: AccountId, group_id: GroupId, new_member: AccountId)
    requires
        s.active_group(group_id) is Ok,
        s.black_list(group_id).contains(new_member),
    ensures
        s.enter_group(Origin::Signed(who), group_id, new_member)
            == Err::<GroupState, DispatchError>(DispatchError::Group(crate::group::Error::InBlackList)),
{
}

/// A member the owner kicked out cannot be invited back.
pub proof fn kicked_member_cannot_be_invited(s: GroupState, owner: AccountId, group_id: GroupId, member: AccountId)
    requires
        s.leave_group(Origin::Signed(owner), group_id, member) is Ok,
        owner != member,
    ensures
        s.leave_group(Origin::Signed(owner), group_id, member)->Ok_0.enter_group(Origin::Signed(owner), group_id, member)
            == Err::<GroupState, DispatchError>(DispatchError::Group(crate::group::Error::InBlackList)),
{
    leaving_bans_only_the_kicked(s, owner, group_id, member);
}

/// Where the candy is there to hand out, the server check of handing it
/// out goes by the server's current owner: anyone else is refused as not
/// the server's owner, and the current owner is let through (a hand-out
/// with no claims is accepted, and one valid claim is paid as asked).
pub proof fn get_candy_checks_current_server_owner(
    s: GroupState,
    servers: ServerState,
    who: AccountId,
    group_id: GroupId,
    candy_id: CandyId,
    detail: Seq<(AccountId, Balance)>,
    now: BlockNumber,
    transfers: Seq<Result<(), DispatchError>>,
    m: AccountId,
    a: Balance,
)
    requires
        s.active_group(group_id) is Ok,
        s.candies_of(group_id).contains(candy_id),
        s.candies.contains_key(candy_id),
        !(s.candies[candy_id].end_block < now),
        s.server_of.contains_key(group_id),
    ensures
        servers.owner_of(s.server_of[group_id]) != Ok::<Option<AccountId>, DispatchError>(Some(who))
            ==> s.get_candy(servers, Origin::Signed(who), group_id, candy_id, detail, now, transfers)
                == Err::<(GroupState, Seq<crate::group::CurrencyOp>), DispatchError>(DispatchError::Group(crate::group::Error::NotServerOwner)),
        servers.owner_of(s.server_of[group_id]) == Ok::<Option<AccountId>, DispatchError>(Some(who))
            ==> s.get_candy(servers, Origin::Signed(who), group_id, candy_id, Seq::empty(), now, transfers) is Ok,
        ({
            let c = s.candies[candy_id];
            (servers.owner_of(s.server_of[group_id]) == Ok::<Option<AccountId>, DispatchError>(Some(who))
                && s.groups[group_id].members.contains(m)
                && !has_claimed(c.claim_detail, m)
                && c.claim_detail.len() < c.max_lucky_number
                && c.claimed_amount + a <= c.asset.amount
                && transfers.len() >= 1
                && transfers[0] is Ok)
            ==> {
                let r = s.get_candy(servers, Origin::Signed(who), group_id, candy_id, seq![(m, a)], now, transfers);
                &&& r is Ok
                &&& r->Ok_0.0.candies[candy_id].claim_detail == c.claim_detail.push((m, a))
                &&& r->Ok_0.0.candies[candy_id].claimed_amount == c.claimed_amount + a
            }
        }),
{
    let c = s.candies[candy_id];
    let d = seq![(m, a)];
    assert(d.drop_last() =~= Seq::<(AccountId, Balance)>::empty());
    if c.claim_detail.len() < c.max_lucky_number {
        assert((c.claim_detail.len() as u32) == c.claim_detail.len());
    }
}

/// After the owner of a server hands it to someone else, the new owner
/// passes the server check of handing out a candy of a group it hosts,
/// and the former owner does not.
pub proof fn handed_over_server_moves_candy_rights(
    s: GroupState,
    servers: ServerState,
    w: AccountId,
    x: AccountId,
    group_id: GroupId,
    candy_id: CandyId,
    detail: Seq<(AccountId, Balance)>,
    now: BlockNumber,
    transfers: Seq<Result<(), DispatchError>>,
)
    requires
        s.active_group(group_id) is Ok,
        s.candies_of(group_id).contains(candy_id),
        s.candies.contains_key(candy_id),
        !(s.candies[candy_id].end_block < now),
        s.server_of.contains_key(group_id),
        servers.set_server_owner(Origin::Signed(w), s.server_of[group_id], Some(x)) is Ok,
        w != x,
    ensures
        ({
            let servers2 = servers.set_server_owner(Origin::Signed(w), s.server_of[group_id], Some(x))->Ok_0;
            &&& s.get_candy(servers2, Origin::Signed(x), group_id, candy_id, Seq::empty(), now, transfers) is Ok
            &&& s.get_candy(servers2, Origin::Signed(w), group_id, candy_id, detail, now, transfers)
                == Err::<(GroupState, Seq<crate::group::CurrencyOp>), DispatchError>(DispatchError::Group(crate::group::Error::NotServerOwner))
        }),
{
    let servers2 = servers.set_server_owner(Origin::Signed(w), s.server_of[group_id], Some(x))->Ok_0;
    get_candy_checks_current_server_owner(s, servers2, x, group_id, candy_id, detail, now, transfers, x, 0);
    get_candy_checks_current_server_owner(s, servers2, w, group_id, candy_id, detail, now, transfers, w, 0);
}

/// A group created on a named server is hosted by that server: the group
/// records it, the server's list of groups gains the new group at its end,
/// and every other server's list is as it was.  A group created without
/// naming a server goes to the official one.
pub proof fn create_group_uses_the_named_server(
    s: GroupState,
    servers: ServerState,
    origin: Origin,
    server_id: Option<ServerId>,
    min_liquidity: Option<Liquidity>,
    max_members_number: u32,
    commission: Perbill,
    visibility: Visibility,
    join_fee: Option<MultiAsset>,
    now: BlockNumber,
    reserved: Result<(), DispatchError>,
)
    requires
        s.create_group(servers, origin, server_id, min_liquidity, max_members_number, commission, visibility, join_fee, now, reserved) is Ok,
    ensures
        ({
            let (s2, servers2) = s.create_group(servers, origin, server_id, min_liquidity, max_members_number, commission, visibility, join_fee, now, reserved)->Ok_0;
            let host = match server_id {
                Some(h) => h,
                None => 0,
            };
            let id = s.next_group_id;
            &&& s2.server_of.contains_key(id)
            &&& s2.server_of[id] == host
            &&& servers.groups_of_server.contains_key(host)
            &&& servers2.groups_of_server.contains_key(host)
            &&& servers2.groups_of_server[host] == servers.groups_of_server[host].push(id)
            &&& forall|t: ServerId| t != host ==> {
                &&& (#[trigger] servers2.groups_of_server.contains_key(t)) == servers.groups_of_server.contains_key(t)
                &&& servers2.groups_of_server.contains_key(t) ==> servers2.groups_of_server[t] == servers.groups_of_server[t]
            }
            &&& servers2.servers == servers.servers
        }),
{
}

} // verus!
