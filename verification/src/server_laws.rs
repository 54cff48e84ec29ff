//! What every call of the server pallet keeps, and how its calls combine.
use vstd::prelude::*;
use crate::dispatch::{DispatchError, Origin};
use crate::seqs::{is_first_index, lemma_first_index};
use crate::server::{Error, Fees, GroupId, ServerId, ServerState};
use crate::types::AccountId;

verus! {

impl ServerState {
    /// Every registered server has an index below the next free one.
    pub open spec fn wf(self) -> bool {
        forall|id: ServerId| #[trigger] self.servers.contains_key(id) ==> id < self.next_server_id
    }
}

/// Registering, handing a server over and setting fees keep every server's
/// index below the next free one.
pub proof fn server_calls_keep_wf(s: ServerState, origin: Origin, metadata: Seq<u8>, id: ServerId, new_owner: Option<AccountId>, fee: Fees)
    requires
        s.wf(),
    ensures
        s.register(origin, metadata) is Ok ==> s.register(origin, metadata)->Ok_0.wf(),
        s.set_server_owner(origin, id, new_owner) is Ok ==> s.set_server_owner(origin, id, new_owner)->Ok_0.wf(),
        s.set_server_fees(origin, id, fee) is Ok ==> s.set_server_fees(origin, id, fee)->Ok_0.wf(),
{
}

/// A signed registration never replaces a server: it adds a server under
/// the next free index, created and owned by the signer, and moves the
/// next free index on by one.
pub proof fn register_adds_owned_server(s: ServerState, who: AccountId, metadata: Seq<u8>)
    requires
        s.wf(),
        s.next_server_id < u64::MAX,
    ensures
        s.register(Origin::Signed(who), metadata) is Ok,
        !s.servers.contains_key(s.next_server_id),
        ({
            let s2 = s.register(Origin::Signed(who), metadata)->Ok_0;
            &&& s2.owner_of(s.next_server_id) == Ok::<Option<AccountId>, DispatchError>(Some(who))
            &&& s2.servers[s.next_server_id].creator == who
            &&& s2.next_server_id == s.next_server_id + 1
            &&& forall|id: ServerId| #[trigger] s.servers.contains_key(id) ==> s2.servers[id] == s.servers[id]
        }),
{
}

/// Only a server's owner sets its fees: once the owner hands the server
/// to someone else, the former owner is refused.
pub proof fn handed_over_server_refuses_former_owner(s: ServerState, id: ServerId, owner: AccountId, new_owner: AccountId, fee: Fees)
    requires
        s.servers.contains_key(id),
        s.servers[id].owner == Some(owner),
        owner != new_owner,
    ensures
        s.set_server_owner(Origin::Signed(owner), id, Some(new_owner)) is Ok,
        s.set_server_owner(Origin::Signed(owner), id, Some(new_owner))->Ok_0.set_server_fees(Origin::Signed(owner), id, fee)
            == Err::<ServerState, DispatchError>(DispatchError::Server(crate::server::Error::NotServerOwner)),
        s.set_server_owner(Origin::Signed(owner), id, Some(new_owner))->Ok_0.set_server_fees(Origin::Signed(new_owner), id, fee) is Ok,
{
}

/// A server that takes a group on and lets it go again hosts the groups it
/// hosted before.
pub proof fn add_then_remove_group_restores(s: ServerState, server_id: ServerId, group_id: GroupId)
    requires
        s.add_new_group(server_id, group_id) is Ok,
    ensures
        s.add_new_group(server_id, group_id)->Ok_0.remove_old_group(server_id, group_id) is Ok,
        s.add_new_group(server_id, group_id)->Ok_0.remove_old_group(server_id, group_id)->Ok_0 == s,
{
    let gs = s.groups_of_server[server_id];
    let gs1 = gs.push(group_id);
    assert(gs1[gs.len() as int] == group_id);
    assert(is_first_index(gs1, group_id, gs.len() as int)) by {
        assert forall|j: int| 0 <= j < gs.len() implies gs1[j] != group_id by {
            assert(gs1[j] == gs[j]);
        }
    }
    lemma_first_index(gs1, group_id, gs.len() as int);
    assert(gs1.remove(gs.len() as int) =~= gs);
    let s2 = s.add_new_group(server_id, group_id)->Ok_0.remove_old_group(server_id, group_id)->Ok_0;
    assert(s2.groups_of_server =~= s.groups_of_server);
}

/// A server with no entry for its groups never takes a group on: the
/// addition is refused, whatever the group.
pub proof fn server_without_group_entry_refuses_groups(s: ServerState, server_id: ServerId, group_id: GroupId)
    requires
        !s.groups_of_server.contains_key(server_id),
    ensures
        s.add_new_group(server_id, group_id) is Err,
{
}

/// A call of the server pallet, with its arguments.
pub enum ServerCall {
    Register { origin: Origin, metadata: Seq<u8> },
    SetServerOwner { origin: Origin, id: ServerId, new_owner: Option<AccountId> },
    SetServerFees { origin: Origin, id: ServerId, fee: Fees },
    AddNewGroup { server_id: ServerId, group_id: GroupId },
    RemoveOldGroup { server_id: ServerId, group_id: GroupId },
}

/// The storage after `call`: the rule's next state where it accepts the
/// call, and where it refuses it, the state the refusal leaves behind.
pub open spec fn step(s: ServerState, call: ServerCall) -> ServerState {
    match call {
        ServerCall::Register { origin, metadata } => match s.register(origin, metadata) {
            Ok(next) => next,
            Err(_) => s,
        },
        ServerCall::SetServerOwner { origin, id, new_owner } => match s.set_server_owner(origin, id, new_owner) {
            Ok(next) => next,
            Err(_) => s,
        },
        ServerCall::SetServerFees { origin, id, fee } => match s.set_server_fees(origin, id, fee) {
            Ok(next) => next,
            Err(_) => s,
        },
        ServerCall::AddNewGroup { server_id, group_id } => match s.add_new_group(server_id, group_id) {
            Ok(next) => next,
            Err(_) => s.add_new_group_refused(server_id),
        },
        ServerCall::RemoveOldGroup { server_id, group_id } => match s.remove_old_group(server_id, group_id) {
            Ok(next) => next,
            Err(_) => s.remove_old_group_refused(server_id),
        },
    }
}

/// The storage after `calls`, one after the other.
pub open spec fn run(s: ServerState, calls: Seq<ServerCall>) -> ServerState
    decreases calls.len(),
{
    if calls.len() == 0 {
        s
    } else {
        step(run(s, calls.drop_last()), calls.last())
    }
}

/// `call` is an accepted hand-over of server `id` in state `s`.
pub open spec fn hands_over(s: ServerState, call: ServerCall, id: ServerId) -> bool {
    match call {
        ServerCall::SetServerOwner { origin, id: j, new_owner } => j == id && s.set_server_owner(origin, j, new_owner) is Ok,
        _ => false,
    }
}

/// None of `calls`, made one after the other from `s`, is an accepted
/// hand-over of server `id`.
pub open spec fn no_hand_over(s: ServerState, calls: Seq<ServerCall>, id: ServerId) -> bool {
    forall|i: int| 0 <= i < calls.len() ==> !hands_over(#[trigger] run(s, calls.take(i)), calls[i], id)
}

/// One call never lowers the next free index, keeps every server whose
/// index is below it, and keeps that server's details unless it hands the
/// server over.
proof fn lemma_step_keeps_owner(s: ServerState, call: ServerCall, id: ServerId)
    requires
        id < s.next_server_id,
        s.servers.contains_key(id),
    ensures
        id < step(s, call).next_server_id,
        step(s, call).servers.contains_key(id),
        !hands_over(s, call, id) ==> step(s, call).servers[id] == s.servers[id],
{
}

/// The calls made before the last one, from the same state, run the same.
proof fn lemma_no_hand_over_prefix(s: ServerState, calls: Seq<ServerCall>, id: ServerId)
    requires
        calls.len() > 0,
        no_hand_over(s, calls, id),
    ensures
        no_hand_over(s, calls.drop_last(), id),
        !hands_over(run(s, calls.drop_last()), calls.last(), id),
{
    let d = calls.drop_last();
    assert forall|i: int| 0 <= i < d.len() implies !hands_over(#[trigger] run(s, d.take(i)), d[i], id) by {
        assert(d.take(i) =~= calls.take(i));
        assert(!hands_over(run(s, calls.take(i)), calls[i], id));
    }
    assert(calls.take(calls.len() - 1) =~= d);
    assert(!hands_over(run(s, calls.take(calls.len() - 1)), calls[calls.len() - 1], id));
}

/// A registered server stays registered, below the next free index,
/// through any calls.
pub proof fn server_stays_registered(s: ServerState, calls: Seq<ServerCall>, id: ServerId)
    requires
        id < s.next_server_id,
        s.servers.contains_key(id),
    ensures
        id < run(s, calls).next_server_id,
        run(s, calls).servers.contains_key(id),
    decreases calls.len(),
{
    if calls.len() > 0 {
        server_stays_registered(s, calls.drop_last(), id);
        lemma_step_keeps_owner(run(s, calls.drop_last()), calls.last(), id);
    }
}

/// Calls that do not hand server `id` over keep it, and its owner.
pub proof fn owner_stable(s: ServerState, calls: Seq<ServerCall>, id: ServerId)
    requires
        id < s.next_server_id,
        s.servers.contains_key(id),
        no_hand_over(s, calls, id),
    ensures
        id < run(s, calls).next_server_id,
        run(s, calls).servers.contains_key(id),
        run(s, calls).servers[id] == s.servers[id],
    decreases calls.len(),
{
    if calls.len() > 0 {
        lemma_no_hand_over_prefix(s, calls, id);
        owner_stable(s, calls.drop_last(), id);
        lemma_step_keeps_owner(run(s, calls.drop_last()), calls.last(), id);
    }
}

/// Reading back the owner of a registered server gives the account that
/// registered it, whatever calls came after, as long as none of them
/// handed the server over.
pub proof fn register_then_read_owner(s: ServerState, who: AccountId, metadata: Seq<u8>, later: Seq<ServerCall>)
    requires
        s.register(Origin::Signed(who), metadata) is Ok,
        no_hand_over(s.register(Origin::Signed(who), metadata)->Ok_0, later, s.next_server_id),
    ensures
        run(s.register(Origin::Signed(who), metadata)->Ok_0, later).owner_of(s.next_server_id)
            == Ok::<Option<AccountId>, DispatchError>(Some(who)),
{
    let s1 = s.register(Origin::Signed(who), metadata)->Ok_0;
    owner_stable(s1, later, s.next_server_id);
}

/// Reading back the owner of a registered server gives the owner that the
/// last accepted hand-over named, whatever calls came before that
/// hand-over, and whatever calls came after it as long as none of them
/// handed the server over again.
pub proof fn register_hand_over_then_read_owner(
    s: ServerState,
    who: AccountId,
    metadata: Seq<u8>,
    before: Seq<ServerCall>,
    origin: Origin,
    new_owner: Option<AccountId>,
    later: Seq<ServerCall>,
)
    requires
        s.register(Origin::Signed(who), metadata) is Ok,
        run(s.register(Origin::Signed(who), metadata)->Ok_0, before).set_server_owner(origin, s.next_server_id, new_owner) is Ok,
        no_hand_over(
            run(s.register(Origin::Signed(who), metadata)->Ok_0, before).set_server_owner(origin, s.next_server_id, new_owner)->Ok_0,
            later,
            s.next_server_id,
        ),
    ensures
        run(
            run(s.register(Origin::Signed(who), metadata)->Ok_0, before).set_server_owner(origin, s.next_server_id, new_owner)->Ok_0,
            later,
        ).owner_of(s.next_server_id) == Ok::<Option<AccountId>, DispatchError>(new_owner),
{
    let k = s.next_server_id;
    let s1 = s.register(Origin::Signed(who), metadata)->Ok_0;
    server_stays_registered(s1, before, k);
    hand_over_then_read_owner(run(s1, before), origin, k, new_owner, later);
}

/// Reading back the owner of a server gives the owner that the last
/// accepted hand-over named, whatever calls came after it, as long as none
/// of them handed the server over again.
pub proof fn hand_over_then_read_owner(
    s: ServerState,
    origin: Origin,
    id: ServerId,
    new_owner: Option<AccountId>,
    later: Seq<ServerCall>,
)
    requires
        id < s.next_server_id,
        s.set_server_owner(origin, id, new_owner) is Ok,
        no_hand_over(s.set_server_owner(origin, id, new_owner)->Ok_0, later, id),
    ensures
        run(s.set_server_owner(origin, id, new_owner)->Ok_0, later).owner_of(id)
            == Ok::<Option<AccountId>, DispatchError>(new_owner),
{
    let s1 = s.set_server_owner(origin, id, new_owner)->Ok_0;
    owner_stable(s1, later, id);
}

/// Reading the owner of a server that is not registered is refused as a
/// missing server.
pub proof fn missing_server_has_no_owner(s: ServerState, id: ServerId)
    requires
        !s.servers.contains_key(id),
    ensures
        s.owner_of(id) == Err::<Option<AccountId>, DispatchError>(DispatchError::Server(Error::ServerNotExists)),
{
}

/// A server without an owner keeps no owner through any calls.
proof fn lemma_ownerless_stays(s: ServerState, calls: Seq<ServerCall>, id: ServerId)
    requires
        id < s.next_server_id,
        s.servers.contains_key(id),
        s.servers[id].owner is None,
    ensures
        id < run(s, calls).next_server_id,
        run(s, calls).servers.contains_key(id),
        run(s, calls).servers[id].owner is None,
    decreases calls.len(),
{
    if calls.len() > 0 {
        lemma_ownerless_stays(s, calls.drop_last(), id);
        lemma_step_keeps_owner(run(s, calls.drop_last()), calls.last(), id);
    }
}

/// A server handed to nobody never gets an owner again: after any calls,
/// it still has none, and every signed attempt to hand it over or set its
/// fees is refused as not coming from its owner.  (A server's index is
/// below the next free one from its registration on.)
pub proof fn ownerless_server_stays_ownerless(
    s: ServerState,
    w: AccountId,
    id: ServerId,
    later: Seq<ServerCall>,
    x: AccountId,
    new_owner: Option<AccountId>,
    fee: Fees,
)
    requires
        id < s.next_server_id,
        s.set_server_owner(Origin::Signed(w), id, None) is Ok,
    ensures
        ({
            let s2 = run(s.set_server_owner(Origin::Signed(w), id, None)->Ok_0, later);
            &&& s2.servers.contains_key(id)
            &&& s2.owner_of(id) == Ok::<Option<AccountId>, DispatchError>(None)
            &&& s2.set_server_owner(Origin::Signed(x), id, new_owner)
                == Err::<ServerState, DispatchError>(DispatchError::Server(Error::NotServerOwner))
            &&& s2.set_server_fees(Origin::Signed(x), id, fee)
                == Err::<ServerState, DispatchError>(DispatchError::Server(Error::NotServerOwner))
        }),
{
    let s1 = s.set_server_owner(Origin::Signed(w), id, None)->Ok_0;
    lemma_ownerless_stays(s1, later, id);
}

/// Setting a fee stores exactly the fee given, whatever was stored before,
/// and leaves the other kind of fee, and every other server's fees, as they
/// were.
pub proof fn set_server_fees_stores_the_fee(s: ServerState, origin: Origin, id: ServerId, fee: Fees)
    requires
        s.set_server_fees(origin, id, fee) is Ok,
    ensures
        ({
            let s2 = s.set_server_fees(origin, id, fee)->Ok_0;
            &&& match fee {
                Fees::OneByte(b) => {
                    &&& s2.one_byte_pay_of_server.contains_key(id)
                    &&& s2.one_byte_pay_of_server[id] == b
                    &&& s2.mining_commission_of_server == s.mining_commission_of_server
                },
                Fees::MiningCommission(p) => {
                    &&& s2.mining_commission_of_server.contains_key(id)
                    &&& s2.mining_commission_of_server[id] == p
                    &&& s2.one_byte_pay_of_server == s.one_byte_pay_of_server
                },
            }
            &&& forall|j: ServerId| j != id ==> {
                &&& (#[trigger] s2.one_byte_pay_of_server.contains_key(j)) == s.one_byte_pay_of_server.contains_key(j)
                &&& s2.one_byte_pay_of_server.contains_key(j) ==> s2.one_byte_pay_of_server[j] == s.one_byte_pay_of_server[j]
            }
            &&& forall|j: ServerId| j != id ==> {
                &&& (#[trigger] s2.mining_commission_of_server.contains_key(j)) == s.mining_commission_of_server.contains_key(j)
                &&& s2.mining_commission_of_server.contains_key(j) ==> s2.mining_commission_of_server[j] == s.mining_commission_of_server[j]
            }
        }),
{
}

/// The owner of a server sets a fee twice: the second one is what is
/// stored.
pub proof fn latest_fee_wins(s: ServerState, who: AccountId, id: ServerId, first: Fees, second: Fees)
    requires
        s.servers.contains_key(id),
        s.servers[id].owner == Some(who),
    ensures
        s.set_server_fees(Origin::Signed(who), id, first) is Ok,
        ({
            let s1 = s.set_server_fees(Origin::Signed(who), id, first)->Ok_0;
            &&& s1.set_server_fees(Origin::Signed(who), id, second) is Ok
            &&& match second {
                Fees::OneByte(b) => s1.set_server_fees(Origin::Signed(who), id, second)->Ok_0.one_byte_pay_of_server[id] == b,
                Fees::MiningCommission(p) => s1.set_server_fees(Origin::Signed(who), id, second)->Ok_0.mining_commission_of_server[id] == p,
            }
        }),
{
    let s1 = s.set_server_fees(Origin::Signed(who), id, first)->Ok_0;
    set_server_fees_stores_the_fee(s1, Origin::Signed(who), id, second);
}

} // verus!
