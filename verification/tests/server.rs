use aband::dispatch::{DispatchError, Origin};
use aband::server::{Error, Event, Fees, MaxGroupOfServerOnEmpty, Pallet};
use aband::server_id::ServerId;
use aband::traits::{GetServerInfo, ServerManager};
use aband::types::Perbill;

fn registered(owner: u64) -> Pallet {
    let mut p = Pallet::new();
    assert_eq!(p.register(Origin::Signed(owner), b"meta".to_vec()), Ok(()));
    p
}

#[test]
fn register_creates_a_server_the_signer_owns() {
    let mut p = registered(7);
    assert_eq!(p.next_server_id, 1);
    let d = p.servers.get(&0).unwrap();
    assert_eq!(d.creator, 7);
    assert_eq!(d.owner, Some(7));
    assert_eq!(d.metadata, b"meta".to_vec());
    assert_eq!(d.server_account_id, ServerId(0).into_account_truncating());
    assert_eq!(p.events, vec![Event::Register { server_id: 0, creator: 7 }]);
    assert_eq!(p.try_get_server_owner(0), Ok(Some(7)));
    assert_eq!(p.try_get_server_creator(0), Ok(7));
    assert_eq!(p.try_get_server_account_id(0), Ok(0x0000_0000_7672_6573));
    assert!(p.is_server_exists(0));
    assert_eq!(p.register(Origin::Signed(8), vec![]), Ok(()));
    assert_eq!(p.try_get_server_owner(1), Ok(Some(8)));
    assert_eq!(p.try_get_server_owner(0), Ok(Some(7)));
}

#[test]
fn register_refuses_unsigned_and_overflow() {
    let mut p = Pallet::new();
    assert_eq!(p.register(Origin::Root, vec![]), Err(DispatchError::BadOrigin));
    p.next_server_id = u64::MAX;
    assert_eq!(p.register(Origin::Signed(1), vec![]), Err(DispatchError::Server(Error::StorageOverflow)));
    assert!(p.servers.is_empty());
    assert_eq!(p.next_server_id, u64::MAX);
    assert!(p.events.is_empty());
}

#[test]
fn unknown_server_queries_fail() {
    let p = Pallet::new();
    let err = DispatchError::Server(Error::ServerNotExists);
    assert_eq!(p.try_get_server_owner(3), Err(err));
    assert_eq!(p.try_get_server_creator(3), Err(err));
    assert_eq!(p.try_get_server_account_id(3), Err(err));
    assert!(!p.is_server_exists(3));
}

#[test]
fn only_the_owner_hands_a_server_over() {
    let mut p = registered(7);
    assert_eq!(p.set_server_owner(Origin::Signed(7), 5, Some(8)), Err(DispatchError::Server(Error::ServerNotExists)));
    assert_eq!(p.set_server_owner(Origin::Signed(8), 0, Some(8)), Err(DispatchError::Server(Error::NotServerOwner)));
    assert_eq!(p.set_server_owner(Origin::Signed(7), 0, Some(8)), Ok(()));
    assert_eq!(p.try_get_server_owner(0), Ok(Some(8)));
    assert_eq!(p.events.last(), Some(&Event::SetServerOwner { server_id: 0, new_owner: Some(8) }));
    assert_eq!(
        p.set_server_fees(Origin::Signed(7), 0, Fees::OneByte(3)),
        Err(DispatchError::Server(Error::NotServerOwner))
    );
    assert_eq!(p.set_server_owner(Origin::Signed(8), 0, None), Ok(()));
    assert_eq!(p.try_get_server_owner(0), Ok(None));
    assert_eq!(p.set_server_owner(Origin::Signed(8), 0, Some(8)), Err(DispatchError::Server(Error::NotServerOwner)));
}

#[test]
fn the_owner_sets_fees() {
    let mut p = registered(7);
    assert_eq!(p.set_server_fees(Origin::Signed(7), 0, Fees::OneByte(12)), Ok(()));
    assert_eq!(p.one_byte_pay_of_server.get(&0), Some(&12));
    let c = Perbill::from_percent(5);
    assert_eq!(p.set_server_fees(Origin::Signed(7), 0, Fees::MiningCommission(c)), Ok(()));
    assert_eq!(p.mining_commission_of_server.get(&0), Some(&c));
    assert_eq!(c.deconstruct(), 50_000_000);
    assert_eq!(p.events.last(), Some(&Event::SetServerFees { server_id: 0, fee: Fees::MiningCommission(c) }));
    assert_eq!(p.set_server_fees(Origin::Unsigned, 0, Fees::OneByte(1)), Err(DispatchError::BadOrigin));
}

#[test]
fn groups_join_only_servers_with_an_entry_for_them() {
    let mut p = registered(7);
    assert_eq!(p.try_add_new_group(0, 3), Err(DispatchError::Server(Error::GroupAlreadyExists)));
    assert!(p.groups_of_server.is_empty());
    p.groups_of_server.insert(0, vec![]);
    assert_eq!(p.try_add_new_group(0, 3), Ok(()));
    assert_eq!(p.try_add_new_group(0, 4), Ok(()));
    assert_eq!(p.groups_of_server.get(&0), Some(&vec![3, 4]));
    // A refused duplicate has taken the list out and not put it back.
    assert_eq!(p.try_add_new_group(0, 3), Err(DispatchError::Server(Error::GroupAlreadyExists)));
    assert!(p.groups_of_server.get(&0).is_none());
    assert_eq!(p.try_add_new_group(0, 5), Err(DispatchError::Server(Error::GroupAlreadyExists)));
}

#[test]
fn servers_have_a_capacity() {
    let mut p = registered(7);
    assert_eq!(MaxGroupOfServerOnEmpty(), 1000);
    assert_eq!(p.max_group(0), 1000);
    p.groups_of_server.insert(0, vec![]);
    p.max_group_of_server.insert(0, 1);
    assert!(!p.is_at_capacity(0));
    assert_eq!(p.try_add_new_group(0, 1), Ok(()));
    assert!(p.is_at_capacity(0));
    assert_eq!(p.try_add_new_group(0, 2), Err(DispatchError::Server(Error::ServerAtCapacity)));
    assert_eq!(p.groups_of_server.get(&0), Some(&vec![1]));
    p.max_group_of_server.insert(9, 0);
    assert!(p.is_at_capacity(9));
}

#[test]
fn groups_leave_servers() {
    let mut p = registered(7);
    assert_eq!(p.try_remove_old_group(0, 3), Err(DispatchError::Server(Error::GroupAlreadyExists)));
    p.groups_of_server.insert(0, vec![3, 4, 3]);
    assert_eq!(p.try_remove_old_group(0, 3), Ok(()));
    assert_eq!(p.groups_of_server.get(&0), Some(&vec![4, 3]));
    // A refused removal has taken the list out and not put it back.
    assert_eq!(p.try_remove_old_group(0, 5), Err(DispatchError::Server(Error::GroupNotInServer)));
    assert!(p.groups_of_server.get(&0).is_none());
    assert_eq!(p.try_remove_old_group(0, 4), Err(DispatchError::Server(Error::GroupAlreadyExists)));
}

#[test]
fn add_then_remove_restores_the_server_groups() {
    let mut p = registered(7);
    p.groups_of_server.insert(0, vec![1, 2]);
    assert_eq!(p.try_add_new_group(0, 9), Ok(()));
    assert_eq!(p.try_remove_old_group(0, 9), Ok(()));
    assert_eq!(p.groups_of_server.get(&0), Some(&vec![1, 2]));
}

#[test]
fn owner_reads_back_through_other_calls() {
    let mut p = registered(7);
    assert_eq!(p.register(Origin::Signed(9), vec![1]), Ok(()));
    assert_eq!(p.set_server_fees(Origin::Signed(7), 0, Fees::OneByte(4)), Ok(()));
    assert_eq!(p.set_server_owner(Origin::Signed(9), 1, Some(3)), Ok(()));
    assert_eq!(p.set_server_owner(Origin::Signed(8), 0, Some(8)), Err(DispatchError::Server(Error::NotServerOwner)));
    assert_eq!(p.try_add_new_group(0, 5), Err(DispatchError::Server(Error::GroupAlreadyExists)));
    assert_eq!(p.try_get_server_owner(0), Ok(Some(7)));
    assert_eq!(p.set_server_owner(Origin::Signed(7), 0, Some(2)), Ok(()));
    assert_eq!(p.register(Origin::Signed(4), vec![]), Ok(()));
    assert_eq!(p.set_server_fees(Origin::Signed(2), 0, Fees::OneByte(6)), Ok(()));
    assert_eq!(p.try_get_server_owner(0), Ok(Some(2)));
    assert_eq!(p.try_get_server_owner(1), Ok(Some(3)));
    assert_eq!(p.try_get_server_owner(9), Err(DispatchError::Server(Error::ServerNotExists)));
}

#[test]
fn a_server_handed_to_nobody_stays_ownerless() {
    let mut p = registered(7);
    assert_eq!(p.set_server_owner(Origin::Signed(7), 0, None), Ok(()));
    assert_eq!(p.register(Origin::Signed(7), vec![]), Ok(()));
    assert_eq!(p.set_server_fees(Origin::Signed(7), 1, Fees::OneByte(1)), Ok(()));
    for x in [0u64, 7, 8] {
        assert_eq!(p.set_server_owner(Origin::Signed(x), 0, Some(x)), Err(DispatchError::Server(Error::NotServerOwner)));
        assert_eq!(p.set_server_fees(Origin::Signed(x), 0, Fees::OneByte(2)), Err(DispatchError::Server(Error::NotServerOwner)));
    }
    assert_eq!(p.try_get_server_owner(0), Ok(None));
}
