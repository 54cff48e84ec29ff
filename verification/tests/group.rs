use aband::dispatch::{DispatchError, Origin};
use aband::group::{
    CurrencyOp, Error, Event, Config, GroupStatus,
    MultiAsset, Pallet, Visibility,
};
use aband::group_id::GroupId;
use aband::server::{Error as ServerError, Pallet as ServerPallet};
use aband::types::Perbill;

const RESERVE: u128 = 2_000_000_000_000;
const CANDY_NAME: [u8; 8] = *b"candy   ";

fn config() -> Config {
    Config {
        candy_expire: 7200,
        candy_reserve_identifier: CANDY_NAME,
        native_currency_id: 0,
        one_hundred_s_reserve: RESERVE,
    }
}

/// Server 0, owned by account 100, with an entry for its groups.
fn servers() -> ServerPallet {
    let mut s = ServerPallet::new();
    assert_eq!(s.register(Origin::Signed(100), vec![]), Ok(()));
    s.groups_of_server.insert(0, vec![]);
    s
}

/// Group 0 on server 0, owned by account 10, of the given visibility.
fn with_group(visibility: Visibility) -> (Pallet, ServerPallet) {
    let mut s = servers();
    let mut g = Pallet::new(config());
    assert_eq!(
        g.create_group(&mut s, Origin::Signed(10), None, None, 250, Perbill::from_parts(7), visibility, None, 5, Ok(())),
        Ok(())
    );
    (g, s)
}

#[test]
fn create_group_on_a_server_without_group_entry_is_refused() {
    let mut s = ServerPallet::new();
    assert_eq!(s.register(Origin::Signed(100), vec![]), Ok(()));
    let mut g = Pallet::new(config());
    let r = g.create_group(&mut s, Origin::Signed(10), None, None, 10, Perbill::from_parts(0), Visibility::Public, None, 5, Ok(()));
    assert_eq!(r, Err(DispatchError::Server(ServerError::GroupAlreadyExists)));
    assert!(g.groups.is_empty());
    assert!(g.server_of.is_empty());
    assert_eq!(g.next_group_id, 0);
    assert!(s.groups_of_server.is_empty());
}

#[test]
fn create_group_makes_the_signer_owner_and_only_member() {
    let (g, s) = with_group(Visibility::Public);
    let info = g.groups.get(&0).unwrap();
    assert_eq!(info.owner, Some(10));
    assert_eq!(info.creator, 10);
    assert_eq!(info.members, vec![10]);
    assert_eq!(info.status, GroupStatus::Active);
    assert_eq!(info.create_block_high, 5);
    assert_eq!(info.max_members_number, 250);
    assert_eq!(info.group_account_id, GroupId(0).into_account_truncating());
    assert_eq!(g.create_reserve_of_group.get(&0), Some(&(3 * RESERVE)));
    assert_eq!(g.reserve_amount(250), Some(3 * RESERVE));
    assert_eq!(g.reserve_amount(99), Some(RESERVE));
    assert_eq!(g.next_group_id, 1);
    assert_eq!(g.get_server_id(0), Some(0));
    assert_eq!(s.groups_of_server.get(&0), Some(&vec![0]));
    assert_eq!(g.events, vec![Event::CreateGroup { creator: 10, group_id: 0 }]);
    assert_eq!(Pallet::get_official_server(), 0);
}

#[test]
fn create_group_errors() {
    let mut s = servers();
    let mut g = Pallet::new(config());
    let p = Perbill::from_parts(0);
    assert_eq!(
        g.create_group(&mut s, Origin::Root, None, None, 10, p, Visibility::Public, None, 5, Ok(())),
        Err(DispatchError::BadOrigin)
    );
    assert_eq!(
        g.create_group(&mut s, Origin::Signed(1), Some(4), None, 10, p, Visibility::Public, None, 5, Ok(())),
        Err(DispatchError::Group(Error::ServerNotExists))
    );
    assert_eq!(
        g.create_group(&mut s, Origin::Signed(1), None, None, 10, p, Visibility::Public, None, 5, Err(DispatchError::Currency(2))),
        Err(DispatchError::Currency(2))
    );
    g.config.one_hundred_s_reserve = u128::MAX;
    assert_eq!(g.reserve_amount(100), None);
    assert_eq!(
        g.create_group(&mut s, Origin::Signed(1), None, None, 100, p, Visibility::Public, None, 5, Ok(())),
        Err(DispatchError::Group(Error::StorageOverflow))
    );
    g.config = config();
    g.next_group_id = u64::MAX;
    assert_eq!(
        g.create_group(&mut s, Origin::Signed(1), None, None, 10, p, Visibility::Public, None, 5, Ok(())),
        Err(DispatchError::Group(Error::StorageOverflow))
    );
    assert!(g.groups.is_empty());
    assert!(g.events.is_empty());
    s.max_group_of_server.insert(0, 0);
    g.next_group_id = 0;
    assert!(Pallet::is_server_at_capacity(&s, 0));
    assert_eq!(
        g.create_group(&mut s, Origin::Signed(1), None, None, 10, p, Visibility::Public, None, 5, Ok(())),
        Err(DispatchError::Server(ServerError::ServerAtCapacity))
    );
    assert!(g.server_of.is_empty());
    s.max_group_of_server.insert(0, 5);
    s.groups_of_server.insert(0, vec![0]);
    assert_eq!(
        g.create_group(&mut s, Origin::Signed(1), None, None, 10, p, Visibility::Public, None, 5, Ok(())),
        Err(DispatchError::Server(ServerError::GroupAlreadyExists))
    );
    assert_eq!(s.groups_of_server.get(&0), Some(&vec![0]));
}

#[test]
fn join_and_leave_a_public_group() {
    let (mut g, _s) = with_group(Visibility::Public);
    assert_eq!(g.enter_group(Origin::Signed(11), 0, 11, None), Ok(()));
    assert_eq!(g.groups.get(&0).unwrap().members, vec![10, 11]);
    assert_eq!(g.events.last(), Some(&Event::EnterGroup { who: 11, group_id: 0 }));
    assert_eq!(g.leave_group(Origin::Signed(11), 0, 11), Ok(()));
    assert_eq!(g.groups.get(&0).unwrap().members, vec![10]);
    assert_eq!(g.events.last(), Some(&Event::LeaveGroup { group_id: 0, old_member: 11 }));
}

#[test]
fn private_groups_take_invitees_only() {
    let (mut g, _s) = with_group(Visibility::Private);
    assert_eq!(g.enter_group(Origin::Signed(11), 0, 11, None), Err(DispatchError::Group(Error::PermissionDenied)));
    assert_eq!(g.enter_group(Origin::Signed(12), 0, 11, None), Err(DispatchError::Group(Error::NotGroupOwner)));
    assert_eq!(g.enter_group(Origin::Signed(10), 0, 11, None), Ok(()));
    assert_eq!(g.invitees_of_group.get(&0), Some(&vec![11]));
    assert_eq!(g.events.last(), Some(&Event::Invite { group_id: 0, who: 10, invitee: 11 }));
    assert_eq!(g.enter_group(Origin::Signed(10), 0, 11, None), Ok(()));
    assert_eq!(g.invitees_of_group.get(&0), Some(&vec![11]));
    assert_eq!(g.enter_group(Origin::Signed(11), 0, 11, None), Ok(()));
    assert_eq!(g.groups.get(&0).unwrap().members, vec![10, 11]);
}

#[test]
fn enter_group_errors() {
    let (mut g, _s) = with_group(Visibility::Public);
    assert_eq!(g.enter_group(Origin::Signed(11), 3, 11, None), Err(DispatchError::Group(Error::GroupNotExists)));
    assert_eq!(g.enter_group(Origin::Unsigned, 0, 11, None), Err(DispatchError::BadOrigin));
    g.black_list_of_group.insert(0, vec![11]);
    assert_eq!(g.enter_group(Origin::Signed(11), 0, 11, None), Err(DispatchError::Group(Error::InBlackList)));
    g.groups.get_mut(&0).unwrap().max_members_number = 1;
    assert_eq!(g.enter_group(Origin::Signed(12), 0, 12, None), Err(DispatchError::Group(Error::GroupAtCapacity)));
    g.groups.get_mut(&0).unwrap().max_members_number = u32::MAX;
    assert_eq!(g.enter_group(Origin::Signed(12), 0, 12, None), Err(DispatchError::Group(Error::StorageOverflow)));
    assert_eq!(g.groups.get(&0).unwrap().members, vec![10]);
}

#[test]
fn leave_group_errors_and_kicks() {
    let (mut g, _s) = with_group(Visibility::Public);
    assert_eq!(g.leave_group(Origin::Signed(10), 0, 10), Err(DispatchError::Group(Error::OnlyOneMember)));
    assert_eq!(g.enter_group(Origin::Signed(11), 0, 11, None), Ok(()));
    assert_eq!(g.leave_group(Origin::Signed(10), 0, 10), Err(DispatchError::Group(Error::OwnerCannotLeave)));
    assert_eq!(g.leave_group(Origin::Signed(11), 0, 12), Err(DispatchError::Group(Error::NotGroupOwner)));
    assert_eq!(g.leave_group(Origin::Signed(10), 0, 12), Err(DispatchError::Group(Error::MemberNotInGroup)));
    assert!(g.black_list_of_group.get(&0).is_none());
    assert_eq!(g.leave_group(Origin::Signed(10), 0, 11), Ok(()));
    assert_eq!(g.events.last(), Some(&Event::KickSomeOne { group_id: 0, who: 10, someone_kicked: 11 }));
    assert_eq!(g.black_list_of_group.get(&0), Some(&vec![11]));
    assert_eq!(g.enter_group(Origin::Signed(11), 0, 11, None), Err(DispatchError::Group(Error::InBlackList)));
}

#[test]
fn candies_are_given_and_claimed() {
    let (mut g, s) = with_group(Visibility::Public);
    assert_eq!(g.enter_group(Origin::Signed(11), 0, 11, None), Ok(()));
    assert_eq!(g.enter_group(Origin::Signed(12), 0, 12, None), Ok(()));
    let asset = MultiAsset { asset_id: 3, amount: 100 };
    assert_eq!(g.give_candy(Origin::Signed(10), 0, asset, 2, 50, Ok(())), Ok(()));
    let c = g.candies.get(&0).unwrap();
    assert_eq!(c.end_block, 7250);
    assert_eq!(c.claimed_amount, 0);
    assert_eq!(g.candies_of_group.get(&0), Some(&vec![0]));
    assert_eq!(g.next_candy_id, 1);
    assert_eq!(g.events.last(), Some(&Event::GiveCandy { boss: 10, group_id: 0, candy: 0 }));
    assert!(Pallet::is_server_owner(&s, 0, 100));
    let ok = vec![Ok(()), Ok(())];
    assert_eq!(g.get_candy(&s, Origin::Signed(10), 0, 0, vec![(11, 30), (12, 40)], 60, &ok), Err(DispatchError::Group(Error::NotServerOwner)));
    assert_eq!(g.get_candy(&s, Origin::Signed(100), 0, 0, vec![(11, 30), (12, 40)], 60, &ok), Ok(vec![]));
    let c = g.candies.get(&0).unwrap();
    assert_eq!(c.claimed_amount, 70);
    assert_eq!(c.claim_detail, vec![(11, 30), (12, 40)]);
    assert_eq!(
        g.events.last(),
        Some(&Event::GetCandy { lucky_man: 12, group_id: 0, candy_id: 0, amount: MultiAsset { asset_id: 3, amount: 40 } })
    );
    assert_eq!(g.get_candy(&s, Origin::Signed(100), 0, 0, vec![(11, 1)], 60, &vec![Ok(())]), Err(DispatchError::Group(Error::AlreadyGetCandy)));
    assert_eq!(g.get_candy(&s, Origin::Signed(100), 0, 0, vec![(10, 1)], 60, &vec![Ok(())]), Err(DispatchError::Group(Error::LuckyNumberUpMax)));
}

#[test]
fn claims_are_refused_as_a_whole() {
    let (mut g, s) = with_group(Visibility::Public);
    assert_eq!(g.enter_group(Origin::Signed(11), 0, 11, None), Ok(()));
    let asset = MultiAsset { asset_id: 3, amount: 100 };
    assert_eq!(g.give_candy(Origin::Signed(10), 0, asset, 5, 50, Ok(())), Ok(()));
    let events = g.events.clone();
    let two = vec![Ok(()), Ok(())];
    assert_eq!(g.get_candy(&s, Origin::Signed(100), 0, 0, vec![(11, 30), (13, 1)], 60, &two), Err(DispatchError::Group(Error::MemberNotInGroup)));
    assert_eq!(g.get_candy(&s, Origin::Signed(100), 0, 0, vec![(11, 30), (11, 1)], 60, &two), Err(DispatchError::Group(Error::AlreadyGetCandy)));
    assert_eq!(g.get_candy(&s, Origin::Signed(100), 0, 0, vec![(11, 30), (10, 71)], 60, &two), Err(DispatchError::Group(Error::ClaimedAmountUpMax)));
    assert_eq!(g.get_candy(&s, Origin::Signed(100), 0, 0, vec![(11, 30), (10, u128::MAX)], 60, &two), Err(DispatchError::Group(Error::StorageOverflow)));
    assert_eq!(
        g.get_candy(&s, Origin::Signed(100), 0, 0, vec![(11, 30), (10, 1)], 60, &vec![Ok(()), Err(DispatchError::Currency(1))]),
        Err(DispatchError::Currency(1))
    );
    assert_eq!(g.get_candy(&s, Origin::Signed(100), 0, 9, vec![], 60, &vec![]), Err(DispatchError::Group(Error::CandyNotInGroup)));
    assert_eq!(g.candies.get(&0).unwrap().claimed_amount, 0);
    assert!(g.candies.get(&0).unwrap().claim_detail.is_empty());
    assert_eq!(g.events, events);
}

#[test]
fn give_candy_errors() {
    let (mut g, _s) = with_group(Visibility::Public);
    let asset = MultiAsset { asset_id: 3, amount: 100 };
    assert_eq!(g.give_candy(Origin::Signed(10), 0, MultiAsset { asset_id: 3, amount: 0 }, 2, 50, Ok(())), Err(DispatchError::Group(Error::AmountIsZero)));
    assert_eq!(g.give_candy(Origin::Signed(10), 0, asset, 2, u32::MAX - 10, Ok(())), Err(DispatchError::Group(Error::StorageOverflow)));
    assert_eq!(g.give_candy(Origin::Signed(10), 0, asset, 2, 50, Err(DispatchError::Currency(4))), Err(DispatchError::Currency(4)));
    assert!(g.candies.is_empty());
    assert_eq!(g.next_candy_id, 0);
}

#[test]
fn expired_candy_is_released() {
    let (mut g, s) = with_group(Visibility::Public);
    assert_eq!(g.enter_group(Origin::Signed(11), 0, 11, None), Ok(()));
    assert_eq!(g.give_candy(Origin::Signed(10), 0, MultiAsset { asset_id: 1, amount: 9 }, 2, 50, Ok(())), Ok(()));
    assert_eq!(g.give_candy(Origin::Signed(10), 0, MultiAsset { asset_id: 3, amount: 100 }, 2, 50, Ok(())), Ok(()));
    assert_eq!(g.get_candy(&s, Origin::Signed(100), 0, 1, vec![(11, 30)], 60, &vec![Ok(())]), Ok(vec![]));
    let released = g.get_candy(&s, Origin::Signed(12), 0, 1, vec![], 8000, &vec![]);
    assert_eq!(
        released,
        Ok(vec![CurrencyOp::UnreserveNamed { id: CANDY_NAME, currency_id: 3, who: 10, amount: 70 }])
    );
    assert_eq!(g.candies_of_group.get(&0), Some(&vec![0]));
    assert_eq!(
        g.events.last(),
        Some(&Event::RemoveExpiredCandy { group_id: 0, candy_id: 1, asset_id: 3, remain_amount: 70 })
    );
    // The entry that goes is the one under the group's id.
    assert!(g.candies.get(&0).is_none());
    assert!(g.candies.get(&1).is_some());
}

#[test]
fn disband_releases_everything_and_ends_the_group() {
    let (mut g, mut s) = with_group(Visibility::Public);
    assert_eq!(g.enter_group(Origin::Signed(11), 0, 11, None), Ok(()));
    assert_eq!(g.give_candy(Origin::Signed(10), 0, MultiAsset { asset_id: 3, amount: 100 }, 2, 50, Ok(())), Ok(()));
    assert_eq!(g.get_candy(&s, Origin::Signed(100), 0, 0, vec![(11, 30)], 60, &vec![Ok(())]), Ok(vec![]));
    assert_eq!(g.give_candy(Origin::Signed(12), 0, MultiAsset { asset_id: 4, amount: 5 }, 2, 50, Ok(())), Ok(()));
    assert_eq!(g.disband_group(&mut s, Origin::Signed(11), 0), Err(DispatchError::Group(Error::NotGroupOwner)));
    let ops = g.disband_group(&mut s, Origin::Signed(10), 0);
    assert_eq!(
        ops,
        Ok(vec![
            CurrencyOp::UnreserveNamed { id: CANDY_NAME, currency_id: 3, who: 10, amount: 70 },
            CurrencyOp::UnreserveNamed { id: CANDY_NAME, currency_id: 4, who: 12, amount: 5 },
            CurrencyOp::Unreserve { currency_id: 0, who: 10, amount: 3 * RESERVE },
        ])
    );
    assert_eq!(g.groups.get(&0).unwrap().status, GroupStatus::Disbanded);
    assert!(g.candies.is_empty());
    assert_eq!(g.candies_of_group.get(&0), Some(&vec![]));
    assert_eq!(s.groups_of_server.get(&0), Some(&vec![]));
    assert_eq!(g.events.last(), Some(&Event::DisbandGroup { group_id: 0 }));
    assert_eq!(g.enter_group(Origin::Signed(13), 0, 13, None), Err(DispatchError::Group(Error::GroupDisbanded)));
    assert_eq!(g.disband_group(&mut s, Origin::Signed(10), 0), Err(DispatchError::Group(Error::GroupDisbanded)));
}

#[test]
fn disband_fails_when_the_server_lost_the_group() {
    let (mut g, mut s) = with_group(Visibility::Public);
    s.groups_of_server.insert(0, vec![]);
    assert_eq!(g.disband_group(&mut s, Origin::Signed(10), 0), Err(DispatchError::Server(ServerError::GroupNotInServer)));
    assert_eq!(g.groups.get(&0).unwrap().status, GroupStatus::Active);
    // The refused call as a whole leaves the server's list in place.
    assert_eq!(s.groups_of_server.get(&0), Some(&vec![]));
    g.server_of.clear();
    assert_eq!(g.get_candy(&s, Origin::Signed(100), 0, 0, vec![], 0, &vec![]), Err(DispatchError::Group(Error::CandyNotInGroup)));
    assert_eq!(g.give_candy(Origin::Signed(10), 0, MultiAsset { asset_id: 3, amount: 1 }, 2, 0, Ok(())), Ok(()));
    assert_eq!(g.get_candy(&s, Origin::Signed(100), 0, 0, vec![], 0, &vec![]), Err(DispatchError::Group(Error::GroupNotInAnyServer)));
    assert_eq!(g.disband_group(&mut s, Origin::Signed(10), 0), Ok(vec![
        CurrencyOp::UnreserveNamed { id: CANDY_NAME, currency_id: 3, who: 10, amount: 1 },
        CurrencyOp::Unreserve { currency_id: 0, who: 10, amount: 3 * RESERVE },
    ]));
}

#[test]
fn expiry_removes_the_entry_under_the_group_id() {
    let (mut g, s) = with_group(Visibility::Public);
    assert_eq!(g.give_candy(Origin::Signed(10), 0, MultiAsset { asset_id: 3, amount: 5 }, 2, 50, Ok(())), Ok(()));
    assert_eq!(g.give_candy(Origin::Signed(10), 0, MultiAsset { asset_id: 3, amount: 6 }, 2, 50, Ok(())), Ok(()));
    assert_eq!(
        g.get_candy(&s, Origin::Signed(10), 0, 1, vec![], 9000, &vec![]),
        Ok(vec![CurrencyOp::UnreserveNamed { id: CANDY_NAME, currency_id: 3, who: 10, amount: 6 }])
    );
    // Candy 0 is still listed for the group, but its entry went.
    assert_eq!(g.candies_of_group.get(&0), Some(&vec![0]));
    assert_eq!(g.get_candy(&s, Origin::Signed(100), 0, 0, vec![], 60, &vec![]), Err(DispatchError::Group(Error::CandyNotExists)));
}

#[test]
fn currency_requests_name_asset_account_and_amount() {
    let (mut g, _s) = with_group(Visibility::Public);
    assert_eq!(
        g.create_group_request(Origin::Signed(7), 250),
        Some(CurrencyOp::Reserve { currency_id: 0, who: 7, amount: 3 * RESERVE })
    );
    assert_eq!(g.create_group_request(Origin::Root, 250), None);
    let asset = MultiAsset { asset_id: 3, amount: 100 };
    assert_eq!(
        g.give_candy_request(Origin::Signed(10), asset),
        Some(CurrencyOp::ReserveNamed { id: CANDY_NAME, currency_id: 3, who: 10, amount: 100 })
    );
    assert_eq!(g.give_candy_request(Origin::Unsigned, asset), None);
    assert_eq!(g.give_candy(Origin::Signed(10), 0, asset, 2, 50, Ok(())), Ok(()));
    assert_eq!(
        g.claim_requests(0, &vec![(11, 30), (12, 40)], 60),
        vec![
            CurrencyOp::RepatriateReservedNamed { id: CANDY_NAME, currency_id: 3, from: 10, to: 11, amount: 30 },
            CurrencyOp::RepatriateReservedNamed { id: CANDY_NAME, currency_id: 3, from: 10, to: 12, amount: 40 },
        ]
    );
    assert!(g.claim_requests(0, &vec![(11, 30)], 9000).is_empty());
    assert!(g.claim_requests(5, &vec![(11, 30)], 60).is_empty());
}

#[test]
fn a_disbanded_group_stays_disbanded() {
    let (mut g, mut s) = with_group(Visibility::Public);
    assert_eq!(g.enter_group(Origin::Signed(11), 0, 11, None), Ok(()));
    assert!(g.disband_group(&mut s, Origin::Signed(10), 0).is_ok());
    let ended_members = g.groups.get(&0).unwrap().members.clone();
    let ended_owner = g.groups.get(&0).unwrap().owner;
    s.groups_of_server.insert(0, vec![]);
    assert_eq!(
        g.create_group(&mut s, Origin::Signed(20), None, None, 10, Perbill::from_parts(1), Visibility::Public, None, 7, Ok(())),
        Ok(())
    );
    assert_eq!(g.give_candy(Origin::Signed(10), 0, MultiAsset { asset_id: 3, amount: 9 }, 1, 8, Ok(())), Ok(()));
    let disbanded = Err(DispatchError::Group(Error::GroupDisbanded));
    assert_eq!(g.enter_group(Origin::Signed(12), 0, 12, None), disbanded);
    assert_eq!(g.enter_group(Origin::Signed(10), 0, 12, None), disbanded);
    assert_eq!(g.leave_group(Origin::Signed(11), 0, 11), disbanded);
    assert_eq!(g.leave_group(Origin::Signed(10), 0, 11), disbanded);
    assert_eq!(g.disband_group(&mut s, Origin::Signed(10), 0), Err(DispatchError::Group(Error::GroupDisbanded)));
    assert_eq!(g.get_candy(&s, Origin::Signed(100), 0, 1, vec![(11, 1)], 9, &vec![Ok(())]), Err(DispatchError::Group(Error::GroupDisbanded)));
    assert_eq!(g.enter_group(Origin::Unsigned, 0, 12, None), Err(DispatchError::BadOrigin));
    let still = g.groups.get(&0).unwrap();
    assert_eq!(still.status, GroupStatus::Disbanded);
    assert_eq!(still.members, ended_members);
    assert_eq!(still.owner, ended_owner);
}
