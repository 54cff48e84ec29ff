use aband::collators::{CollatorInfo, Error, GenesisConfig, NimbusId, Pallet};
use aband::dispatch::{DispatchError, Origin};
use sp_core::{sr25519, Pair, U256};

/// The public consensus key of the sr25519 pair made from the seed that
/// is the 32-byte big-endian form of `n`.
fn nimbus(n: u64) -> NimbusId {
    let seed: [u8; 32] = U256::from(n).to_big_endian();
    NimbusId { key: sr25519::Pair::from_seed(&seed).public().0 }
}

/// The chain of the tests: account 1 collates with the key of seed 1.
fn new_test_ext() -> Pallet {
    GenesisConfig { mapping: vec![(1, nimbus(1))] }.build()
}

fn close_pos_test(p: &mut Pallet) {
    assert_eq!(p.close_pos(Origin::Root), Ok(()));
}

fn open_pos_test(p: &mut Pallet) {
    assert_eq!(p.open_pos(Origin::Root), Ok(()));
}

fn three_collators() -> Vec<CollatorInfo> {
    vec![
        CollatorInfo { validator: 1, nimbus_id: nimbus(1) },
        CollatorInfo { validator: 2, nimbus_id: nimbus(2) },
        CollatorInfo { validator: 3, nimbus_id: nimbus(3) },
    ]
}

fn set_collators_test(p: &mut Pallet) {
    assert!(p.set_collators(Origin::Root, three_collators()).is_err());
    assert!(p.set_collators(Origin::Root, vec![]).is_err());
    close_pos_test(p);
    assert_eq!(p.set_collators(Origin::Root, three_collators()), Ok(()));
    assert!(p.get_collators().len() == 3);
}

fn add_collator_test(p: &mut Pallet) {
    assert!(p.get_collators().len() == 1);
    assert!(p.add_collator(Origin::Root, CollatorInfo { validator: 2, nimbus_id: nimbus(2) }).is_err());
    close_pos_test(p);
    assert!(p.add_collator(Origin::Root, CollatorInfo { validator: 2, nimbus_id: nimbus(1) }).is_err());
    assert!(p.add_collator(Origin::Root, CollatorInfo { validator: 1, nimbus_id: nimbus(1) }).is_err());
    assert_eq!(p.add_collator(Origin::Root, CollatorInfo { validator: 2, nimbus_id: nimbus(2) }), Ok(()));
    assert!(p.get_collators().len() == 2);
}

#[test]
fn close_pos_should_work() {
    let mut p = new_test_ext();
    close_pos_test(&mut p);
    assert!(p.is_closed_pos() == true);
}

#[test]
fn open_pos_should_work() {
    let mut p = new_test_ext();
    close_pos_test(&mut p);
    assert_eq!(p.open_pos(Origin::Root), Ok(()));
    assert!(p.is_closed_pos() == false);
}

#[test]
fn set_collators_should() {
    let mut p = new_test_ext();
    set_collators_test(&mut p);
}

#[test]
fn add_collators_should_work() {
    let mut p = new_test_ext();
    add_collator_test(&mut p);
}

#[test]
fn remove_collators() {
    let mut p = new_test_ext();
    assert!(p.remove_collator(Origin::Root, 1).is_err());
    close_pos_test(&mut p);
    assert!(p.remove_collator(Origin::Root, 1).is_err());
    open_pos_test(&mut p);
    set_collators_test(&mut p);
    assert_eq!(p.remove_collator(Origin::Root, 1), Ok(()));
    assert!(p.get_collators().len() == 2);
}

#[test]
fn manual_changes_refused_under_pos_with_their_error() {
    let mut p = new_test_ext();
    let err = Err(DispatchError::Collators(Error::ShouldUnderPoA));
    assert_eq!(p.set_collators(Origin::Root, three_collators()), err);
    assert_eq!(p.add_collator(Origin::Root, CollatorInfo { validator: 2, nimbus_id: nimbus(2) }), err);
    assert_eq!(p.remove_collator(Origin::Root, 1), err);
    assert_eq!(p.get_collators(), vec![1]);
    assert!(p.events.is_empty());
}

#[test]
fn only_the_authority_switches_pos() {
    let mut p = new_test_ext();
    assert_eq!(p.close_pos(Origin::Signed(1)), Err(DispatchError::BadOrigin));
    assert_eq!(p.close_pos(Origin::Unsigned), Err(DispatchError::BadOrigin));
    assert_eq!(p.close_pos(Origin::Members(1, 3)), Err(DispatchError::BadOrigin));
    assert!(!p.is_closed_pos());
    assert_eq!(p.close_pos(Origin::Members(2, 4)), Ok(()));
    assert!(p.is_closed_pos());
    let info = CollatorInfo { validator: 2, nimbus_id: nimbus(2) };
    assert_eq!(p.add_collator(Origin::Signed(1), info), Err(DispatchError::BadOrigin));
    assert_eq!(p.set_collators(Origin::Unsigned, vec![info]), Err(DispatchError::BadOrigin));
    assert_eq!(p.remove_collator(Origin::Members(0, 5), 1), Err(DispatchError::BadOrigin));
    assert_eq!(p.open_pos(Origin::Signed(1)), Err(DispatchError::BadOrigin));
    assert_eq!(p.get_collators(), vec![1]);
}

#[test]
fn add_collator_errors_name_their_cause() {
    let mut p = new_test_ext();
    close_pos_test(&mut p);
    assert_eq!(
        p.add_collator(Origin::Root, CollatorInfo { validator: 1, nimbus_id: nimbus(7) }),
        Err(DispatchError::Collators(Error::AlreadyCollator))
    );
    assert_eq!(
        p.add_collator(Origin::Root, CollatorInfo { validator: 7, nimbus_id: nimbus(1) }),
        Err(DispatchError::Collators(Error::NimbusIdInUse))
    );
    assert_eq!(p.remove_collator(Origin::Root, 1), Err(DispatchError::Collators(Error::NoCollatorLeft)));
}

#[test]
fn added_collator_authors_with_its_key_and_removed_one_does_not() {
    let mut p = new_test_ext();
    close_pos_test(&mut p);
    assert!(!p.can_author(&2, &0));
    assert_eq!(p.add_collator(Origin::Root, CollatorInfo { validator: 2, nimbus_id: nimbus(2) }), Ok(()));
    assert!(p.can_author(&2, &0));
    assert_eq!(p.lookup_account(&nimbus(2)), Some(2));
    assert_eq!(p.lookup_account(&nimbus(1)), Some(1));
    assert_eq!(p.lookup_account(&nimbus(9)), None);
    assert_eq!(p.remove_collator(Origin::Root, 1), Ok(()));
    assert!(!p.can_author(&1, &0));
    assert!(p.can_author(&2, &0));
}

#[test]
fn new_session_replaces_set_under_pos_and_only_keys_under_poa() {
    let mut p = new_test_ext();
    p.on_new_session(true, vec![(5, nimbus(5)), (6, nimbus(6))], vec![]);
    assert_eq!(p.get_collators(), vec![5, 6]);
    assert_eq!(p.account_id_of(&nimbus(1)), None);
    assert_eq!(p.account_id_of(&nimbus(6)), Some(6));
    close_pos_test(&mut p);
    p.on_new_session(true, vec![(7, nimbus(7))], vec![]);
    assert_eq!(p.get_collators(), vec![5, 6]);
    assert_eq!(p.account_id_of(&nimbus(7)), Some(7));
    p.on_new_session(true, vec![], vec![]);
    assert_eq!(p.get_collators(), vec![5, 6]);
}

#[test]
fn genesis_session_appends_validators() {
    let mut p = new_test_ext();
    p.on_genesis_session(vec![(4, nimbus(4))]);
    assert_eq!(p.get_collators(), vec![1, 4]);
    assert_eq!(p.account_id_of(&nimbus(4)), Some(4));
    assert!(GenesisConfig::default().build().get_collators().is_empty());
}

#[test]
fn set_collators_keeps_earlier_keys() {
    let mut p = new_test_ext();
    close_pos_test(&mut p);
    let infos = vec![
        CollatorInfo { validator: 2, nimbus_id: nimbus(2) },
        CollatorInfo { validator: 3, nimbus_id: nimbus(3) },
    ];
    assert_eq!(p.set_collators(Origin::Root, infos), Ok(()));
    assert_eq!(p.get_collators(), vec![2, 3]);
    assert_eq!(p.account_id_of(&nimbus(1)), Some(1));
    assert_eq!(p.account_id_of(&nimbus(2)), Some(2));
    assert_eq!(p.account_id_of(&nimbus(3)), Some(3));
    assert_eq!(p.set_collators(Origin::Root, vec![CollatorInfo { validator: 4, nimbus_id: nimbus(2) }]), Ok(()));
    assert_eq!(p.account_id_of(&nimbus(2)), Some(4));
    assert_eq!(p.account_id_of(&nimbus(1)), Some(1));
}
