use aband::account::into_account_truncating;
use aband::group_id::GroupId;
use aband::server_id::ServerId;

#[test]
fn group_accounts_hold_tag_and_index() {
    // "grou" little-endian below, the index's low four bytes above.
    assert_eq!(GroupId(5).into_account_truncating(), 0x0000_0005_756f_7267);
    assert_eq!(GroupId::from(0u64).into_account_truncating(), 0x0000_0000_756f_7267);
    assert_eq!(GroupId(0x1_0000_0001).into_account_truncating(), 0x0000_0001_756f_7267);
}

#[test]
fn server_accounts_hold_tag_and_index() {
    assert_eq!(ServerId(1).into_account_truncating(), 0x0000_0001_7672_6573);
    assert_eq!(into_account_truncating(*b"serv", 0xdead_beef), 0xdead_beef_7672_6573);
}

#[test]
fn distinct_small_indices_give_distinct_accounts() {
    assert_ne!(GroupId(1).into_account_truncating(), GroupId(2).into_account_truncating());
    assert_ne!(GroupId(1).into_account_truncating(), ServerId(1).into_account_truncating());
}
