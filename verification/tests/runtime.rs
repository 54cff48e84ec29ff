use aband::runtime::{get_all_module_accounts, DustRemovalWhitelist};

#[test]
fn no_module_accounts_and_no_dust_exemption() {
    assert!(get_all_module_accounts().is_empty());
    assert!(!DustRemovalWhitelist::contains(&0));
    assert!(!DustRemovalWhitelist::contains(&42));
}
