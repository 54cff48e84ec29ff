use aband::chain_spec::{
    development_config, get_account_id_from_seed, get_collator_keys_from_seed, get_from_seed, get_pair_from_seed,
    get_properties, local_testnet_config, template_session_keys, testnet_extensions, testnet_genesis,
    testnet_genesis_with, try_get_from_seed, AccountId32, ChainType, SessionKeys, StakerStatus, GENESIS_BALANCE, PARA_ID,
};
use aband::collators::NimbusId;

const UNIT: u128 = 1_000_000_000_000;

fn acc(n: u8) -> AccountId32 {
    [n; 32]
}

fn key(n: u8) -> NimbusId {
    NimbusId { key: [n; 32] }
}

#[test]
fn genesis_endows_everyone_once_and_stakes_validators() {
    let invulnerables = vec![(acc(1), acc(1), key(1)), (acc(2), acc(1), key(2))];
    let g = testnet_genesis_with(invulnerables, vec![acc(9)], vec![acc(1), acc(3)], PARA_ID, UNIT, vec![vec![1, 0]]);
    assert_eq!(
        g.balances,
        vec![(acc(1), GENESIS_BALANCE), (acc(3), GENESIS_BALANCE), (acc(2), GENESIS_BALANCE), (acc(9), GENESIS_BALANCE)]
    );
    assert_eq!(GENESIS_BALANCE, 1u128 << 60);
    assert_eq!(g.parachain_id, 2022);
    assert_eq!(g.session_keys, vec![(acc(1), acc(1), SessionKeys { nimbus: key(1) }), (acc(2), acc(2), template_session_keys(key(2)))]);
    assert_eq!(g.collator_mapping, vec![(acc(1), key(1)), (acc(2), key(2))]);
    assert_eq!(g.validator_count, 2);
    assert_eq!(g.minimum_validator_count, 2);
    assert_eq!(g.invulnerables, vec![acc(1), acc(2)]);
    assert_eq!(g.slash_reward_fraction.deconstruct(), 100_000_000);
    assert_eq!(g.min_create_bond, 10 * UNIT);
    assert_eq!(g.min_join_bond, UNIT);
    assert_eq!(g.stakers.len(), 3);
    assert_eq!(g.stakers[1].stash, acc(2));
    assert_eq!(g.stakers[1].controller, acc(1));
    assert_eq!(g.stakers[1].value, 10_000 * UNIT);
    assert!(matches!(g.stakers[1].status, StakerStatus::Validator));
    assert_eq!(g.stakers[2].stash, acc(9));
    assert_eq!(g.stakers[2].controller, acc(9));
    match &g.stakers[2].status {
        StakerStatus::Nominator(v) => assert_eq!(v, &vec![acc(2), acc(1)]),
        StakerStatus::Validator => panic!("a nominator must nominate"),
    }
}

#[test]
fn random_nominations_stay_below_the_limit() {
    let invulnerables = vec![(acc(1), acc(1), key(1)), (acc(2), acc(2), key(2)), (acc(3), acc(3), key(3))];
    for _ in 0..20 {
        let g = testnet_genesis(invulnerables.clone(), vec![acc(7), acc(8)], vec![], PARA_ID, UNIT, 16);
        assert_eq!(g.stakers.len(), 5);
        for s in &g.stakers[3..] {
            match &s.status {
                StakerStatus::Nominator(v) => {
                    assert!(v.len() < 3);
                    for (i, a) in v.iter().enumerate() {
                        assert!([acc(1), acc(2), acc(3)].contains(a));
                        assert!(!v[..i].contains(a));
                    }
                },
                StakerStatus::Validator => panic!("a nominator must nominate"),
            }
        }
    }
}

#[test]
fn chain_properties_and_extensions() {
    let p = get_properties();
    assert_eq!(p.token_symbol, "BAND");
    assert_eq!(p.token_decimals, 12);
    assert_eq!(p.ss58_format, 42);
    let e = testnet_extensions();
    assert_eq!(e.relay_chain, "rococo-local");
    assert_eq!(e.para_id, 2022);
}

const ALICE: [u8; 32] = [
    0xd4, 0x35, 0x93, 0xc7, 0x15, 0xfd, 0xd3, 0x1c, 0x61, 0x14, 0x1a, 0xbd, 0x04, 0xa9, 0x9f, 0xd6, 0x82, 0x2c, 0x85,
    0x58, 0x85, 0x4c, 0xcd, 0xe3, 0x9a, 0x56, 0x84, 0xe7, 0xa5, 0x6d, 0xa2, 0x7d,
];
const BOB: [u8; 32] = [
    0x8e, 0xaf, 0x04, 0x15, 0x16, 0x87, 0x73, 0x63, 0x26, 0xc9, 0xfe, 0xa1, 0x7e, 0x25, 0xfc, 0x52, 0x87, 0x61, 0x36,
    0x93, 0xc9, 0x12, 0x90, 0x9c, 0xb2, 0x26, 0xaa, 0x47, 0x94, 0xf2, 0x6a, 0x48,
];

#[test]
fn development_seeds_give_the_well_known_keys() {
    assert_eq!(get_account_id_from_seed("Alice"), ALICE);
    assert_eq!(get_from_seed("Bob"), BOB);
    assert_eq!(get_pair_from_seed("Bob"), BOB);
    assert_eq!(get_collator_keys_from_seed("Alice"), NimbusId { key: ALICE });
    assert_eq!(try_get_from_seed("Alice"), Some(ALICE));
    assert_ne!(get_from_seed("Alice//stash"), ALICE);
}

#[test]
fn development_and_local_specs() {
    let dev = development_config(UNIT).unwrap();
    assert_eq!(dev.name, "Aband Development");
    assert_eq!(dev.id, "aband dev");
    assert_eq!(dev.chain_type, ChainType::Development);
    assert_eq!(dev.protocol_id, None);
    assert_eq!(dev.extensions.relay_chain, "rococo-local");
    assert_eq!(dev.properties.token_symbol, "BAND");
    assert_eq!(dev.genesis.balances.len(), 12);
    assert_eq!(dev.genesis.balances[0], (ALICE, GENESIS_BALANCE));
    assert_eq!(dev.genesis.invulnerables, vec![ALICE, BOB]);
    assert_eq!(dev.genesis.stakers.len(), 2);
    assert_eq!(dev.genesis.stakers[1].controller, ALICE);
    assert_eq!(dev.genesis.stakers[1].value, 10_000 * UNIT);
    assert_eq!(dev.genesis.collator_mapping, vec![(ALICE, NimbusId { key: ALICE }), (BOB, NimbusId { key: BOB })]);
    let local = local_testnet_config(UNIT).unwrap();
    assert_eq!(local.name, "Aband Testnet");
    assert_eq!(local.id, "aband_testnet");
    assert_eq!(local.chain_type, ChainType::Local);
    assert_eq!(local.protocol_id, Some("aband_testnet".to_string()));
    assert_eq!(local.genesis.stakers[1].controller, BOB);
    assert_eq!(local.extensions.para_id, PARA_ID);
}
