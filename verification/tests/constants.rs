use rill::constants::{BLOCKS_PER_YEAR, BPS_PRECISION, COIN, DEV_FUND_BPS, DEV_FUND_MAX_SPEND_PER_BLOCK, DEV_FUND_PREMINE_AMOUNT, DEV_FUND_VESTING_BLOCKS, HALVING_INTERVAL, INITIAL_REWARD, MAGIC_BYTES, MAX_SUPPLY, NetworkType};
#[test]
fn magic_bytes_spell_rill() {
    assert_eq!(&MAGIC_BYTES, b"RILL");
}

#[test]
fn supply_math() {
    assert_eq!(INITIAL_REWARD * HALVING_INTERVAL, 10_500_000 * COIN);
}

// --- NetworkType ---

#[test]
fn network_type_magic_bytes_distinct() {
    let mainnet = NetworkType::Mainnet.magic_bytes();
    let testnet = NetworkType::Testnet.magic_bytes();
    let regtest = NetworkType::Regtest.magic_bytes();
    assert_ne!(mainnet, testnet);
    assert_ne!(mainnet, regtest);
    assert_ne!(testnet, regtest);
}

#[test]
fn network_type_ports_distinct() {
    // P2P ports are all different.
    let ports_p2p = [
        NetworkType::Mainnet.default_p2p_port(),
        NetworkType::Testnet.default_p2p_port(),
        NetworkType::Regtest.default_p2p_port(),
    ];
    assert_ne!(ports_p2p[0], ports_p2p[1]);
    assert_ne!(ports_p2p[0], ports_p2p[2]);
    assert_ne!(ports_p2p[1], ports_p2p[2]);

    // RPC ports are all different.
    let ports_rpc = [
        NetworkType::Mainnet.default_rpc_port(),
        NetworkType::Testnet.default_rpc_port(),
        NetworkType::Regtest.default_rpc_port(),
    ];
    assert_ne!(ports_rpc[0], ports_rpc[1]);
    assert_ne!(ports_rpc[0], ports_rpc[2]);
    assert_ne!(ports_rpc[1], ports_rpc[2]);

    // P2P and RPC ports on the same network must also differ.
    assert_ne!(
        NetworkType::Mainnet.default_p2p_port(),
        NetworkType::Mainnet.default_rpc_port()
    );
}

#[test]
fn network_type_default_is_mainnet() {
    assert_eq!(NetworkType::default(), NetworkType::Mainnet);
}

#[test]
fn constants_dev_fund_premine_is_five_percent() {
    // 5% of MAX_SUPPLY == MAX_SUPPLY * 500 / 10_000
    assert_eq!(
        DEV_FUND_PREMINE_AMOUNT,
        MAX_SUPPLY * DEV_FUND_BPS / BPS_PRECISION
    );
    // Concrete value: 1,050,000 RILL
    assert_eq!(DEV_FUND_PREMINE_AMOUNT, 1_050_000 * COIN);
}

#[test]
fn dev_fund_vesting_blocks_is_four_years() {
    assert_eq!(DEV_FUND_VESTING_BLOCKS, BLOCKS_PER_YEAR * 4);
}

#[test]
fn dev_fund_max_spend_nonzero() {
    assert!(DEV_FUND_MAX_SPEND_PER_BLOCK > 0);
    // Sanity: total vested over the period is at least DEV_FUND_PREMINE_AMOUNT.
    let total_vested = DEV_FUND_MAX_SPEND_PER_BLOCK
        .checked_mul(DEV_FUND_VESTING_BLOCKS)
        .expect("no overflow");
    assert!(total_vested >= DEV_FUND_PREMINE_AMOUNT);
}

#[test]
fn regtest_minimal_difficulty() {
    assert_eq!(NetworkType::Regtest.min_difficulty(), u64::MAX);
    // Mainnet and testnet have normal minimums.
    assert_eq!(NetworkType::Mainnet.min_difficulty(), 1);
    assert_eq!(NetworkType::Testnet.min_difficulty(), 1);
}
