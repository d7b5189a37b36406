//! Protocol constants. All monetary values in rills (1 RILL = 10^8 rills).

use vstd::prelude::*;

verus! {

pub const COIN: u64 = 100_000_000;

/// Maximum mining supply (excluding premine).
pub const MAX_SUPPLY: u64 = 21_000_000 * COIN;

pub const INITIAL_REWARD: u64 = 50 * COIN;
pub const HALVING_INTERVAL: u64 = 210_000;
pub const BLOCK_TIME_SECS: u64 = 60;
pub const BLOCKS_PER_YEAR: u64 = 525_960;
pub const MAGIC_BYTES: [u8; 4] = [0x52, 0x49, 0x4C, 0x4C];
pub const DIFFICULTY_WINDOW: u64 = 60;
pub const DECAY_R_MAX_PPB: u64 = 1_500_000_000;
pub const DECAY_PRECISION: u64 = 10_000_000_000;
pub const DECAY_C_THRESHOLD_PPB: u64 = 1_000_000;
pub const CONCENTRATION_PRECISION: u64 = 1_000_000_000;
pub const DECAY_K: u64 = 2000;
pub const LINEAGE_HALF_LIFE: u64 = 52_596;
pub const LINEAGE_FULL_RESET: u64 = 525_960;
pub const DECAY_POOL_RELEASE_BPS: u64 = 100;
pub const BPS_PRECISION: u64 = 10_000;
pub const DEV_FUND_BPS: u64 = 500;

/// Actual maximum total supply including both mining rewards and the premine.
pub const MAX_TOTAL_SUPPLY: u64 = MAX_SUPPLY + (MAX_SUPPLY * DEV_FUND_BPS / BPS_PRECISION);

/// Dev fund premine amount: 5% of `MAX_SUPPLY`.
pub const DEV_FUND_PREMINE_AMOUNT: u64 = MAX_SUPPLY / BPS_PRECISION * DEV_FUND_BPS;

/// Vesting period in blocks: 4 years of blocks at the target block time.
pub const DEV_FUND_VESTING_BLOCKS: u64 = BLOCKS_PER_YEAR * 4;

/// Maximum dev-fund coins that may be spent in a single block (linear vesting),
/// the premine divided by the vesting period, rounded up.
pub const DEV_FUND_MAX_SPEND_PER_BLOCK: u64 =
    (DEV_FUND_PREMINE_AMOUNT + DEV_FUND_VESTING_BLOCKS - 1) / DEV_FUND_VESTING_BLOCKS;

pub const DEFAULT_P2P_PORT: u16 = 18333;
pub const DEFAULT_RPC_PORT: u16 = 18332;
pub const MAX_BLOCK_SIZE: usize = 1_048_576;
pub const MAX_TX_SIZE: usize = 100_000;
pub const MAX_INPUTS: usize = 1000;
pub const MAX_OUTPUTS: usize = 1000;
pub const COINBASE_MATURITY: u64 = 100;
pub const MAX_COINBASE_DATA: usize = 100;
pub const MAX_FUTURE_BLOCK_TIME: u64 = 2 * BLOCK_TIME_SECS;
pub const MAX_LOCATOR_SIZE: usize = 64;
pub const LOCKTIME_THRESHOLD: u64 = 500_000_000;
pub const MIN_TX_FEE: u64 = 1000;

/// Initial difficulty target used by the consensus engine for heights 0 and 1
/// when no override is configured: one hash in 256 passes.
pub const TESTNET_INITIAL_TARGET: u64 = 0x00FF_FFFF_FFFF_FFFF;

/// Default conduct score of a freshly registered agent wallet.
pub const CONDUCT_SCORE_DEFAULT: u16 = 500;

/// Default conduct decay multiplier (1.0x) in basis points.
pub const CONDUCT_MULTIPLIER_DEFAULT_BPS: u64 = 10_000;

/// RandomX key rotation interval.
pub const RANDOMX_KEY_BLOCK_INTERVAL: u64 = 2048;

/// Maximum blocks per peer per minute via request-response.
pub const RATE_LIMIT_BLOCKS_PER_MIN: u32 = 10;
/// Maximum transactions per peer per minute via gossipsub.
pub const RATE_LIMIT_TXS_PER_MIN: u32 = 100;
/// Maximum header requests per peer per minute.
pub const RATE_LIMIT_HEADERS_PER_MIN: u32 = 5;
/// Maximum message size in bytes before deserialization is rejected.
pub const MAX_MESSAGE_SIZE: usize = 2_097_152;

/// Network type: Mainnet, Testnet, or Regtest.
#[derive(Debug, Clone, Copy, PartialEq, Eq, Hash, Structural)]
pub enum NetworkType {
    /// Production network.
    Mainnet,
    /// Public test network with lower difficulty.
    Testnet,
    /// Local regression-test network.
    Regtest,
}

impl Default for NetworkType {
    fn default() -> (r: Self)
        ensures
            r == NetworkType::Mainnet,
    {
        NetworkType::Mainnet
    }
}

impl NetworkType {
    /// Four-byte network identifier prepended to all P2P messages.
    pub fn magic_bytes(&self) -> (r: [u8; 4])
        ensures
            r@ == match *self {
                NetworkType::Mainnet => seq![0x52u8, 0x49, 0x4C, 0x4C],
                NetworkType::Testnet => seq![0x54u8, 0x45, 0x53, 0x54],
                NetworkType::Regtest => seq![0x52u8, 0x45, 0x47, 0x54],
            },
    {
        let r: [u8; 4] = match self {
            NetworkType::Mainnet => [0x52, 0x49, 0x4C, 0x4C],
            NetworkType::Testnet => [0x54, 0x45, 0x53, 0x54],
            NetworkType::Regtest => [0x52, 0x45, 0x47, 0x54],
        };
        assert(r@ =~= match *self {
            NetworkType::Mainnet => seq![0x52u8, 0x49, 0x4C, 0x4C],
            NetworkType::Testnet => seq![0x54u8, 0x45, 0x53, 0x54],
            NetworkType::Regtest => seq![0x52u8, 0x45, 0x47, 0x54],
        });
        r
    }

    /// Default TCP port for P2P connections.
    pub fn default_p2p_port(&self) -> (r: u16)
        ensures
            r == match *self {
                NetworkType::Mainnet => 18333u16,
                NetworkType::Testnet => 28333u16,
                NetworkType::Regtest => 38333u16,
            },
    {
        match self {
            NetworkType::Mainnet => 18333,
            NetworkType::Testnet => 28333,
            NetworkType::Regtest => 38333,
        }
    }

    /// Default TCP port for the JSON-RPC server.
    pub fn default_rpc_port(&self) -> (r: u16)
        ensures
            r == match *self {
                NetworkType::Mainnet => 18332u16,
                NetworkType::Testnet => 28332u16,
                NetworkType::Regtest => 38332u16,
            },
    {
        match self {
            NetworkType::Mainnet => 18332,
            NetworkType::Testnet => 28332,
            NetworkType::Regtest => 38332,
        }
    }

    /// Subdirectory name appended to the base data directory path.
    pub fn data_dir_suffix(&self) -> (r: &'static str)
        ensures
            r@ == match *self {
                NetworkType::Mainnet => "mainnet"@,
                NetworkType::Testnet => "testnet"@,
                NetworkType::Regtest => "regtest"@,
            },
    {
        match self {
            NetworkType::Mainnet => "mainnet",
            NetworkType::Testnet => "testnet",
            NetworkType::Regtest => "regtest",
        }
    }

    /// Minimum allowed difficulty target for this network: the easiest
    /// possible target on Regtest, 1 elsewhere.
    pub fn min_difficulty(&self) -> (r: u64)
        ensures
            r == (if *self == NetworkType::Regtest { u64::MAX } else { 1u64 }),
    {
        match self {
            NetworkType::Regtest => u64::MAX,
            _ => 1,
        }
    }
}

/// Hard-coded checkpoints: (height, block_hash) pairs. Currently none.
pub fn checkpoints() -> (r: Vec<(u64, [u8; 32])>)
    ensures
        r@.len() == 0,
{
    Vec::new()
}

} // verus!
