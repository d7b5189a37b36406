use rill::codec::{decode_agent_state, encode_agent_state};
use rill::agent::{AgentWalletState, ConductProfile};
use rill::constants::{CONDUCT_MULTIPLIER_DEFAULT_BPS, CONDUCT_SCORE_DEFAULT};
use rill::types::{Hash256, WalletType};

#[test]
fn wallet_type_default_is_standard() {
    assert_eq!(WalletType::default(), WalletType::Standard);
}

#[test]
fn agent_wallet_state_copies_equal() {
    let state = AgentWalletState {
        pubkey_hash: Hash256([0xAA; 32]),
        registered_at_block: 100,
        stake_balance: 50_00000000,
        stake_locked_until: 1540,
        conduct_score: CONDUCT_SCORE_DEFAULT,
        conduct_multiplier_bps: CONDUCT_MULTIPLIER_DEFAULT_BPS,
        undertow_active: false,
        undertow_expires_at: 0,
    };
    let copy = state;
    assert_eq!(state, copy);
    assert_eq!(copy.conduct_multiplier_bps, 10_000);
}

#[test]
fn conduct_profile_fields() {
    let profile = ConductProfile {
        pubkey_hash: Hash256([0xBB; 32]),
        wallet_type: WalletType::Agent,
        conduct_score: 500,
        conduct_multiplier_bps: 15_000,
        effective_decay_rate_ppb: 750_000_000,
        undertow_active: false,
        registered_at_block: 42,
        wallet_age_blocks: 1000,
    };
    assert_eq!(profile.wallet_type, WalletType::Agent);
    assert_ne!(profile.wallet_type, WalletType::default());
}

#[test]
fn agent_wallet_state_roundtrip() {
    let state = AgentWalletState {
        pubkey_hash: Hash256([0xAA; 32]),
        registered_at_block: 100,
        stake_balance: 50_00000000,
        stake_locked_until: 1540,
        conduct_score: CONDUCT_SCORE_DEFAULT,
        conduct_multiplier_bps: CONDUCT_MULTIPLIER_DEFAULT_BPS,
        undertow_active: false,
        undertow_expires_at: 0,
    };
    let encoded = encode_agent_state(&state);
    let (decoded, used) = decode_agent_state(&encoded).unwrap();
    assert_eq!(state, decoded);
    assert_eq!(used, encoded.len());
}

#[test]
fn agent_state_score_refuses_wide_varint() {
    let state = AgentWalletState {
        pubkey_hash: Hash256([1; 32]),
        registered_at_block: 0,
        stake_balance: 0,
        stake_locked_until: 0,
        conduct_score: 0,
        conduct_multiplier_bps: 0,
        undertow_active: true,
        undertow_expires_at: 0,
    };
    let mut bytes = encode_agent_state(&state);
    // hash, three one-byte heights, then the score: write it in the 4-byte form.
    let at = 32 + 3;
    assert_eq!(bytes[at], 0);
    bytes.splice(at..at + 1, [252u8, 0, 0, 0, 0]);
    assert!(decode_agent_state(&bytes).is_none());
}
