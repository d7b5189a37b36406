use rill::address::{ADDRESS_VERSION, Address, Network, bech32m_create_checksum, bech32m_verify_checksum, convert_bits};
use rill::types::Hash256;
use rill::error::AddressError;
use rill::crypto::KeyPair;
fn sample_hash() -> Hash256 {
    Hash256([0xAA; 32])
}

// --- Network ---

#[test]
fn network_hrp_mainnet() {
    assert_eq!(Network::Mainnet.hrp(), "rill");
}

#[test]
fn network_hrp_testnet() {
    assert_eq!(Network::Testnet.hrp(), "trill");
}

#[test]
fn network_from_hrp_mainnet() {
    assert_eq!(Network::from_hrp("rill").unwrap(), Network::Mainnet);
}

#[test]
fn network_from_hrp_testnet() {
    assert_eq!(Network::from_hrp("trill").unwrap(), Network::Testnet);
}

#[test]
fn network_from_hrp_unknown() {
    assert_eq!(
        Network::from_hrp("bitcoin").unwrap_err(),
        AddressError::UnknownNetwork("bitcoin".into())
    );
}

// --- Encoding ---

#[test]
fn encode_mainnet_starts_with_rill1() {
    let addr = Address::from_pubkey_hash(sample_hash(), Network::Mainnet);
    let encoded = addr.encode();
    assert!(encoded.starts_with("rill1"));
}

#[test]
fn encode_testnet_starts_with_trill1() {
    let addr = Address::from_pubkey_hash(sample_hash(), Network::Testnet);
    let encoded = addr.encode();
    assert!(encoded.starts_with("trill1"));
}

#[test]
fn encode_is_lowercase() {
    let addr = Address::from_pubkey_hash(sample_hash(), Network::Mainnet);
    let encoded = addr.encode();
    assert_eq!(encoded, encoded.to_ascii_lowercase());
}

#[test]
fn encode_deterministic() {
    let addr = Address::from_pubkey_hash(sample_hash(), Network::Mainnet);
    assert_eq!(addr.encode(), addr.encode());
}

#[test]
fn encode_different_hashes_differ() {
    let a1 = Address::from_pubkey_hash(Hash256([0xAA; 32]), Network::Mainnet);
    let a2 = Address::from_pubkey_hash(Hash256([0xBB; 32]), Network::Mainnet);
    assert_ne!(a1.encode(), a2.encode());
}

#[test]
fn encode_different_networks_differ() {
    let a1 = Address::from_pubkey_hash(sample_hash(), Network::Mainnet);
    let a2 = Address::from_pubkey_hash(sample_hash(), Network::Testnet);
    assert_ne!(a1.encode(), a2.encode());
}

#[test]
fn encode_mainnet_length() {
    // "rill" (4) + "1" (1) + version (1) + 52 data chars + 6 checksum = 64
    let addr = Address::from_pubkey_hash(sample_hash(), Network::Mainnet);
    assert_eq!(addr.encode().len(), 64);
}

#[test]
fn encode_testnet_length() {
    // "trill" (5) + "1" (1) + version (1) + 52 data chars + 6 checksum = 65
    let addr = Address::from_pubkey_hash(sample_hash(), Network::Testnet);
    assert_eq!(addr.encode().len(), 65);
}

// --- Decoding ---

#[test]
fn decode_mainnet_roundtrip() {
    let original = Address::from_pubkey_hash(sample_hash(), Network::Mainnet);
    let encoded = original.encode();
    let decoded = Address::decode(&encoded).unwrap();
    assert_eq!(original, decoded);
}

#[test]
fn decode_testnet_roundtrip() {
    let original = Address::from_pubkey_hash(sample_hash(), Network::Testnet);
    let encoded = original.encode();
    let decoded = Address::decode(&encoded).unwrap();
    assert_eq!(original, decoded);
}

#[test]
fn decode_uppercase_valid() {
    let addr = Address::from_pubkey_hash(sample_hash(), Network::Mainnet);
    let encoded = addr.encode().to_ascii_uppercase();
    let decoded = Address::decode(&encoded).unwrap();
    assert_eq!(addr, decoded);
}

#[test]
fn decode_mixed_case_fails() {
    let addr = Address::from_pubkey_hash(sample_hash(), Network::Mainnet);
    let encoded = addr.encode();
    // Capitalize just the first character of the data part
    let mut mixed = String::new();
    let mut done = false;
    for (i, c) in encoded.chars().enumerate() {
        if !done && i >= 5 && c.is_ascii_lowercase() {
            mixed.push(c.to_ascii_uppercase());
            done = true;
        } else {
            mixed.push(c);
        }
    }
    assert_eq!(Address::decode(&mixed).unwrap_err(), AddressError::MixedCase);
}

#[test]
fn decode_invalid_checksum() {
    let addr = Address::from_pubkey_hash(sample_hash(), Network::Mainnet);
    let mut encoded = addr.encode();
    // Flip the last character
    let last = encoded.pop().unwrap();
    let replacement = if last == 'q' { 'p' } else { 'q' };
    encoded.push(replacement);
    assert_eq!(
        Address::decode(&encoded).unwrap_err(),
        AddressError::InvalidChecksum
    );
}

#[test]
fn decode_invalid_character() {
    // 'b', 'i', 'o' are not in the Bech32 charset
    let addr = Address::from_pubkey_hash(sample_hash(), Network::Mainnet);
    let encoded = addr.encode();
    // Replace a data character with 'b' (invalid in bech32)
    let mut bad = encoded[..6].to_string();
    bad.push('b');
    bad.push_str(&encoded[7..]);
    assert!(matches!(
        Address::decode(&bad).unwrap_err(),
        AddressError::InvalidCharacter('b')
    ));
}

#[test]
fn decode_missing_separator() {
    assert_eq!(
        Address::decode("rillnoseparator").unwrap_err(),
        AddressError::MissingSeparator
    );
}

#[test]
fn decode_empty_hrp() {
    assert_eq!(
        Address::decode("1qqqqqqqqqq").unwrap_err(),
        AddressError::InvalidHrp
    );
}

#[test]
fn decode_too_short() {
    assert_eq!(
        Address::decode("rill1qqqq").unwrap_err(),
        AddressError::InvalidLength
    );
}

#[test]
fn decode_unknown_network() {
    assert!(matches!(
        Network::from_hrp("xill").unwrap_err(),
        AddressError::UnknownNetwork(_)
    ));
}

// --- Roundtrips ---

#[test]
fn roundtrip_from_public_key() {
    let kp = KeyPair::generate();
    let pk = kp.public_key();
    let addr = Address::from_public_key(&pk, Network::Mainnet);

    let encoded = addr.encode();
    let decoded = Address::decode(&encoded).unwrap();

    assert_eq!(decoded.pubkey_hash(), pk.pubkey_hash());
    assert_eq!(decoded.network(), Network::Mainnet);
    assert_eq!(decoded.version(), ADDRESS_VERSION);
}

#[test]
fn roundtrip_zero_hash() {
    let addr = Address::from_pubkey_hash(Hash256::zero(), Network::Mainnet);
    let decoded = Address::decode(&addr.encode()).unwrap();
    assert_eq!(decoded.pubkey_hash(), Hash256::zero());
}

#[test]
fn roundtrip_max_hash() {
    let addr = Address::from_pubkey_hash(Hash256([0xFF; 32]), Network::Mainnet);
    let decoded = Address::decode(&addr.encode()).unwrap();
    assert_eq!(decoded.pubkey_hash(), Hash256([0xFF; 32]));
}

#[test]
fn roundtrip_many_hashes() {
    for i in 0u8..=10 {
        let hash = Hash256([i.wrapping_mul(37); 32]);
        let addr = Address::from_pubkey_hash(hash, Network::Mainnet);
        let decoded = Address::decode(&addr.encode()).unwrap();
        assert_eq!(decoded.pubkey_hash(), hash);
    }
}

// --- Accessors ---

#[test]
fn pubkey_hash_accessor() {
    let hash = sample_hash();
    let addr = Address::from_pubkey_hash(hash, Network::Mainnet);
    assert_eq!(addr.pubkey_hash(), hash);
}

#[test]
fn network_accessor() {
    let addr = Address::from_pubkey_hash(sample_hash(), Network::Testnet);
    assert_eq!(addr.network(), Network::Testnet);
}

#[test]
fn version_accessor() {
    let addr = Address::from_pubkey_hash(sample_hash(), Network::Mainnet);
    assert_eq!(addr.version(), ADDRESS_VERSION);
}

// --- Display / FromStr ---

#[test]
fn display_matches_encode() {
    let addr = Address::from_pubkey_hash(sample_hash(), Network::Mainnet);
    assert_eq!(addr.encode(), addr.encode());
}

#[test]
fn from_str_roundtrip() {
    let addr = Address::from_pubkey_hash(sample_hash(), Network::Mainnet);
    let encoded = addr.encode();
    let parsed: Address = encoded.parse().unwrap();
    assert_eq!(addr, parsed);
}

// --- Serde ---



// --- Bech32m internals ---

#[test]
fn convert_bits_8_to_5_roundtrip() {
    let original = [0xDE, 0xAD, 0xBE, 0xEF];
    let five_bit = convert_bits(&original, 8, 5, true).unwrap();
    let back = convert_bits(&five_bit, 5, 8, false).unwrap();
    assert_eq!(back, original);
}

#[test]
fn convert_bits_32_bytes_to_5_bit() {
    let data = [0u8; 32];
    let five_bit = convert_bits(&data, 8, 5, true).unwrap();
    // 32 * 8 = 256 bits, ceil(256/5) = 52 groups
    assert_eq!(five_bit.len(), 52);
}

#[test]
fn checksum_verifies() {
    let hrp = "rill";
    let data: Vec<u8> = vec![0; 53]; // version + 52 five-bit groups
    let checksum = bech32m_create_checksum(hrp, &data);
    let mut full = data;
    full.extend_from_slice(&checksum);
    assert!(bech32m_verify_checksum(hrp, &full));
}

#[test]
fn checksum_fails_with_wrong_data() {
    let hrp = "rill";
    let data: Vec<u8> = vec![0; 53];
    let checksum = bech32m_create_checksum(hrp, &data);
    let mut full = data;
    full.extend_from_slice(&checksum);
    // Tamper with data
    full[10] ^= 1;
    assert!(!bech32m_verify_checksum(hrp, &full));
}

#[test]
fn checksum_fails_with_wrong_hrp() {
    let data: Vec<u8> = vec![0; 53];
    let checksum = bech32m_create_checksum("rill", &data);
    let mut full = data;
    full.extend_from_slice(&checksum);
    assert!(!bech32m_verify_checksum("trill", &full));
}

// --- Error display ---

#[test]
fn error_display() {
    let e = AddressError::InvalidChecksum;
    assert!(!e.message().is_empty());
}

#[test]
fn checksum_matches_bip350_vector() {
    // "a1lqfn3a" is a valid Bech32m string with an empty payload.
    let data = [31u8, 0, 9, 19, 17, 29];
    assert!(bech32m_verify_checksum("a", &data));
    assert_eq!(bech32m_create_checksum("a", &[]), data.to_vec());
}

#[test]
fn decode_unknown_prefix_with_valid_checksum() {
    let charset = b"qpzry9x8gf2tvdw0s3jn54khce6mua7l";
    let mut payload = vec![0u8];
    payload.extend(convert_bits(&[0x11; 32], 8, 5, true).unwrap());
    let checksum = bech32m_create_checksum("xrill", &payload);
    let mut text = String::from("xrill1");
    for v in payload.iter().chain(checksum.iter()) {
        text.push(charset[*v as usize] as char);
    }
    assert_eq!(
        Address::decode(&text).unwrap_err(),
        AddressError::UnknownNetwork("xrill".into())
    );
}

#[test]
fn decode_wrong_version_reported() {
    let charset = b"qpzry9x8gf2tvdw0s3jn54khce6mua7l";
    let mut payload = vec![1u8];
    payload.extend(convert_bits(&[0x22; 32], 8, 5, true).unwrap());
    let checksum = bech32m_create_checksum("rill", &payload);
    let mut text = String::from("rill1");
    for v in payload.iter().chain(checksum.iter()) {
        text.push(charset[*v as usize] as char);
    }
    assert_eq!(Address::decode(&text).unwrap_err(), AddressError::InvalidVersion(1));
}

#[test]
fn convert_bits_rejects_wide_values_and_bad_padding() {
    assert_eq!(convert_bits(&[32], 5, 8, false), None);
    // Five 5-bit groups hold 25 bits: 3 bytes and one leftover bit that must be zero.
    assert_eq!(convert_bits(&[0, 0, 0, 0, 1], 5, 8, false), None);
    assert_eq!(convert_bits(&[0, 0, 0, 0, 0], 5, 8, false), Some(vec![0, 0, 0]));
}
