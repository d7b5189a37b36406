use rill::codec::encode_transactions;
use rill::constants::COIN;
use rill::miner::{
    after_failed_round, round_limit, template_to_block, BlockTemplate, TemplateError,
};
use rill::types::{Hash256, OutPoint, Transaction, TxInput, TxOutput};

fn to_hex(bytes: &[u8]) -> String {
    bytes.iter().map(|b| format!("{b:02x}")).collect()
}

fn coinbase() -> Transaction {
    Transaction {
        version: 1,
        inputs: vec![TxInput {
            previous_output: OutPoint::null(),
            signature: vec![1, 2, 3],
            public_key: vec![],
        }],
        outputs: vec![TxOutput { value: 50 * COIN, pubkey_hash: Hash256([0xAA; 32]) }],
        lock_time: 0,
    }
}

fn template() -> BlockTemplate {
    BlockTemplate {
        version: 1,
        prev_hash: "11".repeat(32),
        merkle_root: "AB".repeat(32),
        timestamp: 1_700_000_000,
        difficulty_target: u64::MAX,
        nonce: 9,
        transactions: to_hex(&encode_transactions(&vec![coinbase()])),
        height: 5,
    }
}

#[test]
fn template_becomes_block() {
    let block = template_to_block(&template()).unwrap();
    assert_eq!(block.header.version, 1);
    assert_eq!(block.header.prev_hash, Hash256([0x11; 32]));
    assert_eq!(block.header.merkle_root, Hash256([0xAB; 32]));
    assert_eq!(block.header.timestamp, 1_700_000_000);
    assert_eq!(block.header.difficulty_target, u64::MAX);
    assert_eq!(block.header.nonce, 9);
    assert_eq!(block.transactions, vec![coinbase()]);
}

#[test]
fn template_errors_name_the_first_bad_field() {
    let mut t = template();
    t.prev_hash = "zz".into();
    t.merkle_root = "zz".into();
    assert_eq!(template_to_block(&t), Err(TemplateError::PrevHashHex));
    let mut t = template();
    t.prev_hash = "1111".into();
    assert_eq!(template_to_block(&t), Err(TemplateError::PrevHashLength));
    let mut t = template();
    t.merkle_root = "abc".into();
    assert_eq!(template_to_block(&t), Err(TemplateError::MerkleRootHex));
    let mut t = template();
    t.merkle_root = "ab".repeat(31);
    assert_eq!(template_to_block(&t), Err(TemplateError::MerkleRootLength));
    let mut t = template();
    t.transactions = "0g".into();
    assert_eq!(template_to_block(&t), Err(TemplateError::TransactionsHex));
    let mut t = template();
    t.transactions = "0201".into();
    assert_eq!(template_to_block(&t), Err(TemplateError::TransactionsDecode));
}

#[test]
fn template_error_messages() {
    assert_eq!(TemplateError::PrevHashHex.message(), "invalid prev_hash hex");
    assert_eq!(TemplateError::MerkleRootLength.message(), "merkle_root must be 32 bytes");
    assert_eq!(TemplateError::TransactionsDecode.message(), "failed to decode transactions");
}

#[test]
fn empty_transaction_list_decodes() {
    let mut t = template();
    t.transactions = "00".into();
    assert!(template_to_block(&t).unwrap().transactions.is_empty());
}

#[test]
fn round_bookkeeping() {
    assert_eq!(round_limit(0), 100_000);
    assert_eq!(round_limit(u64::MAX - 5), u64::MAX);
    let end = after_failed_round(0);
    assert_eq!(end.hashes, 100_001);
    assert_eq!(end.next_nonce, 100_001);
    assert!(!end.refetch);
    let end = after_failed_round(899_999);
    assert_eq!(end.next_nonce, 1_000_000);
    assert!(end.refetch);
    let end = after_failed_round(u64::MAX);
    assert_eq!(end.hashes, 1);
    assert_eq!(end.next_nonce, u64::MAX);
}
