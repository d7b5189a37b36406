//! The standalone miner's own logic: turning a node's block template into a
//! block, and what one unsuccessful round of nonces leaves behind.

use vstd::prelude::*;
use vstd::utf8::encode_utf8;

use crate::codec::{get_tx_list, header_model, read_tx_list, HeaderModel};
use crate::crypto::array32_of;
use crate::hexcode::{hex_decode, hex_decoded, hex_ok};
use crate::types::{Block, BlockHeader, Hash256, TxModel};

verus! {

/// Nonces tried in one round before the miner looks around again.
pub const NONCES_PER_ROUND: u64 = 100_000;

/// The miner fetches a fresh template whenever its next nonce is a multiple
/// of this.
pub const REFRESH_INTERVAL: u64 = 1_000_000;

/// A block template as the node's `getblocktemplate` call returns it: hashes
/// and the transaction list in hex.
#[derive(Clone, Debug)]
pub struct BlockTemplate {
    pub version: u64,
    /// Previous block hash, 64 hex digits.
    pub prev_hash: String,
    /// Merkle root, 64 hex digits.
    pub merkle_root: String,
    pub timestamp: u64,
    pub difficulty_target: u64,
    pub nonce: u64,
    /// The canonical encoding of the counted transaction list, in hex.
    pub transactions: String,
    /// Height the block would have.
    pub height: u64,
}

/// Why a template could not be turned into a block.
#[derive(Clone, Copy, Debug, PartialEq, Eq, Structural)]
pub enum TemplateError {
    /// The previous hash is not hex.
    PrevHashHex,
    /// The previous hash does not decode to 32 bytes.
    PrevHashLength,
    /// The merkle root is not hex.
    MerkleRootHex,
    /// The merkle root does not decode to 32 bytes.
    MerkleRootLength,
    /// The transaction list is not hex.
    TransactionsHex,
    /// The transaction list does not decode.
    TransactionsDecode,
}

impl TemplateError {
    /// The human-readable message.
    pub fn message(&self) -> (r: &'static str)
        ensures
            r@ == template_error_message(*self),
    {
        match self {
            TemplateError::PrevHashHex => "invalid prev_hash hex",
            TemplateError::PrevHashLength => "prev_hash must be 32 bytes",
            TemplateError::MerkleRootHex => "invalid merkle_root hex",
            TemplateError::MerkleRootLength => "merkle_root must be 32 bytes",
            TemplateError::TransactionsHex => "invalid transactions hex",
            TemplateError::TransactionsDecode => "failed to decode transactions",
        }
    }
}

/// The message of each template error.
pub open spec fn template_error_message(e: TemplateError) -> Seq<char> {
    match e {
        TemplateError::PrevHashHex => "invalid prev_hash hex"@,
        TemplateError::PrevHashLength => "prev_hash must be 32 bytes"@,
        TemplateError::MerkleRootHex => "invalid merkle_root hex"@,
        TemplateError::MerkleRootLength => "merkle_root must be 32 bytes"@,
        TemplateError::TransactionsHex => "invalid transactions hex"@,
        TemplateError::TransactionsDecode => "failed to decode transactions"@,
    }
}

/// The bytes of a text field.
pub open spec fn text_bytes(s: String) -> Seq<u8> {
    encode_utf8(s@)
}

/// A hash field checked in order: hex first, then length.
pub open spec fn hash_field(
    s: String,
    not_hex: TemplateError,
    wrong_len: TemplateError,
) -> Result<Seq<u8>, TemplateError> {
    if !hex_ok(text_bytes(s)) {
        Err(not_hex)
    } else if hex_decoded(text_bytes(s)).len() != 32 {
        Err(wrong_len)
    } else {
        Ok(hex_decoded(text_bytes(s)))
    }
}

/// What a template gives: the header, and the transactions decoded from
/// the start of the list's bytes (bytes after the list are ignored); or
/// the first field that fails, in the order previous hash, merkle root,
/// transactions.
pub open spec fn template_block(t: BlockTemplate) -> Result<(HeaderModel, Seq<TxModel>), TemplateError> {
    match hash_field(t.prev_hash, TemplateError::PrevHashHex, TemplateError::PrevHashLength) {
        Err(e) => Err(e),
        Ok(prev_hash) => match hash_field(
            t.merkle_root,
            TemplateError::MerkleRootHex,
            TemplateError::MerkleRootLength,
        ) {
            Err(e) => Err(e),
            Ok(merkle_root) => if !hex_ok(text_bytes(t.transactions)) {
                Err(TemplateError::TransactionsHex)
            } else {
                match read_tx_list(hex_decoded(text_bytes(t.transactions)), 0) {
                    None => Err(TemplateError::TransactionsDecode),
                    Some((txs, _)) => Ok(
                        (
                            HeaderModel {
                                version: t.version,
                                prev_hash,
                                merkle_root,
                                timestamp: t.timestamp,
                                difficulty_target: t.difficulty_target,
                                nonce: t.nonce,
                            },
                            txs,
                        ),
                    ),
                }
            },
        },
    }
}

/// Decode a 64-digit hex hash field.
fn decode_hash_field(
    s: &String,
    not_hex: TemplateError,
    wrong_len: TemplateError,
) -> (r: Result<Hash256, TemplateError>)
    ensures
        match r {
            Ok(h) => hash_field(*s, not_hex, wrong_len) == Ok::<Seq<u8>, TemplateError>(h@),
            Err(e) => hash_field(*s, not_hex, wrong_len) == Err::<Seq<u8>, TemplateError>(e),
        },
{
    let bytes = s.as_str().as_bytes();
    match hex_decode(bytes) {
        None => Err(not_hex),
        Some(v) => {
            if v.len() != 32 {
                Err(wrong_len)
            } else {
                Ok(Hash256(array32_of(v.as_slice())))
            }
        },
    }
}

/// Rebuild a block from a template. The result is the template's header
/// fields with the two hashes decoded, and its transactions decoded from
/// the hex list; each failure is the first field that fails.
pub fn template_to_block(template: &BlockTemplate) -> (r: Result<Block, TemplateError>)
    ensures
        match r {
            Ok(b) => template_block(*template) == Ok::<(HeaderModel, Seq<TxModel>), TemplateError>(
                (header_model(b.header), b@.transactions),
            ),
            Err(e) => template_block(*template) == Err::<(HeaderModel, Seq<TxModel>), TemplateError>(
                e,
            ),
        },
{
    let prev_hash = match decode_hash_field(
        &template.prev_hash,
        TemplateError::PrevHashHex,
        TemplateError::PrevHashLength,
    ) {
        Ok(h) => h,
        Err(e) => return Err(e),
    };
    let merkle_root = match decode_hash_field(
        &template.merkle_root,
        TemplateError::MerkleRootHex,
        TemplateError::MerkleRootLength,
    ) {
        Ok(h) => h,
        Err(e) => return Err(e),
    };
    let tx_bytes = match hex_decode(template.transactions.as_str().as_bytes()) {
        Some(v) => v,
        None => return Err(TemplateError::TransactionsHex),
    };
    let transactions = match get_tx_list(tx_bytes.as_slice(), 0) {
        Some((txs, _)) => txs,
        None => return Err(TemplateError::TransactionsDecode),
    };
    let header = BlockHeader {
        version: template.version,
        prev_hash,
        merkle_root,
        timestamp: template.timestamp,
        difficulty_target: template.difficulty_target,
        nonce: template.nonce,
    };
    Ok(Block { header, transactions })
}

/// What an unsuccessful round leaves: hashes tried, the nonce to start the
/// next round from, and whether to fetch a new template first.
#[derive(Clone, Copy, Debug, PartialEq, Eq, Structural)]
pub struct RoundEnd {
    pub hashes: u64,
    pub next_nonce: u64,
    pub refetch: bool,
}

/// The last nonce of a round that starts at `start_nonce`.
pub fn round_limit(start_nonce: u64) -> (r: u64)
    ensures
        r == round_limit_spec(start_nonce),
{
    start_nonce.saturating_add(NONCES_PER_ROUND)
}

/// The bookkeeping after a round from `start_nonce` found no block: every
/// nonce up to the round's limit counts as a hash, the next round starts
/// just past the limit (staying at the largest nonce once there), and a new
/// template is fetched when the next nonce is a multiple of the refresh
/// interval.
pub fn after_failed_round(start_nonce: u64) -> (r: RoundEnd)
    ensures
        r.hashes == round_limit_spec(start_nonce) - start_nonce + 1,
        r.next_nonce == if round_limit_spec(start_nonce) < u64::MAX {
            (round_limit_spec(start_nonce) + 1) as u64
        } else {
            u64::MAX
        },
        r.refetch == (r.next_nonce % REFRESH_INTERVAL == 0),
{
    let max_nonce = round_limit(start_nonce);
    let next_nonce = max_nonce.saturating_add(1);
    RoundEnd {
        hashes: max_nonce - start_nonce + 1,
        next_nonce,
        refetch: next_nonce % REFRESH_INTERVAL == 0,
    }
}

/// The last nonce of a round, as a value.
pub open spec fn round_limit_spec(start_nonce: u64) -> u64 {
    if start_nonce as int + NONCES_PER_ROUND <= u64::MAX {
        (start_nonce + NONCES_PER_ROUND) as u64
    } else {
        u64::MAX
    }
}

} // verus!
