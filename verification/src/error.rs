//! Error types for the Rill protocol, each with its human-readable message.

use vstd::prelude::*;
use vstd::string::StringExecFns;

use crate::types::{decimal_chars, string_from_chars, u64_to_decimal};

verus! {

/// Append a string slice.
pub fn push_str(s: &mut String, t: &str)
    ensures
        final(s)@ == old(s)@ + t@,
{
    s.append(t);
}

/// Append the decimal digits of `v`.
pub fn push_u64(s: &mut String, v: u64)
    ensures
        final(s)@ == old(s)@ + decimal_chars(v as nat),
{
    let d = string_from_chars(u64_to_decimal(v));
    s.append(d.as_str());
}

/// Decimal rendering of a signed integer, with a leading `-` when negative.
pub open spec fn signed_decimal_chars(v: int) -> Seq<char> {
    if v < 0 {
        seq!['-'] + decimal_chars((-v) as nat)
    } else {
        decimal_chars(v as nat)
    }
}

/// Append the decimal digits of `v`, signed.
pub fn push_i64(s: &mut String, v: i64)
    ensures
        final(s)@ == old(s)@ + signed_decimal_chars(v as int),
{
    if v < 0 {
        let mut c: Vec<char> = Vec::new();
        c.push('-');
        let m: u64 = if v == i64::MIN {
            0x8000_0000_0000_0000u64
        } else {
            (-v) as u64
        };
        let d = u64_to_decimal(m);
        let mut i: usize = 0;
        while i < d.len()
            invariant
                i <= d@.len(),
                c@ == seq!['-'] + d@.subrange(0, i as int),
            decreases d@.len() - i,
        {
            c.push(d[i]);
            i = i + 1;
            assert(c@ =~= seq!['-'] + d@.subrange(0, i as int));
        }
        assert(d@.subrange(0, d@.len() as int) =~= d@);
        let t = string_from_chars(c);
        s.append(t.as_str());
    } else {
        push_u64(s, v as u64);
    }
}

/// Errors from transaction validation.
#[derive(Debug, Clone, PartialEq, Eq)]
pub enum TransactionError {
    UnknownUtxo(String),
    InsufficientFunds { have: u64, need: u64 },
    InvalidSignature { index: usize },
    DuplicateInput(String),
    OversizedTransaction { size: usize, max: usize },
    EmptyInputsOrOutputs,
    ValueOverflow,
    InvalidCoinbase(String),
    Serialization(String),
    ImmatureCoinbase { index: usize },
    ZeroValueOutput(usize),
    NullOutpointInRegularTx(usize),
}

/// A transaction error as a mathematical value: its text payloads as
/// character sequences.
pub ghost enum TxErr {
    UnknownUtxo(Seq<char>),
    InsufficientFunds { have: u64, need: u64 },
    InvalidSignature { index: usize },
    DuplicateInput(Seq<char>),
    OversizedTransaction { size: usize, max: usize },
    EmptyInputsOrOutputs,
    ValueOverflow,
    InvalidCoinbase(Seq<char>),
    Serialization(Seq<char>),
    ImmatureCoinbase { index: usize },
    ZeroValueOutput(usize),
    NullOutpointInRegularTx(usize),
}

impl View for TransactionError {
    type V = TxErr;

    open spec fn view(&self) -> TxErr {
        match *self {
            TransactionError::UnknownUtxo(s) => TxErr::UnknownUtxo(s@),
            TransactionError::InsufficientFunds { have, need } => TxErr::InsufficientFunds { have, need },
            TransactionError::InvalidSignature { index } => TxErr::InvalidSignature { index },
            TransactionError::DuplicateInput(s) => TxErr::DuplicateInput(s@),
            TransactionError::OversizedTransaction { size, max } => TxErr::OversizedTransaction {
                size,
                max,
            },
            TransactionError::EmptyInputsOrOutputs => TxErr::EmptyInputsOrOutputs,
            TransactionError::ValueOverflow => TxErr::ValueOverflow,
            TransactionError::InvalidCoinbase(s) => TxErr::InvalidCoinbase(s@),
            TransactionError::Serialization(s) => TxErr::Serialization(s@),
            TransactionError::ImmatureCoinbase { index } => TxErr::ImmatureCoinbase { index },
            TransactionError::ZeroValueOutput(i) => TxErr::ZeroValueOutput(i),
            TransactionError::NullOutpointInRegularTx(i) => TxErr::NullOutpointInRegularTx(i),
        }
    }
}

/// The message of a transaction error.
pub open spec fn tx_error_message(e: TransactionError) -> Seq<char> {
    match e {
        TransactionError::UnknownUtxo(s) => "unknown UTXO: "@ + s@,
        TransactionError::InsufficientFunds { have, need } => "insufficient funds: have "@
            + decimal_chars(have as nat) + ", need "@ + decimal_chars(need as nat),
        TransactionError::InvalidSignature { index } => "invalid signature on input "@
            + decimal_chars(index as nat),
        TransactionError::DuplicateInput(s) => "duplicate input: "@ + s@,
        TransactionError::OversizedTransaction { size, max } => "oversized: "@ + decimal_chars(
            size as nat,
        ) + " > "@ + decimal_chars(max as nat),
        TransactionError::EmptyInputsOrOutputs => "empty inputs or outputs"@,
        TransactionError::ValueOverflow => "value overflow"@,
        TransactionError::InvalidCoinbase(s) => "invalid coinbase: "@ + s@,
        TransactionError::Serialization(s) => "serialization: "@ + s@,
        TransactionError::ImmatureCoinbase { index } => "immature coinbase UTXO at input "@
            + decimal_chars(index as nat),
        TransactionError::ZeroValueOutput(i) => "zero-value output at index "@ + decimal_chars(
            i as nat,
        ),
        TransactionError::NullOutpointInRegularTx(i) => "null outpoint in non-coinbase input "@
            + decimal_chars(i as nat),
    }
}

impl TransactionError {
    /// The human-readable message.
    pub fn message(&self) -> (r: String)
        ensures
            r@ == tx_error_message(*self),
    {
        let mut s = String::new();
        match self {
            TransactionError::UnknownUtxo(t) => {
                push_str(&mut s, "unknown UTXO: ");
                push_str(&mut s, t.as_str());
            },
            TransactionError::InsufficientFunds { have, need } => {
                push_str(&mut s, "insufficient funds: have ");
                push_u64(&mut s, *have);
                push_str(&mut s, ", need ");
                push_u64(&mut s, *need);
            },
            TransactionError::InvalidSignature { index } => {
                push_str(&mut s, "invalid signature on input ");
                push_u64(&mut s, *index as u64);
            },
            TransactionError::DuplicateInput(t) => {
                push_str(&mut s, "duplicate input: ");
                push_str(&mut s, t.as_str());
            },
            TransactionError::OversizedTransaction { size, max } => {
                push_str(&mut s, "oversized: ");
                push_u64(&mut s, *size as u64);
                push_str(&mut s, " > ");
                push_u64(&mut s, *max as u64);
            },
            TransactionError::EmptyInputsOrOutputs => {
                push_str(&mut s, "empty inputs or outputs");
            },
            TransactionError::ValueOverflow => {
                push_str(&mut s, "value overflow");
            },
            TransactionError::InvalidCoinbase(t) => {
                push_str(&mut s, "invalid coinbase: ");
                push_str(&mut s, t.as_str());
            },
            TransactionError::Serialization(t) => {
                push_str(&mut s, "serialization: ");
                push_str(&mut s, t.as_str());
            },
            TransactionError::ImmatureCoinbase { index } => {
                push_str(&mut s, "immature coinbase UTXO at input ");
                push_u64(&mut s, *index as u64);
            },
            TransactionError::ZeroValueOutput(i) => {
                push_str(&mut s, "zero-value output at index ");
                push_u64(&mut s, *i as u64);
            },
            TransactionError::NullOutpointInRegularTx(i) => {
                push_str(&mut s, "null outpoint in non-coinbase input ");
                push_u64(&mut s, *i as u64);
            },
        }
        assert(s@ =~= tx_error_message(*self));
        s
    }
}

/// Errors from block validation.
#[derive(Debug, Clone, PartialEq, Eq)]
pub enum BlockError {
    InvalidPoW,
    InvalidPrevHash,
    TimestampTooFar(i64),
    TimestampNotAfterParent,
    InvalidMerkleRoot,
    InvalidReward { got: u64, expected: u64 },
    InvalidDecaySummary(String),
    OversizedBlock { size: usize, max: usize },
    NoCoinbase,
    FirstTxNotCoinbase,
    MultipleCoinbase,
    DuplicateTxid(String),
    DoubleSpend(String),
    InvalidDifficulty { got: u64, expected: u64 },
    TransactionError { index: usize, source: TransactionError },
    InvalidBlockVersion(u64),
    CheckpointMismatch,
}

/// A block error as a mathematical value: its text payloads as character
/// sequences.
pub ghost enum BlockErr {
    InvalidPoW,
    InvalidPrevHash,
    TimestampTooFar(i64),
    TimestampNotAfterParent,
    InvalidMerkleRoot,
    InvalidReward { got: u64, expected: u64 },
    InvalidDecaySummary(Seq<char>),
    OversizedBlock { size: usize, max: usize },
    NoCoinbase,
    FirstTxNotCoinbase,
    MultipleCoinbase,
    DuplicateTxid(Seq<char>),
    DoubleSpend(Seq<char>),
    InvalidDifficulty { got: u64, expected: u64 },
    TransactionError { index: usize, source: TxErr },
    InvalidBlockVersion(u64),
    CheckpointMismatch,
}

impl View for BlockError {
    type V = BlockErr;

    open spec fn view(&self) -> BlockErr {
        match *self {
            BlockError::InvalidPoW => BlockErr::InvalidPoW,
            BlockError::InvalidPrevHash => BlockErr::InvalidPrevHash,
            BlockError::TimestampTooFar(d) => BlockErr::TimestampTooFar(d),
            BlockError::TimestampNotAfterParent => BlockErr::TimestampNotAfterParent,
            BlockError::InvalidMerkleRoot => BlockErr::InvalidMerkleRoot,
            BlockError::InvalidReward { got, expected } => BlockErr::InvalidReward { got, expected },
            BlockError::InvalidDecaySummary(s) => BlockErr::InvalidDecaySummary(s@),
            BlockError::OversizedBlock { size, max } => BlockErr::OversizedBlock { size, max },
            BlockError::NoCoinbase => BlockErr::NoCoinbase,
            BlockError::FirstTxNotCoinbase => BlockErr::FirstTxNotCoinbase,
            BlockError::MultipleCoinbase => BlockErr::MultipleCoinbase,
            BlockError::DuplicateTxid(s) => BlockErr::DuplicateTxid(s@),
            BlockError::DoubleSpend(s) => BlockErr::DoubleSpend(s@),
            BlockError::InvalidDifficulty { got, expected } => BlockErr::InvalidDifficulty {
                got,
                expected,
            },
            BlockError::TransactionError { index, source } => BlockErr::TransactionError {
                index,
                source: source@,
            },
            BlockError::InvalidBlockVersion(v) => BlockErr::InvalidBlockVersion(v),
            BlockError::CheckpointMismatch => BlockErr::CheckpointMismatch,
        }
    }
}

/// The message of a block error.
pub open spec fn block_error_message(e: BlockError) -> Seq<char> {
    match e {
        BlockError::InvalidPoW => "invalid PoW"@,
        BlockError::InvalidPrevHash => "invalid prev hash"@,
        BlockError::TimestampTooFar(d) => "timestamp too far: "@ + signed_decimal_chars(d as int),
        BlockError::TimestampNotAfterParent => "timestamp not after parent"@,
        BlockError::InvalidMerkleRoot => "invalid merkle root"@,
        BlockError::InvalidReward { got, expected } => "invalid reward: got "@ + decimal_chars(
            got as nat,
        ) + ", expected "@ + decimal_chars(expected as nat),
        BlockError::InvalidDecaySummary(s) => "invalid decay summary: "@ + s@,
        BlockError::OversizedBlock { size, max } => "oversized: "@ + decimal_chars(size as nat)
            + " > "@ + decimal_chars(max as nat),
        BlockError::NoCoinbase => "no coinbase"@,
        BlockError::FirstTxNotCoinbase => "first transaction is not coinbase"@,
        BlockError::MultipleCoinbase => "multiple coinbase transactions"@,
        BlockError::DuplicateTxid(s) => "duplicate txid: "@ + s@,
        BlockError::DoubleSpend(s) => "double spend across transactions: "@ + s@,
        BlockError::InvalidDifficulty { got, expected } => "invalid difficulty: got "@
            + decimal_chars(got as nat) + ", expected "@ + decimal_chars(expected as nat),
        BlockError::TransactionError { index, source } => "tx error in "@ + decimal_chars(
            index as nat,
        ) + ": "@ + tx_error_message(source),
        BlockError::InvalidBlockVersion(v) => "invalid block version: "@ + decimal_chars(
            v as nat,
        ),
        BlockError::CheckpointMismatch => "checkpoint mismatch"@,
    }
}

impl BlockError {
    /// The human-readable message.
    pub fn message(&self) -> (r: String)
        ensures
            r@ == block_error_message(*self),
    {
        let mut s = String::new();
        match self {
            BlockError::InvalidPoW => {
                push_str(&mut s, "invalid PoW");
            },
            BlockError::InvalidPrevHash => {
                push_str(&mut s, "invalid prev hash");
            },
            BlockError::TimestampTooFar(d) => {
                push_str(&mut s, "timestamp too far: ");
                push_i64(&mut s, *d);
            },
            BlockError::TimestampNotAfterParent => {
                push_str(&mut s, "timestamp not after parent");
            },
            BlockError::InvalidMerkleRoot => {
                push_str(&mut s, "invalid merkle root");
            },
            BlockError::InvalidReward { got, expected } => {
                push_str(&mut s, "invalid reward: got ");
                push_u64(&mut s, *got);
                push_str(&mut s, ", expected ");
                push_u64(&mut s, *expected);
            },
            BlockError::InvalidDecaySummary(t) => {
                push_str(&mut s, "invalid decay summary: ");
                push_str(&mut s, t.as_str());
            },
            BlockError::OversizedBlock { size, max } => {
                push_str(&mut s, "oversized: ");
                push_u64(&mut s, *size as u64);
                push_str(&mut s, " > ");
                push_u64(&mut s, *max as u64);
            },
            BlockError::NoCoinbase => {
                push_str(&mut s, "no coinbase");
            },
            BlockError::FirstTxNotCoinbase => {
                push_str(&mut s, "first transaction is not coinbase");
            },
            BlockError::MultipleCoinbase => {
                push_str(&mut s, "multiple coinbase transactions");
            },
            BlockError::DuplicateTxid(t) => {
                push_str(&mut s, "duplicate txid: ");
                push_str(&mut s, t.as_str());
            },
            BlockError::DoubleSpend(t) => {
                push_str(&mut s, "double spend across transactions: ");
                push_str(&mut s, t.as_str());
            },
            BlockError::InvalidDifficulty { got, expected } => {
                push_str(&mut s, "invalid difficulty: got ");
                push_u64(&mut s, *got);
                push_str(&mut s, ", expected ");
                push_u64(&mut s, *expected);
            },
            BlockError::TransactionError { index, source } => {
                push_str(&mut s, "tx error in ");
                push_u64(&mut s, *index as u64);
                push_str(&mut s, ": ");
                let m = source.message();
                push_str(&mut s, m.as_str());
            },
            BlockError::InvalidBlockVersion(v) => {
                push_str(&mut s, "invalid block version: ");
                push_u64(&mut s, *v);
            },
            BlockError::CheckpointMismatch => {
                push_str(&mut s, "checkpoint mismatch");
            },
        }
        assert(s@ =~= block_error_message(*self));
        s
    }
}

/// Errors from decay computation.
#[derive(Debug, Clone, PartialEq, Eq)]
pub enum DecayError {
    ClusterNotFound(String),
    ZeroCirculatingSupply,
    ArithmeticOverflow,
}

/// Errors from the network layer.
#[derive(Debug, Clone, PartialEq, Eq)]
pub enum NetworkError {
    PeerDisconnected(String),
    MessageTooLarge { size: usize },
    Timeout,
}

/// Errors from key handling and signature checks.
#[derive(Debug, Clone, PartialEq, Eq)]
pub enum CryptoError {
    InvalidPublicKey,
    InvalidSignature,
    VerificationFailed,
    PubkeyHashMismatch,
    InputIndexOutOfBounds { index: usize, len: usize },
}

/// Errors from address decoding.
#[derive(Debug, Clone, PartialEq, Eq)]
pub enum AddressError {
    InvalidHrp,
    InvalidLength,
    InvalidChecksum,
    InvalidCharacter(char),
    InvalidVersion(u8),
    InvalidPadding,
    UnknownNetwork(String),
    MissingSeparator,
    MixedCase,
}

/// An address error as a mathematical value: its text payload as a
/// character sequence.
pub ghost enum AddrErr {
    InvalidHrp,
    InvalidLength,
    InvalidChecksum,
    InvalidCharacter(char),
    InvalidVersion(u8),
    InvalidPadding,
    UnknownNetwork(Seq<char>),
    MissingSeparator,
    MixedCase,
}

impl View for AddressError {
    type V = AddrErr;

    open spec fn view(&self) -> AddrErr {
        match *self {
            AddressError::InvalidHrp => AddrErr::InvalidHrp,
            AddressError::InvalidLength => AddrErr::InvalidLength,
            AddressError::InvalidChecksum => AddrErr::InvalidChecksum,
            AddressError::InvalidCharacter(c) => AddrErr::InvalidCharacter(c),
            AddressError::InvalidVersion(v) => AddrErr::InvalidVersion(v),
            AddressError::InvalidPadding => AddrErr::InvalidPadding,
            AddressError::UnknownNetwork(s) => AddrErr::UnknownNetwork(s@),
            AddressError::MissingSeparator => AddrErr::MissingSeparator,
            AddressError::MixedCase => AddrErr::MixedCase,
        }
    }
}

/// The message of an address error.
pub open spec fn address_error_message(e: AddressError) -> Seq<char> {
    match e {
        AddressError::InvalidHrp => "invalid HRP"@,
        AddressError::InvalidLength => "invalid length"@,
        AddressError::InvalidChecksum => "invalid checksum"@,
        AddressError::InvalidCharacter(c) => "invalid character: "@ + seq![c],
        AddressError::InvalidVersion(v) => "invalid version: "@ + decimal_chars(v as nat),
        AddressError::InvalidPadding => "invalid padding bits"@,
        AddressError::UnknownNetwork(s) => "unknown network: "@ + s@,
        AddressError::MissingSeparator => "missing separator"@,
        AddressError::MixedCase => "mixed case"@,
    }
}

impl AddressError {
    /// The human-readable message.
    pub fn message(&self) -> (r: String)
        ensures
            r@ == address_error_message(*self),
    {
        let mut s = String::new();
        match self {
            AddressError::InvalidHrp => push_str(&mut s, "invalid HRP"),
            AddressError::InvalidLength => push_str(&mut s, "invalid length"),
            AddressError::InvalidChecksum => push_str(&mut s, "invalid checksum"),
            AddressError::InvalidCharacter(c) => {
                push_str(&mut s, "invalid character: ");
                let mut v: Vec<char> = Vec::new();
                v.push(*c);
                let t = string_from_chars(v);
                push_str(&mut s, t.as_str());
            },
            AddressError::InvalidVersion(v) => {
                push_str(&mut s, "invalid version: ");
                push_u64(&mut s, *v as u64);
            },
            AddressError::InvalidPadding => push_str(&mut s, "invalid padding bits"),
            AddressError::UnknownNetwork(t) => {
                push_str(&mut s, "unknown network: ");
                push_str(&mut s, t.as_str());
            },
            AddressError::MissingSeparator => push_str(&mut s, "missing separator"),
            AddressError::MixedCase => push_str(&mut s, "mixed case"),
        }
        assert(s@ =~= address_error_message(*self));
        s
    }
}

/// Errors from the mempool.
#[derive(Debug, Clone, PartialEq, Eq)]
pub enum MempoolError {
    AlreadyExists(String),
    Conflict { new_txid: String, existing_txid: String, outpoint: String },
    PoolFull,
    FeeTooLow { fee: u64, minimum: u64 },
    Internal(String),
}

/// A mempool error as a mathematical value: its text payloads as
/// character sequences.
pub ghost enum MempoolErr {
    AlreadyExists(Seq<char>),
    Conflict { new_txid: Seq<char>, existing_txid: Seq<char>, outpoint: Seq<char> },
    PoolFull,
    FeeTooLow { fee: u64, minimum: u64 },
    Internal(Seq<char>),
}

impl View for MempoolError {
    type V = MempoolErr;

    open spec fn view(&self) -> MempoolErr {
        match *self {
            MempoolError::AlreadyExists(s) => MempoolErr::AlreadyExists(s@),
            MempoolError::Conflict { new_txid, existing_txid, outpoint } => MempoolErr::Conflict {
                new_txid: new_txid@,
                existing_txid: existing_txid@,
                outpoint: outpoint@,
            },
            MempoolError::PoolFull => MempoolErr::PoolFull,
            MempoolError::FeeTooLow { fee, minimum } => MempoolErr::FeeTooLow { fee, minimum },
            MempoolError::Internal(s) => MempoolErr::Internal(s@),
        }
    }
}

/// The message of a mempool error.
pub open spec fn mempool_error_message(e: MempoolError) -> Seq<char> {
    match e {
        MempoolError::AlreadyExists(s) => "transaction already in pool: "@ + s@,
        MempoolError::Conflict { new_txid, existing_txid, outpoint } => "conflicts with pool tx "@
            + existing_txid@ + " on outpoint "@ + outpoint@,
        MempoolError::PoolFull => "pool full"@,
        MempoolError::FeeTooLow { fee, minimum } => "fee too low: "@ + decimal_chars(fee as nat)
            + " < minimum "@ + decimal_chars(minimum as nat),
        MempoolError::Internal(s) => "internal: "@ + s@,
    }
}

impl MempoolError {
    /// The human-readable message.
    pub fn message(&self) -> (r: String)
        ensures
            r@ == mempool_error_message(*self),
    {
        let mut s = String::new();
        match self {
            MempoolError::AlreadyExists(t) => {
                push_str(&mut s, "transaction already in pool: ");
                push_str(&mut s, t.as_str());
            },
            MempoolError::Conflict { new_txid, existing_txid, outpoint } => {
                push_str(&mut s, "conflicts with pool tx ");
                push_str(&mut s, existing_txid.as_str());
                push_str(&mut s, " on outpoint ");
                push_str(&mut s, outpoint.as_str());
            },
            MempoolError::PoolFull => push_str(&mut s, "pool full"),
            MempoolError::FeeTooLow { fee, minimum } => {
                push_str(&mut s, "fee too low: ");
                push_u64(&mut s, *fee);
                push_str(&mut s, " < minimum ");
                push_u64(&mut s, *minimum);
            },
            MempoolError::Internal(t) => {
                push_str(&mut s, "internal: ");
                push_str(&mut s, t.as_str());
            },
        }
        assert(s@ =~= mempool_error_message(*self));
        s
    }
}

/// Errors from the chain state store.
#[derive(Debug, Clone, PartialEq, Eq)]
pub enum ChainStateError {
    EmptyChain,
    BlockNotFound(String),
    UndoDataMissing(String),
    HeightMismatch { expected: u64, got: u64 },
    DuplicateBlock(String),
    MissingUtxo(String),
}

/// A chain state error as a mathematical value.
pub ghost enum ChainErr {
    EmptyChain,
    BlockNotFound(Seq<char>),
    UndoDataMissing(Seq<char>),
    HeightMismatch { expected: u64, got: u64 },
    DuplicateBlock(Seq<char>),
    MissingUtxo(Seq<char>),
}

impl View for ChainStateError {
    type V = ChainErr;

    open spec fn view(&self) -> ChainErr {
        match *self {
            ChainStateError::EmptyChain => ChainErr::EmptyChain,
            ChainStateError::BlockNotFound(s) => ChainErr::BlockNotFound(s@),
            ChainStateError::UndoDataMissing(s) => ChainErr::UndoDataMissing(s@),
            ChainStateError::HeightMismatch { expected, got } => ChainErr::HeightMismatch {
                expected,
                got,
            },
            ChainStateError::DuplicateBlock(s) => ChainErr::DuplicateBlock(s@),
            ChainStateError::MissingUtxo(s) => ChainErr::MissingUtxo(s@),
        }
    }
}

/// The message of a chain state error.
pub open spec fn chain_state_error_message(e: ChainStateError) -> Seq<char> {
    match e {
        ChainStateError::EmptyChain => "empty chain: no blocks connected"@,
        ChainStateError::BlockNotFound(s) => "block not found: "@ + s@,
        ChainStateError::UndoDataMissing(s) => "undo data missing for block: "@ + s@,
        ChainStateError::HeightMismatch { expected, got } => "height mismatch: expected "@
            + decimal_chars(expected as nat) + ", got "@ + decimal_chars(got as nat),
        ChainStateError::DuplicateBlock(s) => "duplicate block: "@ + s@,
        ChainStateError::MissingUtxo(s) => "missing UTXO: "@ + s@,
    }
}

impl ChainStateError {
    /// The human-readable message.
    pub fn message(&self) -> (r: String)
        ensures
            r@ == chain_state_error_message(*self),
    {
        let mut s = String::new();
        match self {
            ChainStateError::EmptyChain => push_str(&mut s, "empty chain: no blocks connected"),
            ChainStateError::BlockNotFound(t) => {
                push_str(&mut s, "block not found: ");
                push_str(&mut s, t.as_str());
            },
            ChainStateError::UndoDataMissing(t) => {
                push_str(&mut s, "undo data missing for block: ");
                push_str(&mut s, t.as_str());
            },
            ChainStateError::HeightMismatch { expected, got } => {
                push_str(&mut s, "height mismatch: expected ");
                push_u64(&mut s, *expected);
                push_str(&mut s, ", got ");
                push_u64(&mut s, *got);
            },
            ChainStateError::DuplicateBlock(t) => {
                push_str(&mut s, "duplicate block: ");
                push_str(&mut s, t.as_str());
            },
            ChainStateError::MissingUtxo(t) => {
                push_str(&mut s, "missing UTXO: ");
                push_str(&mut s, t.as_str());
            },
        }
        assert(s@ =~= chain_state_error_message(*self));
        s
    }
}

/// Any error of the protocol.
#[derive(Debug, Clone, PartialEq, Eq)]
pub enum RillError {
    Transaction(TransactionError),
    Block(BlockError),
    Decay(DecayError),
    Network(NetworkError),
    Crypto(CryptoError),
    Address(AddressError),
    Mempool(MempoolError),
    ChainState(ChainStateError),
    Storage(String),
}

} // verus!
