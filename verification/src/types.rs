//! Core protocol types: transactions, blocks, UTXOs, and their canonical
//! byte encoding.
//!
//! All monetary values are in rills (1 RILL = 10^8 rills). Transaction IDs
//! are the BLAKE3 digest of the canonical encoding (variable-length integers,
//! length-prefixed byte strings, raw 32-byte hashes); block header hashes are
//! the double SHA-256 of a fixed 96-byte little-endian layout.

use vstd::prelude::*;

use crate::constants::COINBASE_MATURITY;
use crate::error::TransactionError;
use crate::hashing::{blake3_digest, blake3_hash, sha256_digest, sha256_hash};

verus! {

/// A 32-byte hash value.
#[derive(Clone, Copy, Debug, Eq, Hash, PartialOrd, Ord, Default)]
pub struct Hash256(pub [u8; 32]);

impl View for Hash256 {
    type V = Seq<u8>;

    open spec fn view(&self) -> Seq<u8> {
        self.0@
    }
}

impl PartialEq for Hash256 {
    fn eq(&self, other: &Self) -> (r: bool) {
        let mut i: usize = 0;
        while i < 32
            invariant
                i <= 32,
                forall|j: int| 0 <= j < i ==> self.0@[j] == other.0@[j],
            decreases 32 - i,
        {
            if self.0[i] != other.0[i] {
                return false;
            }
            i = i + 1;
        }
        assert(self.0@ =~= other.0@);
        true
    }
}

impl vstd::std_specs::cmp::PartialEqSpecImpl for Hash256 {
    open spec fn obeys_eq_spec() -> bool {
        true
    }

    open spec fn eq_spec(&self, other: &Self) -> bool {
        self.0@ == other.0@
    }
}

impl From<[u8; 32]> for Hash256 {
    fn from(bytes: [u8; 32]) -> (r: Self) {
        Hash256(bytes)
    }
}

impl vstd::std_specs::convert::FromSpecImpl<[u8; 32]> for Hash256 {
    open spec fn obeys_from_spec() -> bool {
        true
    }

    open spec fn from_spec(v: [u8; 32]) -> Self {
        Hash256(v)
    }
}

impl AsRef<[u8]> for Hash256 {
    fn as_ref(&self) -> (r: &[u8])
        ensures
            r@ == self@,
    {
        self.0.as_slice()
    }
}

/// Two hashes with the same bytes are the same value.
pub proof fn lemma_hash_ext(a: Hash256, b: Hash256)
    requires
        a@ == b@,
    ensures
        a == b,
{
    assert(a.0 == b.0);
}

/// The all-zero byte string of length 32.
pub open spec fn zero_bytes() -> Seq<u8> {
    Seq::new(32, |i: int| 0u8)
}

impl Hash256 {
    /// The zero hash (32 zero bytes). Used for coinbase previous outpoints.
    pub fn zero() -> (r: Self)
        ensures
            r@ == zero_bytes(),
    {
        let r = Hash256([0u8; 32]);
        assert(r@ =~= zero_bytes());
        r
    }

    /// Create a Hash256 from a byte array.
    pub fn from_bytes(bytes: [u8; 32]) -> (r: Self)
        ensures
            r.0 == bytes,
    {
        Hash256(bytes)
    }

    /// Return the underlying bytes.
    pub fn as_bytes(&self) -> (r: &[u8; 32])
        ensures
            *r == self.0,
    {
        &self.0
    }

    /// Check if this is the zero hash.
    pub fn is_zero(&self) -> (r: bool)
        ensures
            r == (self@ == zero_bytes()),
    {
        let mut i: usize = 0;
        while i < 32
            invariant
                i <= 32,
                forall|j: int| 0 <= j < i ==> self.0@[j] == 0,
            decreases 32 - i,
        {
            if self.0[i] != 0 {
                assert(self@[i as int] != zero_bytes()[i as int]);
                return false;
            }
            i = i + 1;
        }
        assert(self@ =~= zero_bytes());
        true
    }

    /// Lower-case hexadecimal rendering (64 characters).
    pub fn to_hex(&self) -> (r: String)
        ensures
            r@ == hex_chars(self@),
    {
        let v = bytes_to_hex(self.0.as_slice());
        string_from_chars(v)
    }
}

/// The lower-case hex digit of a nibble.
pub open spec fn hex_digit(n: int) -> char {
    if 0 <= n < 10 {
        (('0' as int) + n) as char
    } else {
        (('a' as int) + n - 10) as char
    }
}

/// Lower-case hexadecimal rendering of bytes, two digits per byte.
pub open spec fn hex_chars(b: Seq<u8>) -> Seq<char>
    decreases b.len(),
{
    if b.len() == 0 {
        Seq::empty()
    } else {
        hex_chars(b.drop_last()) + seq![hex_digit((b.last() / 16) as int), hex_digit((b.last() % 16) as int)]
    }
}

fn nibble_char(n: u8) -> (c: char)
    requires
        n < 16,
    ensures
        c == hex_digit(n as int),
{
    if n < 10 {
        (('0' as u8) + n) as char
    } else {
        (('a' as u8) + n - 10) as char
    }
}

/// Hex digits of a byte string.
pub fn bytes_to_hex(b: &[u8]) -> (r: Vec<char>)
    ensures
        r@ == hex_chars(b@),
{
    let mut r: Vec<char> = Vec::new();
    let mut i: usize = 0;
    while i < b.len()
        invariant
            i <= b@.len(),
            r@ == hex_chars(b@.subrange(0, i as int)),
        decreases b@.len() - i,
    {
        assert(b@.subrange(0, i + 1).drop_last() =~= b@.subrange(0, i as int));
        r.push(nibble_char(b[i] / 16));
        r.push(nibble_char(b[i] % 16));
        i = i + 1;
    }
    assert(b@.subrange(0, b@.len() as int) =~= b@);
    r
}

/// Decimal digits of an unsigned integer (no leading zeros; "0" for zero).
pub open spec fn decimal_chars(v: nat) -> Seq<char>
    decreases v,
{
    if v < 10 {
        seq![hex_digit(v as int)]
    } else {
        decimal_chars(v / 10) + seq![hex_digit((v % 10) as int)]
    }
}

/// Decimal rendering of a `u64`.
pub fn u64_to_decimal(v: u64) -> (r: Vec<char>)
    ensures
        r@ == decimal_chars(v as nat),
    decreases v,
{
    if v < 10 {
        let mut r: Vec<char> = Vec::new();
        r.push(nibble_char(v as u8));
        r
    } else {
        let mut r = u64_to_decimal(v / 10);
        r.push(nibble_char((v % 10) as u8));
        r
    }
}

/// Calls `String::from_iter` on the characters; the contract claims the
/// string holds exactly those characters in order.
#[verifier::external_body]
pub fn string_from_chars(chars: Vec<char>) -> (r: String)
    ensures
        r@ == chars@,
{
    String::from_iter(chars)
}

/// Reference to a specific output of a previous transaction.
#[derive(Clone, Copy, Debug, Eq, Hash)]
pub struct OutPoint {
    /// Transaction ID containing the referenced output.
    pub txid: Hash256,
    /// Index of the output within the transaction.
    pub index: u64,
}

impl PartialEq for OutPoint {
    fn eq(&self, other: &Self) -> (r: bool) {
        self.index == other.index && self.txid == other.txid
    }
}

impl vstd::std_specs::cmp::PartialEqSpecImpl for OutPoint {
    open spec fn obeys_eq_spec() -> bool {
        true
    }

    open spec fn eq_spec(&self, other: &Self) -> bool {
        self.txid@ == other.txid@ && self.index == other.index
    }
}

/// The null outpoint: zero txid, maximal index.
pub open spec fn is_null_outpoint(op: OutPointModel) -> bool {
    op.txid == zero_bytes() && op.index == u64::MAX
}

impl OutPoint {
    /// The null outpoint, used for coinbase transaction inputs.
    pub fn null() -> (r: Self)
        ensures
            is_null_outpoint(r@),
    {
        OutPoint { txid: Hash256::zero(), index: u64::MAX }
    }

    /// Check if this is the null outpoint (coinbase marker).
    pub fn is_null(&self) -> (r: bool)
        ensures
            r == is_null_outpoint(self@),
    {
        self.index == u64::MAX && self.txid.is_zero()
    }

    /// `txid:index`, the txid in lower-case hex and the index in decimal.
    pub fn to_text(&self) -> (r: String)
        ensures
            r@ == hex_chars(self.txid@) + seq![':'] + decimal_chars(self.index as nat),
    {
        let mut v = bytes_to_hex(self.txid.0.as_slice());
        v.push(':');
        let d = u64_to_decimal(self.index);
        let mut i: usize = 0;
        let ghost base = v@;
        while i < d.len()
            invariant
                i <= d@.len(),
                v@ == base + d@.subrange(0, i as int),
            decreases d@.len() - i,
        {
            v.push(d[i]);
            i = i + 1;
            assert(v@ =~= base + d@.subrange(0, i as int));
        }
        assert(d@.subrange(0, d@.len() as int) =~= d@);
        string_from_chars(v)
    }
}

/// A transaction input, spending a previous output.
#[derive(Clone, Debug, PartialEq, Eq)]
pub struct TxInput {
    /// The outpoint being spent. Null outpoint for coinbase.
    pub previous_output: OutPoint,
    /// Ed25519 signature (64 bytes). Empty for coinbase inputs.
    pub signature: Vec<u8>,
    /// Ed25519 public key (32 bytes). Empty for coinbase inputs.
    pub public_key: Vec<u8>,
}

/// The mathematical value of an outpoint.
pub ghost struct OutPointModel {
    pub txid: Seq<u8>,
    pub index: u64,
}

impl View for OutPoint {
    type V = OutPointModel;

    open spec fn view(&self) -> OutPointModel {
        OutPointModel { txid: self.txid@, index: self.index }
    }
}

/// The mathematical value of an input.
pub ghost struct InputModel {
    pub previous_output: OutPointModel,
    pub signature: Seq<u8>,
    pub public_key: Seq<u8>,
}

impl View for TxInput {
    type V = InputModel;

    open spec fn view(&self) -> InputModel {
        InputModel {
            previous_output: self.previous_output@,
            signature: self.signature@,
            public_key: self.public_key@,
        }
    }
}

/// A transaction output, creating a new UTXO.
#[derive(Clone, Copy, Debug, PartialEq, Eq)]
pub struct TxOutput {
    /// Value in rills.
    pub value: u64,
    /// BLAKE3 hash of the recipient's Ed25519 public key.
    pub pubkey_hash: Hash256,
}

/// The mathematical value of an output.
pub ghost struct OutputModel {
    pub value: u64,
    pub pubkey_hash: Seq<u8>,
}

impl View for TxOutput {
    type V = OutputModel;

    open spec fn view(&self) -> OutputModel {
        OutputModel { value: self.value, pubkey_hash: self.pubkey_hash@ }
    }
}

/// A transaction transferring value between addresses.
#[derive(Clone, Debug, PartialEq, Eq)]
pub struct Transaction {
    /// Protocol version.
    pub version: u64,
    /// Inputs consuming previous outputs.
    pub inputs: Vec<TxInput>,
    /// New outputs created by this transaction.
    pub outputs: Vec<TxOutput>,
    /// Block height or timestamp before which this tx is invalid.
    pub lock_time: u64,
}

/// The mathematical value of a transaction.
pub ghost struct TxModel {
    pub version: u64,
    pub inputs: Seq<InputModel>,
    pub outputs: Seq<OutputModel>,
    pub lock_time: u64,
}

impl View for Transaction {
    type V = TxModel;

    open spec fn view(&self) -> TxModel {
        TxModel {
            version: self.version,
            inputs: self.inputs@.map_values(|i: TxInput| i@),
            outputs: self.outputs@.map_values(|o: TxOutput| o@),
            lock_time: self.lock_time,
        }
    }
}

/// Block header containing the proof-of-work puzzle.
#[derive(Clone, Copy, Debug, PartialEq, Eq)]
pub struct BlockHeader {
    /// Protocol version.
    pub version: u64,
    /// Hash of the previous block header.
    pub prev_hash: Hash256,
    /// BLAKE3 merkle root of the block's transactions.
    pub merkle_root: Hash256,
    /// Unix timestamp in seconds.
    pub timestamp: u64,
    /// Compact difficulty target.
    pub difficulty_target: u64,
    /// Proof-of-work nonce.
    pub nonce: u64,
}

/// A complete block: header plus transactions.
#[derive(Clone, Debug, PartialEq, Eq)]
pub struct Block {
    /// Block header with proof-of-work.
    pub header: BlockHeader,
    /// Ordered list of transactions. First transaction must be coinbase.
    pub transactions: Vec<Transaction>,
}

/// The mathematical value of a block.
pub ghost struct BlockModel {
    pub header: BlockHeader,
    pub transactions: Seq<TxModel>,
}

impl View for Block {
    type V = BlockModel;

    open spec fn view(&self) -> BlockModel {
        BlockModel {
            header: self.header,
            transactions: self.transactions@.map_values(|t: Transaction| t@),
        }
    }
}

/// An entry in the unspent transaction output set.
#[derive(Clone, Copy, Debug, PartialEq, Eq)]
pub struct UtxoEntry {
    /// The unspent output.
    pub output: TxOutput,
    /// Height of the block containing this UTXO.
    pub block_height: u64,
    /// Whether this output is from a coinbase transaction.
    pub is_coinbase: bool,
    /// Cluster ID for decay calculation tracking.
    pub cluster_id: Hash256,
}

/// The mathematical value of a UTXO entry.
pub ghost struct UtxoModel {
    pub output: OutputModel,
    pub block_height: u64,
    pub is_coinbase: bool,
    pub cluster_id: Seq<u8>,
}

impl View for UtxoEntry {
    type V = UtxoModel;

    open spec fn view(&self) -> UtxoModel {
        UtxoModel {
            output: self.output@,
            block_height: self.block_height,
            is_coinbase: self.is_coinbase,
            cluster_id: self.cluster_id@,
        }
    }
}

/// Whether a wallet takes part in conduct scoring.
#[derive(Clone, Copy, Debug, PartialEq, Eq, Hash, Structural)]
pub enum WalletType {
    /// An ordinary wallet.
    Standard,
    /// A registered agent wallet.
    Agent,
}

impl Default for WalletType {
    fn default() -> (r: Self)
        ensures
            r == WalletType::Standard,
    {
        WalletType::Standard
    }
}

// ---------------------------------------------------------------------------
// Canonical encoding
// ---------------------------------------------------------------------------

/// The `n` low-order bytes of `v`, least significant first.
pub open spec fn le_bytes(v: u64, n: nat) -> Seq<u8> {
    Seq::new(n, |i: int| (v >> ((8 * i) as u64)) as u8)
}

/// Variable-length integer: one byte up to 250, otherwise a marker byte
/// (251, 252, 253) followed by 2, 4 or 8 little-endian bytes.
pub open spec fn varint(v: u64) -> Seq<u8> {
    if v <= 250 {
        seq![v as u8]
    } else if v <= 0xFFFF {
        seq![251u8] + le_bytes(v, 2)
    } else if v <= 0xFFFF_FFFF {
        seq![252u8] + le_bytes(v, 4)
    } else {
        seq![253u8] + le_bytes(v, 8)
    }
}

/// A length-prefixed byte string.
pub open spec fn enc_bytes(b: Seq<u8>) -> Seq<u8> {
    varint(b.len() as u64) + b
}

/// Encoding of an outpoint: raw txid then the index.
pub open spec fn enc_outpoint(op: OutPointModel) -> Seq<u8> {
    op.txid + varint(op.index)
}

/// Encoding of an input.
pub open spec fn enc_input(i: InputModel) -> Seq<u8> {
    enc_outpoint(i.previous_output) + enc_bytes(i.signature) + enc_bytes(i.public_key)
}

/// Encoding of an output.
pub open spec fn enc_output(o: OutputModel) -> Seq<u8> {
    varint(o.value) + o.pubkey_hash
}

/// Concatenated encodings of inputs (no length prefix).
pub open spec fn enc_inputs(s: Seq<InputModel>) -> Seq<u8>
    decreases s.len(),
{
    if s.len() == 0 {
        Seq::empty()
    } else {
        enc_inputs(s.drop_last()) + enc_input(s.last())
    }
}

/// Concatenated encodings of outputs (no length prefix).
pub open spec fn enc_outputs(s: Seq<OutputModel>) -> Seq<u8>
    decreases s.len(),
{
    if s.len() == 0 {
        Seq::empty()
    } else {
        enc_outputs(s.drop_last()) + enc_output(s.last())
    }
}

/// Canonical encoding of a transaction.
pub open spec fn enc_tx(t: TxModel) -> Seq<u8> {
    varint(t.version) + varint(t.inputs.len() as u64) + enc_inputs(t.inputs) + varint(
        t.outputs.len() as u64,
    ) + enc_outputs(t.outputs) + varint(t.lock_time)
}

/// Canonical encoding of a header.
pub open spec fn enc_header(h: BlockHeader) -> Seq<u8> {
    varint(h.version) + h.prev_hash@ + h.merkle_root@ + varint(h.timestamp) + varint(
        h.difficulty_target,
    ) + varint(h.nonce)
}

/// Concatenated encodings of transactions (no length prefix).
pub open spec fn enc_txs(s: Seq<TxModel>) -> Seq<u8>
    decreases s.len(),
{
    if s.len() == 0 {
        Seq::empty()
    } else {
        enc_txs(s.drop_last()) + enc_tx(s.last())
    }
}

/// Canonical encoding of a block.
pub open spec fn enc_block(b: BlockModel) -> Seq<u8> {
    enc_header(b.header) + varint(b.transactions.len() as u64) + enc_txs(b.transactions)
}

/// The transaction ID: BLAKE3 of the canonical encoding.
pub open spec fn spec_txid(t: TxModel) -> Seq<u8> {
    blake3_digest(enc_tx(t))
}

/// The 96-byte header layout that is hashed for proof of work.
pub open spec fn header_layout(h: BlockHeader) -> Seq<u8> {
    le_bytes(h.version, 8) + h.prev_hash@ + h.merkle_root@ + le_bytes(h.timestamp, 8) + le_bytes(
        h.difficulty_target,
        8,
    ) + le_bytes(h.nonce, 8)
}

/// The header hash: double SHA-256 of the 96-byte layout.
pub open spec fn spec_header_hash(h: BlockHeader) -> Seq<u8> {
    sha256_digest(sha256_digest(header_layout(h)))
}

/// Append the `n` low-order bytes of `v`, least significant first.
pub fn write_le(out: &mut Vec<u8>, v: u64, n: usize)
    requires
        n <= 8,
    ensures
        final(out)@ == old(out)@ + le_bytes(v, n as nat),
{
    let mut i: usize = 0;
    while i < n
        invariant
            i <= n <= 8,
            out@ == old(out)@ + le_bytes(v, i as nat),
        decreases n - i,
    {
        let shift = (8 * i) as u64;
        out.push((v >> shift) as u8);
        i = i + 1;
        assert(out@ =~= old(out)@ + le_bytes(v, i as nat));
    }
}

/// Append the variable-length encoding of `v`.
pub fn write_varint(out: &mut Vec<u8>, v: u64)
    ensures
        final(out)@ == old(out)@ + varint(v),
{
    if v <= 250 {
        out.push(v as u8);
    } else if v <= 0xFFFF {
        out.push(251u8);
        write_le(out, v, 2);
    } else if v <= 0xFFFF_FFFF {
        out.push(252u8);
        write_le(out, v, 4);
    } else {
        out.push(253u8);
        write_le(out, v, 8);
    }
    assert(out@ =~= old(out)@ + varint(v));
}

/// Append raw bytes.
pub fn write_raw(out: &mut Vec<u8>, b: &[u8])
    ensures
        final(out)@ == old(out)@ + b@,
{
    let mut i: usize = 0;
    while i < b.len()
        invariant
            i <= b@.len(),
            out@ == old(out)@ + b@.subrange(0, i as int),
        decreases b@.len() - i,
    {
        out.push(b[i]);
        i = i + 1;
        assert(out@ =~= old(out)@ + b@.subrange(0, i as int));
    }
    assert(b@.subrange(0, b@.len() as int) =~= b@);
}

/// Append a length-prefixed byte string.
pub fn write_bytes(out: &mut Vec<u8>, b: &[u8])
    ensures
        final(out)@ == old(out)@ + enc_bytes(b@),
{
    write_varint(out, b.len() as u64);
    write_raw(out, b);
    assert(out@ =~= old(out)@ + enc_bytes(b@));
}

/// Append the encoding of a transaction.
pub fn write_tx(out: &mut Vec<u8>, tx: &Transaction)
    ensures
        final(out)@ == old(out)@ + enc_tx(tx@),
{
    write_varint(out, tx.version);
    write_varint(out, tx.inputs.len() as u64);
    let ghost after_len = out@;
    let mut i: usize = 0;
    while i < tx.inputs.len()
        invariant
            i <= tx.inputs@.len(),
            out@ == after_len + enc_inputs(tx@.inputs.subrange(0, i as int)),
        decreases tx.inputs@.len() - i,
    {
        let input = &tx.inputs[i];
        write_raw(out, input.previous_output.txid.0.as_slice());
        write_varint(out, input.previous_output.index);
        write_bytes(out, input.signature.as_slice());
        write_bytes(out, input.public_key.as_slice());
        proof {
            let s = tx@.inputs.subrange(0, i + 1);
            assert(s.drop_last() =~= tx@.inputs.subrange(0, i as int));
            assert(s.last() == tx.inputs@[i as int]@);
        }
        i = i + 1;
        assert(out@ =~= after_len + enc_inputs(tx@.inputs.subrange(0, i as int)));
    }
    assert(tx@.inputs.subrange(0, tx.inputs@.len() as int) =~= tx@.inputs);
    let ghost after_inputs = out@;
    write_varint(out, tx.outputs.len() as u64);
    let ghost after_len2 = out@;
    let mut j: usize = 0;
    while j < tx.outputs.len()
        invariant
            j <= tx.outputs@.len(),
            out@ == after_len2 + enc_outputs(tx@.outputs.subrange(0, j as int)),
        decreases tx.outputs@.len() - j,
    {
        write_varint(out, tx.outputs[j].value);
        write_raw(out, tx.outputs[j].pubkey_hash.0.as_slice());
        proof {
            let s = tx@.outputs.subrange(0, j + 1);
            assert(s.drop_last() =~= tx@.outputs.subrange(0, j as int));
        }
        j = j + 1;
        assert(out@ =~= after_len2 + enc_outputs(tx@.outputs.subrange(0, j as int)));
    }
    assert(tx@.outputs.subrange(0, tx.outputs@.len() as int) =~= tx@.outputs);
    write_varint(out, tx.lock_time);
    assert(out@ =~= old(out)@ + enc_tx(tx@));
}

/// The canonical encoding of a transaction.
pub fn encode_transaction(tx: &Transaction) -> (r: Vec<u8>)
    ensures
        r@ == enc_tx(tx@),
{
    let mut out: Vec<u8> = Vec::new();
    write_tx(&mut out, tx);
    assert(out@ =~= enc_tx(tx@));
    out
}

/// The canonical encoding of a block.
pub fn encode_block(block: &Block) -> (r: Vec<u8>)
    ensures
        r@ == enc_block(block@),
{
    let mut out: Vec<u8> = Vec::new();
    let h = &block.header;
    write_varint(&mut out, h.version);
    write_raw(&mut out, h.prev_hash.0.as_slice());
    write_raw(&mut out, h.merkle_root.0.as_slice());
    write_varint(&mut out, h.timestamp);
    write_varint(&mut out, h.difficulty_target);
    write_varint(&mut out, h.nonce);
    write_varint(&mut out, block.transactions.len() as u64);
    let ghost base = out@;
    let mut i: usize = 0;
    while i < block.transactions.len()
        invariant
            i <= block.transactions@.len(),
            out@ == base + enc_txs(block@.transactions.subrange(0, i as int)),
        decreases block.transactions@.len() - i,
    {
        write_tx(&mut out, &block.transactions[i]);
        proof {
            let s = block@.transactions.subrange(0, i + 1);
            assert(s.drop_last() =~= block@.transactions.subrange(0, i as int));
        }
        i = i + 1;
        assert(out@ =~= base + enc_txs(block@.transactions.subrange(0, i as int)));
    }
    assert(block@.transactions.subrange(0, block.transactions@.len() as int)
        =~= block@.transactions);
    assert(out@ =~= enc_block(block@));
    out
}

/// Sum of output values.
pub open spec fn outputs_sum(s: Seq<OutputModel>) -> nat
    decreases s.len(),
{
    if s.len() == 0 {
        0
    } else {
        outputs_sum(s.drop_last()) + s.last().value as nat
    }
}

/// A transaction is a coinbase when it has exactly one input, and that
/// input spends the null outpoint.
pub open spec fn spec_is_coinbase(t: TxModel) -> bool {
    t.inputs.len() == 1 && is_null_outpoint(t.inputs[0].previous_output)
}

impl Transaction {
    /// Compute the transaction ID (BLAKE3 of the canonical encoding).
    /// The encoding cannot fail, so this always returns `Ok`.
    pub fn txid(&self) -> (r: Result<Hash256, TransactionError>)
        ensures
            r matches Ok(h) && h@ == spec_txid(self@),
    {
        let encoded = encode_transaction(self);
        Ok(Hash256(blake3_hash(encoded.as_slice())))
    }

    /// Check if this is a coinbase transaction (single input with null outpoint).
    pub fn is_coinbase(&self) -> (r: bool)
        ensures
            r == spec_is_coinbase(self@),
    {
        self.inputs.len() == 1 && self.inputs[0].previous_output.is_null()
    }

    /// Sum of all output values. Returns `None` on overflow.
    pub fn total_output_value(&self) -> (r: Option<u64>)
        ensures
            outputs_sum(self@.outputs) <= u64::MAX ==> r == Some(outputs_sum(self@.outputs) as u64),
            outputs_sum(self@.outputs) > u64::MAX ==> r is None,
    {
        let mut acc: u64 = 0;
        let mut i: usize = 0;
        while i < self.outputs.len()
            invariant
                i <= self.outputs@.len(),
                acc == outputs_sum(self@.outputs.subrange(0, i as int)),
            decreases self.outputs@.len() - i,
        {
            proof {
                let s = self@.outputs.subrange(0, i + 1);
                assert(s.drop_last() =~= self@.outputs.subrange(0, i as int));
            }
            match acc.checked_add(self.outputs[i].value) {
                Some(v) => {
                    acc = v;
                },
                None => {
                    proof {
                        lemma_outputs_sum_prefix(self@.outputs, i + 1);
                    }
                    return None;
                },
            }
            i = i + 1;
        }
        assert(self@.outputs.subrange(0, self.outputs@.len() as int) =~= self@.outputs);
        Some(acc)
    }
}

/// A prefix never sums to more than the whole sequence.
pub proof fn lemma_outputs_sum_prefix(s: Seq<OutputModel>, n: int)
    requires
        0 <= n <= s.len(),
    ensures
        outputs_sum(s.subrange(0, n)) <= outputs_sum(s),
    decreases s.len(),
{
    if n < s.len() {
        lemma_outputs_sum_prefix(s.drop_last(), n);
        assert(s.drop_last().subrange(0, n) =~= s.subrange(0, n));
    } else {
        assert(s.subrange(0, n) =~= s);
    }
}

impl BlockHeader {
    /// The fixed 96-byte layout that is hashed: version, prev_hash,
    /// merkle_root, timestamp, difficulty_target, nonce, integers little-endian.
    pub fn header_bytes(&self) -> (r: Vec<u8>)
        ensures
            r@ == header_layout(*self),
            r@.len() == 96,
    {
        let mut data: Vec<u8> = Vec::new();
        write_le(&mut data, self.version, 8);
        write_raw(&mut data, self.prev_hash.0.as_slice());
        write_raw(&mut data, self.merkle_root.0.as_slice());
        write_le(&mut data, self.timestamp, 8);
        write_le(&mut data, self.difficulty_target, 8);
        write_le(&mut data, self.nonce, 8);
        assert(data@ =~= header_layout(*self));
        data
    }

    /// Compute the block header hash (double SHA-256 of the 96-byte layout).
    pub fn hash(&self) -> (r: Hash256)
        ensures
            r@ == spec_header_hash(*self),
    {
        let data = self.header_bytes();
        let first = sha256_hash(data.as_slice());
        Hash256(sha256_hash(first.as_slice()))
    }
}

impl Block {
    /// Get the coinbase transaction, if the block is non-empty.
    pub fn coinbase(&self) -> (r: Option<&Transaction>)
        ensures
            self.transactions@.len() == 0 ==> r is None,
            self.transactions@.len() > 0 ==> r == Some(&self.transactions@[0]),
    {
        if self.transactions.len() == 0 {
            None
        } else {
            Some(&self.transactions[0])
        }
    }
}

/// A UTXO is spendable once it is not a coinbase output, or once the
/// current height is at least `COINBASE_MATURITY` above its own.
pub open spec fn spec_is_mature(e: UtxoEntry, current_height: u64) -> bool {
    !e.is_coinbase || current_height >= e.block_height + COINBASE_MATURITY
}

impl UtxoEntry {
    /// Check if this UTXO has matured and can be spent.
    pub fn is_mature(&self, current_height: u64) -> (r: bool)
        ensures
            r == spec_is_mature(*self, current_height),
    {
        if !self.is_coinbase {
            return true;
        }
        current_height.saturating_sub(self.block_height) >= COINBASE_MATURITY
    }
}

} // verus!
