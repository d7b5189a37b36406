//! Chain state storage interface and in-memory implementation.
//!
//! [`ChainStore`] manages the UTXO set, block storage and the chain tip.
//! [`MemoryChainStore`] keeps everything in memory. Blocks handed to
//! `connect_block` must already be validated: the store only checks height
//! consistency and duplicate blocks.
//!
//! The store is modelled by [`ChainModel`]: finite maps from outpoints to
//! UTXOs, block hashes to blocks, heights to block hashes and block hashes to
//! undo records, plus the tip. `spec_connect` and `spec_disconnect` say what
//! the two mutating operations do to that model.

use vstd::prelude::*;

use crate::error::{ChainErr, ChainStateError, RillError};
use crate::keyed::{
    distinct_keys, lemma_pairs_map_dom, lemma_pairs_map_index,
    lemma_pairs_map_len, lemma_pairs_map_push, lemma_pairs_map_remove, lemma_pairs_map_update,
    lemma_pairs_map_value, pairs_map,
};
use crate::types::{
    hex_chars, spec_header_hash, spec_is_coinbase, spec_txid, zero_bytes, Block, BlockHeader,
    BlockModel, Hash256, InputModel, OutPoint, OutPointModel, Transaction, TxModel, UtxoEntry,
    UtxoModel,
};
use crate::validation::outpoint_text;

verus! {

/// Result of connecting a block to the chain state.
#[derive(Clone, Debug, PartialEq, Eq, Structural)]
pub struct ConnectBlockResult {
    /// Number of new UTXOs created by this block's transactions.
    pub utxos_created: usize,
    /// Number of UTXOs spent by this block's non-coinbase inputs.
    pub utxos_spent: usize,
}

/// Result of disconnecting the tip block from the chain state.
#[derive(Clone, Debug, PartialEq, Eq, Structural)]
pub struct DisconnectBlockResult {
    /// Number of UTXOs restored (previously spent, now unspent again).
    pub utxos_restored: usize,
    /// Number of UTXOs removed (created by the disconnected block).
    pub utxos_removed: usize,
}

/// The abstract state of a chain store.
pub ghost struct ChainModel {
    /// The UTXO set.
    pub utxos: Map<OutPointModel, UtxoModel>,
    /// Stored blocks by header hash.
    pub blocks: Map<Seq<u8>, BlockModel>,
    /// Block hash of each connected height.
    pub heights: Map<u64, Seq<u8>>,
    /// Spent UTXOs of each connected block, in spending order.
    pub undo: Map<Seq<u8>, Seq<(OutPointModel, UtxoModel)>>,
    /// Height of the tip.
    pub tip_height: u64,
    /// Hash of the tip; all zero when no block is connected.
    pub tip_hash: Seq<u8>,
}

/// Undo records only exist for stored blocks.
pub open spec fn model_wf(s: ChainModel) -> bool {
    s.undo.dom().subset_of(s.blocks.dom())
}

/// The state of applying a block's transactions to a UTXO set: the set so
/// far, the UTXOs spent so far, and the outpoint that was missing, if any.
pub ghost struct Progress {
    pub utxos: Map<OutPointModel, UtxoModel>,
    pub undo: Seq<(OutPointModel, UtxoModel)>,
    pub missing: Option<OutPointModel>,
}

/// Nothing applied yet.
pub open spec fn start(m: Map<OutPointModel, UtxoModel>) -> Progress {
    Progress { utxos: m, undo: Seq::empty(), missing: None }
}

/// Spend the given inputs in order; the first whose outpoint is absent stops
/// the spending and is recorded as missing.
pub open spec fn spend_inputs(p: Progress, ins: Seq<InputModel>) -> Progress
    decreases ins.len(),
{
    if ins.len() == 0 {
        p
    } else {
        let q = spend_inputs(p, ins.drop_last());
        let op = ins.last().previous_output;
        if q.missing is Some {
            q
        } else if q.utxos.contains_key(op) {
            Progress {
                utxos: q.utxos.remove(op),
                undo: q.undo.push((op, q.utxos[op])),
                missing: None,
            }
        } else {
            Progress { utxos: q.utxos, undo: q.undo, missing: Some(op) }
        }
    }
}

/// The UTXO created by output `j` of a transaction confirmed at `height`.
pub open spec fn created_utxo(tx: TxModel, j: int, height: u64) -> UtxoModel {
    UtxoModel {
        output: tx.outputs[j],
        block_height: height,
        is_coinbase: spec_is_coinbase(tx),
        cluster_id: zero_bytes(),
    }
}

/// The outpoint of output `j` of a transaction.
pub open spec fn output_point(tx: TxModel, j: int) -> OutPointModel {
    OutPointModel { txid: spec_txid(tx), index: j as u64 }
}

/// Add the first `n` outputs of a transaction to a UTXO set.
pub open spec fn with_outputs(m: Map<OutPointModel, UtxoModel>, tx: TxModel, n: nat, height: u64) -> Map<
    OutPointModel,
    UtxoModel,
>
    decreases n,
{
    if n == 0 {
        m
    } else {
        with_outputs(m, tx, (n - 1) as nat, height).insert(
            output_point(tx, n - 1),
            created_utxo(tx, n - 1, height),
        )
    }
}

/// Apply one transaction: spend its inputs unless it is a coinbase, then
/// create its outputs.
pub open spec fn apply_tx(p: Progress, tx: TxModel, height: u64) -> Progress {
    let q = if spec_is_coinbase(tx) {
        p
    } else {
        spend_inputs(p, tx.inputs)
    };
    if q.missing is Some {
        q
    } else {
        Progress {
            utxos: with_outputs(q.utxos, tx, tx.outputs.len(), height),
            undo: q.undo,
            missing: None,
        }
    }
}

/// Apply transactions in order, stopping at the first missing outpoint.
pub open spec fn apply_txs(p: Progress, txs: Seq<TxModel>, height: u64) -> Progress
    decreases txs.len(),
{
    if txs.len() == 0 {
        p
    } else {
        let q = apply_txs(p, txs.drop_last(), height);
        if q.missing is Some {
            q
        } else {
            apply_tx(q, txs.last(), height)
        }
    }
}

/// Total number of outputs of the transactions.
pub open spec fn output_count(txs: Seq<TxModel>) -> nat
    decreases txs.len(),
{
    if txs.len() == 0 {
        0
    } else {
        output_count(txs.drop_last()) + txs.last().outputs.len()
    }
}

/// The outpoints of all outputs of the transactions.
pub open spec fn created_outpoints(txs: Seq<TxModel>) -> Set<OutPointModel> {
    Set::new(
        |op: OutPointModel|
            exists|k: int|
                0 <= k < txs.len() && op.txid == spec_txid(#[trigger] txs[k]) && op.index
                    < txs[k].outputs.len(),
    )
}

/// The height that `connect_block` expects next (wrapping past `u64::MAX`).
pub open spec fn expected_height(s: ChainModel) -> u64 {
    if s.tip_hash == zero_bytes() || s.tip_height == u64::MAX {
        0
    } else {
        (s.tip_height + 1) as u64
    }
}

/// What connecting `b` at `height` does: the new state, and either the
/// numbers of created and spent UTXOs or the error. A missing UTXO leaves the
/// UTXO changes made before it in place and stores nothing else.
pub open spec fn spec_connect(s: ChainModel, b: BlockModel, height: u64) -> (ChainModel, Result<
    (nat, nat),
    ChainErr,
>) {
    let h = spec_header_hash(b.header);
    if height != expected_height(s) {
        (s, Err(ChainErr::HeightMismatch { expected: expected_height(s), got: height }))
    } else if s.blocks.contains_key(h) {
        (s, Err(ChainErr::DuplicateBlock(hex_chars(h))))
    } else {
        let p = apply_txs(start(s.utxos), b.transactions, height);
        if p.missing is Some {
            (
                ChainModel { utxos: p.utxos, ..s },
                Err(ChainErr::MissingUtxo(outpoint_text(p.missing.unwrap()))),
            )
        } else {
            (
                ChainModel {
                    utxos: p.utxos,
                    blocks: s.blocks.insert(h, b),
                    heights: s.heights.insert(height, h),
                    undo: s.undo.insert(h, p.undo),
                    tip_height: height,
                    tip_hash: h,
                },
                Ok((output_count(b.transactions), p.undo.len())),
            )
        }
    }
}

/// What disconnecting the tip does: the new state, and either the numbers
/// of restored and removed UTXOs or the error. The block stays stored.
pub open spec fn spec_disconnect(s: ChainModel) -> (ChainModel, Result<(nat, nat), ChainErr>) {
    let t = s.tip_hash;
    if t == zero_bytes() {
        (s, Err(ChainErr::EmptyChain))
    } else if !s.blocks.contains_key(t) {
        (s, Err(ChainErr::BlockNotFound(hex_chars(t))))
    } else if !s.undo.contains_key(t) {
        (s, Err(ChainErr::UndoDataMissing(hex_chars(t))))
    } else {
        let b = s.blocks[t];
        let u = s.undo[t];
        let created = created_outpoints(b.transactions);
        (
            ChainModel {
                utxos: s.utxos.remove_keys(created).union_prefer_right(pairs_map(u)),
                blocks: s.blocks,
                heights: s.heights.remove(s.tip_height),
                undo: s.undo.remove(t),
                tip_height: if s.tip_height == 0 {
                    0
                } else {
                    (s.tip_height - 1) as u64
                },
                tip_hash: if s.tip_height == 0 {
                    zero_bytes()
                } else {
                    b.header.prev_hash@
                },
            },
            Ok((u.len(), s.utxos.dom().intersect(created).len())),
        )
    }
}

/// The outcome of a connect as a mathematical value.
pub open spec fn connect_outcome(r: Result<ConnectBlockResult, RillError>) -> Result<(nat, nat), ChainErr> {
    match r {
        Ok(c) => Ok((c.utxos_created as nat, c.utxos_spent as nat)),
        Err(RillError::ChainState(e)) => Err(e@),
        Err(_) => Err(ChainErr::EmptyChain),
    }
}

/// The outcome of a disconnect as a mathematical value.
pub open spec fn disconnect_outcome(r: Result<DisconnectBlockResult, RillError>) -> Result<
    (nat, nat),
    ChainErr,
> {
    match r {
        Ok(c) => Ok((c.utxos_restored as nat, c.utxos_removed as nat)),
        Err(RillError::ChainState(e)) => Err(e@),
        Err(_) => Err(ChainErr::EmptyChain),
    }
}

/// Whether an error is a chain state error.
pub open spec fn is_chain_error<T>(r: Result<T, RillError>) -> bool {
    r matches Err(e) ==> e is ChainState
}


/// The UTXO pairs of a store as mathematical values.
pub open spec fn utxo_pairs(s: Seq<(OutPoint, UtxoEntry)>) -> Seq<(OutPointModel, UtxoModel)> {
    s.map_values(|p: (OutPoint, UtxoEntry)| (p.0@, p.1@))
}

/// The block pairs of a store as mathematical values.
pub open spec fn block_pairs(s: Seq<(Hash256, Block)>) -> Seq<(Seq<u8>, BlockModel)> {
    s.map_values(|p: (Hash256, Block)| (p.0@, p.1@))
}

/// The height pairs of a store as mathematical values.
pub open spec fn height_pairs(s: Seq<(u64, Hash256)>) -> Seq<(u64, Seq<u8>)> {
    s.map_values(|p: (u64, Hash256)| (p.0, p.1@))
}

/// The undo pairs of a store as mathematical values.
pub open spec fn undo_pairs(s: Seq<(Hash256, Vec<(OutPoint, UtxoEntry)>)>) -> Seq<
    (Seq<u8>, Seq<(OutPointModel, UtxoModel)>),
> {
    s.map_values(|p: (Hash256, Vec<(OutPoint, UtxoEntry)>)| (p.0@, utxo_pairs(p.1@)))
}

/// In-memory chain state storage.
///
/// Each map is a vector of key-value pairs with distinct keys. There is no
/// persistence; blocks are kept after they are disconnected.
pub struct MemoryChainStore {
    utxos: Vec<(OutPoint, UtxoEntry)>,
    blocks: Vec<(Hash256, Block)>,
    heights: Vec<(u64, Hash256)>,
    undo: Vec<(Hash256, Vec<(OutPoint, UtxoEntry)>)>,
    tip_height: u64,
    tip_hash: Hash256,
}

impl View for MemoryChainStore {
    type V = ChainModel;

    closed spec fn view(&self) -> ChainModel {
        ChainModel {
            utxos: pairs_map(utxo_pairs(self.utxos@)),
            blocks: pairs_map(block_pairs(self.blocks@)),
            heights: pairs_map(height_pairs(self.heights@)),
            undo: pairs_map(undo_pairs(self.undo@)),
            tip_height: self.tip_height,
            tip_hash: self.tip_hash@,
        }
    }
}

impl MemoryChainStore {
    /// Keys are distinct in every map, and undo records belong to stored
    /// blocks.
    #[verifier::type_invariant]
    closed spec fn wf(&self) -> bool {
        &&& distinct_keys(utxo_pairs(self.utxos@))
        &&& distinct_keys(block_pairs(self.blocks@))
        &&& distinct_keys(height_pairs(self.heights@))
        &&& distinct_keys(undo_pairs(self.undo@))
        &&& model_wf(self@)
    }
}

/// Index of the pair with key `k`, if any.
fn find_outpoint(v: &Vec<(OutPoint, UtxoEntry)>, k: &OutPoint) -> (r: Option<usize>)
    ensures
        match r {
            Some(i) => i < v@.len() && v@[i as int].0@ == k@,
            None => forall|i: int| 0 <= i < v@.len() ==> v@[i].0@ != k@,
        },
{
    let mut i: usize = 0;
    while i < v.len()
        invariant
            i <= v@.len(),
            forall|j: int| 0 <= j < i ==> v@[j].0@ != k@,
        decreases v@.len() - i,
    {
        if v[i].0 == *k {
            return Some(i);
        }
        i = i + 1;
    }
    None
}

/// Index of the pair with hash key `k`, if any.
fn find_hash<T>(v: &Vec<(Hash256, T)>, k: &Hash256) -> (r: Option<usize>)
    ensures
        match r {
            Some(i) => i < v@.len() && v@[i as int].0@ == k@,
            None => forall|i: int| 0 <= i < v@.len() ==> v@[i].0@ != k@,
        },
{
    let mut i: usize = 0;
    while i < v.len()
        invariant
            i <= v@.len(),
            forall|j: int| 0 <= j < i ==> v@[j].0@ != k@,
        decreases v@.len() - i,
    {
        if v[i].0 == *k {
            return Some(i);
        }
        i = i + 1;
    }
    None
}

/// Index of the pair with height key `k`, if any.
fn find_height(v: &Vec<(u64, Hash256)>, k: u64) -> (r: Option<usize>)
    ensures
        match r {
            Some(i) => i < v@.len() && v@[i as int].0 == k,
            None => forall|i: int| 0 <= i < v@.len() ==> v@[i].0 != k,
        },
{
    let mut i: usize = 0;
    while i < v.len()
        invariant
            i <= v@.len(),
            forall|j: int| 0 <= j < i ==> v@[j].0 != k,
        decreases v@.len() - i,
    {
        if v[i].0 == k {
            return Some(i);
        }
        i = i + 1;
    }
    None
}


/// Remove the UTXO of `k` from a pair vector, returning its entry.
fn utxo_remove(v: &mut Vec<(OutPoint, UtxoEntry)>, k: &OutPoint) -> (r: Option<UtxoEntry>)
    requires
        distinct_keys(utxo_pairs(old(v)@)),
    ensures
        distinct_keys(utxo_pairs(final(v)@)),
        pairs_map(utxo_pairs(final(v)@)) == pairs_map(utxo_pairs(old(v)@)).remove(k@),
        match r {
            Some(e) => pairs_map(utxo_pairs(old(v)@)).contains_key(k@) && e@ == pairs_map(
                utxo_pairs(old(v)@),
            )[k@],
            None => !pairs_map(utxo_pairs(old(v)@)).contains_key(k@),
        },
{
    let ghost s = utxo_pairs(v@);
    match find_outpoint(v, k) {
        Some(i) => {
            let (_, e) = v.remove(i);
            proof {
                lemma_pairs_map_index(s, i as int);
                lemma_pairs_map_remove(s, i as int);
                assert(utxo_pairs(v@) =~= s.remove(i as int));
            }
            Some(e)
        },
        None => {
            proof {
                lemma_pairs_map_dom(s, k@);
                assert forall|i: int| 0 <= i < s.len() implies s[i].0 != k@ by {
                    assert(s[i].0 == v@[i].0@);
                }
                assert(pairs_map(s).remove(k@) =~= pairs_map(s));
            }
            None
        },
    }
}

/// Insert or replace the UTXO of `k` in a pair vector.
fn utxo_insert(v: &mut Vec<(OutPoint, UtxoEntry)>, k: OutPoint, e: UtxoEntry)
    requires
        distinct_keys(utxo_pairs(old(v)@)),
    ensures
        distinct_keys(utxo_pairs(final(v)@)),
        pairs_map(utxo_pairs(final(v)@)) == pairs_map(utxo_pairs(old(v)@)).insert(k@, e@),
{
    let ghost s = utxo_pairs(v@);
    match find_outpoint(v, &k) {
        Some(i) => {
            v.set(i, (k, e));
            proof {
                lemma_pairs_map_update(s, i as int, e@);
                assert(utxo_pairs(v@) =~= s.update(i as int, (s[i as int].0, e@)));
            }
        },
        None => {
            v.push((k, e));
            proof {
                assert forall|i: int| 0 <= i < s.len() implies (#[trigger] s[i]).0 != k@ by {
                    assert(s[i].0 == old(v)@[i].0@);
                }
                lemma_pairs_map_push(s, k@, e@);
                assert(utxo_pairs(v@) =~= s.push((k@, e@)));
            }
        },
    }
}

/// Insert or replace the block hash of height `k`.
fn height_insert(v: &mut Vec<(u64, Hash256)>, k: u64, h: Hash256)
    requires
        distinct_keys(height_pairs(old(v)@)),
    ensures
        distinct_keys(height_pairs(final(v)@)),
        pairs_map(height_pairs(final(v)@)) == pairs_map(height_pairs(old(v)@)).insert(k, h@),
{
    let ghost s = height_pairs(v@);
    match find_height(v, k) {
        Some(i) => {
            v.set(i, (k, h));
            proof {
                lemma_pairs_map_update(s, i as int, h@);
                assert(height_pairs(v@) =~= s.update(i as int, (s[i as int].0, h@)));
            }
        },
        None => {
            v.push((k, h));
            proof {
                assert forall|i: int| 0 <= i < s.len() implies (#[trigger] s[i]).0 != k by {
                    assert(s[i].0 == old(v)@[i].0);
                }
                lemma_pairs_map_push(s, k, h@);
                assert(height_pairs(v@) =~= s.push((k, h@)));
            }
        },
    }
}

/// Remove the block hash of height `k`.
fn height_remove(v: &mut Vec<(u64, Hash256)>, k: u64)
    requires
        distinct_keys(height_pairs(old(v)@)),
    ensures
        distinct_keys(height_pairs(final(v)@)),
        pairs_map(height_pairs(final(v)@)) == pairs_map(height_pairs(old(v)@)).remove(k),
{
    let ghost s = height_pairs(v@);
    match find_height(v, k) {
        Some(i) => {
            v.remove(i);
            proof {
                lemma_pairs_map_remove(s, i as int);
                assert(height_pairs(v@) =~= s.remove(i as int));
            }
        },
        None => {
            proof {
                lemma_pairs_map_dom(s, k);
                assert forall|i: int| 0 <= i < s.len() implies s[i].0 != k by {
                    assert(s[i].0 == v@[i].0);
                }
                assert(pairs_map(s).remove(k) =~= pairs_map(s));
            }
        },
    }
}

/// A copy of a byte vector.
fn copy_bytes(v: &Vec<u8>) -> (r: Vec<u8>)
    ensures
        r@ == v@,
{
    let mut r: Vec<u8> = Vec::new();
    let mut i: usize = 0;
    while i < v.len()
        invariant
            i <= v@.len(),
            r@ == v@.subrange(0, i as int),
        decreases v@.len() - i,
    {
        r.push(v[i]);
        i = i + 1;
        assert(r@ =~= v@.subrange(0, i as int));
    }
    assert(v@.subrange(0, v@.len() as int) =~= v@);
    r
}

/// A copy of a transaction.
pub fn copy_transaction(tx: &Transaction) -> (r: Transaction)
    ensures
        r@ == tx@,
{
    let mut inputs: Vec<crate::types::TxInput> = Vec::new();
    let mut i: usize = 0;
    while i < tx.inputs.len()
        invariant
            i <= tx.inputs@.len(),
            inputs@.len() == i,
            forall|j: int| 0 <= j < i ==> (#[trigger] inputs@[j])@ == tx.inputs@[j]@,
        decreases tx.inputs@.len() - i,
    {
        let input = &tx.inputs[i];
        inputs.push(
            crate::types::TxInput {
                previous_output: input.previous_output,
                signature: copy_bytes(&input.signature),
                public_key: copy_bytes(&input.public_key),
            },
        );
        i = i + 1;
    }
    let mut outputs: Vec<crate::types::TxOutput> = Vec::new();
    let mut i: usize = 0;
    while i < tx.outputs.len()
        invariant
            i <= tx.outputs@.len(),
            outputs@ == tx.outputs@.subrange(0, i as int),
        decreases tx.outputs@.len() - i,
    {
        outputs.push(tx.outputs[i]);
        i = i + 1;
        assert(outputs@ =~= tx.outputs@.subrange(0, i as int));
    }
    assert(tx.outputs@.subrange(0, tx.outputs@.len() as int) =~= tx.outputs@);
    let r = Transaction { version: tx.version, inputs, outputs, lock_time: tx.lock_time };
    assert(r@.inputs =~= tx@.inputs);
    assert(r@.outputs =~= tx@.outputs);
    r
}

/// A copy of a block.
pub fn copy_block(b: &Block) -> (r: Block)
    ensures
        r@ == b@,
{
    let mut txs: Vec<Transaction> = Vec::new();
    let mut i: usize = 0;
    while i < b.transactions.len()
        invariant
            i <= b.transactions@.len(),
            txs@.len() == i,
            forall|j: int| 0 <= j < i ==> (#[trigger] txs@[j])@ == b.transactions@[j]@,
        decreases b.transactions@.len() - i,
    {
        txs.push(copy_transaction(&b.transactions[i]));
        i = i + 1;
    }
    let r = Block { header: b.header, transactions: txs };
    assert(r@.transactions =~= b@.transactions);
    r
}


/// Once an input is missing, later inputs change nothing.
proof fn lemma_spend_stops(p: Progress, ins: Seq<InputModel>, k: int)
    requires
        0 <= k <= ins.len(),
        spend_inputs(p, ins.subrange(0, k)).missing is Some,
    ensures
        spend_inputs(p, ins) == spend_inputs(p, ins.subrange(0, k)),
    decreases ins.len(),
{
    if k < ins.len() {
        assert(ins.drop_last().subrange(0, k) =~= ins.subrange(0, k));
        lemma_spend_stops(p, ins.drop_last(), k);
    } else {
        assert(ins.subrange(0, k) =~= ins);
    }
}

/// Once a transaction hits a missing input, later transactions change nothing.
proof fn lemma_apply_stops(p: Progress, txs: Seq<TxModel>, k: int, height: u64)
    requires
        0 <= k <= txs.len(),
        apply_txs(p, txs.subrange(0, k), height).missing is Some,
    ensures
        apply_txs(p, txs, height) == apply_txs(p, txs.subrange(0, k), height),
    decreases txs.len(),
{
    if k < txs.len() {
        assert(txs.drop_last().subrange(0, k) =~= txs.subrange(0, k));
        lemma_apply_stops(p, txs.drop_last(), k, height);
    } else {
        assert(txs.subrange(0, k) =~= txs);
    }
}

/// A prefix has no more outputs than the whole.
proof fn lemma_output_count_prefix(txs: Seq<TxModel>, k: int)
    requires
        0 <= k <= txs.len(),
    ensures
        output_count(txs.subrange(0, k)) <= output_count(txs),
    decreases txs.len(),
{
    if k < txs.len() {
        assert(txs.drop_last().subrange(0, k) =~= txs.subrange(0, k));
        lemma_output_count_prefix(txs.drop_last(), k);
    } else {
        assert(txs.subrange(0, k) =~= txs);
    }
}

/// Spend the inputs of a transaction, recording each spent UTXO in `undo`.
fn spend_tx_inputs(
    utxos: &mut Vec<(OutPoint, UtxoEntry)>,
    undo: &mut Vec<(OutPoint, UtxoEntry)>,
    tx: &Transaction,
) -> (r: Result<(), ChainStateError>)
    requires
        distinct_keys(utxo_pairs(old(utxos)@)),
    ensures
        distinct_keys(utxo_pairs(final(utxos)@)),
        ({
            let q = spend_inputs(
                Progress {
                    utxos: pairs_map(utxo_pairs(old(utxos)@)),
                    undo: utxo_pairs(old(undo)@),
                    missing: None,
                },
                tx@.inputs,
            );
            &&& q.utxos == pairs_map(utxo_pairs(final(utxos)@))
            &&& q.undo == utxo_pairs(final(undo)@)
            &&& match r {
                Ok(_) => q.missing is None,
                Err(e) => q.missing is Some && e@ == ChainErr::MissingUtxo(
                    outpoint_text(q.missing.unwrap()),
                ),
            }
        }),
{
    let ghost p0 = Progress {
        utxos: pairs_map(utxo_pairs(utxos@)),
        undo: utxo_pairs(undo@),
        missing: None,
    };
    let mut i: usize = 0;
    while i < tx.inputs.len()
        invariant
            i <= tx.inputs@.len(),
            p0 == (Progress {
                utxos: pairs_map(utxo_pairs(old(utxos)@)),
                undo: utxo_pairs(old(undo)@),
                missing: None,
            }),
            distinct_keys(utxo_pairs(utxos@)),
            spend_inputs(p0, tx@.inputs.subrange(0, i as int)) == (Progress {
                utxos: pairs_map(utxo_pairs(utxos@)),
                undo: utxo_pairs(undo@),
                missing: None,
            }),
        decreases tx.inputs@.len() - i,
    {
        let op = tx.inputs[i].previous_output;
        proof {
            assert(tx@.inputs.subrange(0, i + 1).drop_last() =~= tx@.inputs.subrange(0, i as int));
            assert(tx@.inputs.subrange(0, i + 1).last().previous_output == op@);
        }
        let ghost before = utxo_pairs(undo@);
        match utxo_remove(utxos, &op) {
            Some(e) => {
                undo.push((op, e));
                proof {
                    assert(utxo_pairs(undo@) =~= before.push((op@, e@)));
                }
            },
            None => {
                proof {
                    lemma_spend_stops(p0, tx@.inputs, i + 1);
                }
                return Err(ChainStateError::MissingUtxo(op.to_text()));
            },
        }
        i = i + 1;
    }
    proof {
        assert(tx@.inputs.subrange(0, tx@.inputs.len() as int) =~= tx@.inputs);
    }
    Ok(())
}

/// Create the UTXOs of a transaction's outputs at `height`.
fn create_tx_outputs(utxos: &mut Vec<(OutPoint, UtxoEntry)>, tx: &Transaction, height: u64)
    requires
        distinct_keys(utxo_pairs(old(utxos)@)),
    ensures
        distinct_keys(utxo_pairs(final(utxos)@)),
        pairs_map(utxo_pairs(final(utxos)@)) == with_outputs(
            pairs_map(utxo_pairs(old(utxos)@)),
            tx@,
            tx@.outputs.len(),
            height,
        ),
{
    let txid = match tx.txid() {
        Ok(h) => h,
        Err(_) => {
            return ;
        },
    };
    let coinbase = tx.is_coinbase();
    let mut j: usize = 0;
    while j < tx.outputs.len()
        invariant
            j <= tx.outputs@.len(),
            txid@ == spec_txid(tx@),
            coinbase == spec_is_coinbase(tx@),
            distinct_keys(utxo_pairs(utxos@)),
            pairs_map(utxo_pairs(utxos@)) == with_outputs(
                pairs_map(utxo_pairs(old(utxos)@)),
                tx@,
                j as nat,
                height,
            ),
        decreases tx.outputs@.len() - j,
    {
        let op = OutPoint { txid, index: j as u64 };
        let entry = UtxoEntry {
            output: tx.outputs[j],
            block_height: height,
            is_coinbase: coinbase,
            cluster_id: Hash256::zero(),
        };
        proof {
            assert(op@ == output_point(tx@, j as int));
            assert(entry@.output == tx@.outputs[j as int]);
            assert(entry@.cluster_id =~= zero_bytes());
            assert(entry@ == created_utxo(tx@, j as int, height));
        }
        utxo_insert(utxos, op, entry);
        j = j + 1;
    }
}

/// Apply the transactions of a block to a UTXO vector, recording spent
/// UTXOs in `undo`; returns the number of outputs created.
fn apply_block_txs(
    utxos: &mut Vec<(OutPoint, UtxoEntry)>,
    undo: &mut Vec<(OutPoint, UtxoEntry)>,
    block: &Block,
    height: u64,
) -> (r: Result<usize, ChainStateError>)
    requires
        distinct_keys(utxo_pairs(old(utxos)@)),
        old(undo)@.len() == 0,
        output_count(block@.transactions) <= usize::MAX,
    ensures
        distinct_keys(utxo_pairs(final(utxos)@)),
        ({
            let p = apply_txs(start(pairs_map(utxo_pairs(old(utxos)@))), block@.transactions, height);
            &&& p.utxos == pairs_map(utxo_pairs(final(utxos)@))
            &&& match r {
                Ok(n) => p.missing is None && n == output_count(block@.transactions) && p.undo
                    == utxo_pairs(final(undo)@),
                Err(e) => p.missing is Some && e@ == ChainErr::MissingUtxo(
                    outpoint_text(p.missing.unwrap()),
                ),
            }
        }),
{
    let ghost p0 = start(pairs_map(utxo_pairs(utxos@)));
    let mut created: usize = 0;
    let mut i: usize = 0;
    proof {
        assert(utxo_pairs(undo@) =~= Seq::<(OutPointModel, UtxoModel)>::empty());
        assert(block@.transactions.subrange(0, 0) =~= Seq::<TxModel>::empty());
    }
    while i < block.transactions.len()
        invariant
            i <= block.transactions@.len(),
            p0 == start(pairs_map(utxo_pairs(old(utxos)@))),
            output_count(block@.transactions) <= usize::MAX,
            created == output_count(block@.transactions.subrange(0, i as int)),
            distinct_keys(utxo_pairs(utxos@)),
            apply_txs(p0, block@.transactions.subrange(0, i as int), height) == (Progress {
                utxos: pairs_map(utxo_pairs(utxos@)),
                undo: utxo_pairs(undo@),
                missing: None,
            }),
        decreases block.transactions@.len() - i,
    {
        let tx = &block.transactions[i];
        let ghost pre = block@.transactions.subrange(0, i as int);
        proof {
            assert(block@.transactions.subrange(0, i + 1).drop_last() =~= pre);
            assert(block@.transactions.subrange(0, i + 1).last() == tx@);
            lemma_output_count_prefix(block@.transactions, i + 1);
        }
        if !tx.is_coinbase() {
            match spend_tx_inputs(utxos, undo, tx) {
                Ok(_) => {},
                Err(e) => {
                    proof {
                        lemma_apply_stops(p0, block@.transactions, i + 1, height);
                    }
                    return Err(e);
                },
            }
        }
        create_tx_outputs(utxos, tx, height);
        created = created + tx.outputs.len();
        i = i + 1;
    }
    proof {
        assert(block@.transactions.subrange(0, block@.transactions.len() as int)
            =~= block@.transactions);
    }
    Ok(created)
}

/// The outpoints of all outputs of the first `k` transactions and of the
/// first `j` outputs of transaction `k`.
pub open spec fn processed_outpoints(txs: Seq<TxModel>, k: int, j: int) -> Set<OutPointModel> {
    Set::new(
        |op: OutPointModel|
            (exists|k2: int|
                0 <= k2 < k && op.txid == spec_txid(#[trigger] txs[k2]) && op.index
                    < txs[k2].outputs.len()) || (op.txid == spec_txid(txs[k]) && op.index < j),
    )
}

/// Remove the UTXOs created by a block's outputs; returns how many were
/// present.
fn remove_created(utxos: &mut Vec<(OutPoint, UtxoEntry)>, block: &Block) -> (r: usize)
    requires
        distinct_keys(utxo_pairs(old(utxos)@)),
    ensures
        distinct_keys(utxo_pairs(final(utxos)@)),
        pairs_map(utxo_pairs(final(utxos)@)) == pairs_map(utxo_pairs(old(utxos)@)).remove_keys(
            created_outpoints(block@.transactions),
        ),
        r == pairs_map(utxo_pairs(old(utxos)@)).dom().intersect(
            created_outpoints(block@.transactions),
        ).len(),
{
    let ghost m0 = pairs_map(utxo_pairs(utxos@));
    let ghost txs = block@.transactions;
    proof {
        lemma_pairs_map_len(utxo_pairs(utxos@));
        assert(utxo_pairs(utxos@).len() == utxos.len());
        assert(processed_outpoints(txs, 0, 0) =~= Set::<OutPointModel>::empty());
        assert(m0.remove_keys(Set::<OutPointModel>::empty()) =~= m0);
        assert(m0.dom().intersect(Set::<OutPointModel>::empty()) =~= Set::<OutPointModel>::empty());
    }
    let mut count: usize = 0;
    let mut k: usize = 0;
    while k < block.transactions.len()
        invariant
            k <= txs.len(),
            txs == block@.transactions,
            m0 == pairs_map(utxo_pairs(old(utxos)@)),
            m0.dom().finite(),
            m0.dom().len() <= usize::MAX,
            distinct_keys(utxo_pairs(utxos@)),
            pairs_map(utxo_pairs(utxos@)) == m0.remove_keys(processed_outpoints(txs, k as int, 0)),
            count == m0.dom().intersect(processed_outpoints(txs, k as int, 0)).len(),
        decreases txs.len() - k,
    {
        let tx = &block.transactions[k];
        let txid = match tx.txid() {
            Ok(h) => h,
            Err(_) => {
                return count;
            },
        };
        let mut j: usize = 0;
        while j < tx.outputs.len()
            invariant
                k < txs.len(),
                txs == block@.transactions,
                tx@ == txs[k as int],
                txid@ == spec_txid(tx@),
                j <= tx@.outputs.len(),
                m0.dom().finite(),
                m0.dom().len() <= usize::MAX,
                distinct_keys(utxo_pairs(utxos@)),
                pairs_map(utxo_pairs(utxos@)) == m0.remove_keys(
                    processed_outpoints(txs, k as int, j as int),
                ),
                count == m0.dom().intersect(processed_outpoints(txs, k as int, j as int)).len(),
            decreases tx@.outputs.len() - j,
        {
            let op = OutPoint { txid, index: j as u64 };
            let ghost pset = processed_outpoints(txs, k as int, j as int);
            let ghost next = processed_outpoints(txs, k as int, j + 1);
            proof {
                assert(next =~= pset.insert(op@));
                vstd::set::axiom_set_intersect_finite(m0.dom(), pset);
                vstd::set::axiom_set_intersect_finite(m0.dom(), next);
                vstd::set_lib::lemma_len_intersect(m0.dom(), next);
            }
            match utxo_remove(utxos, &op) {
                Some(_) => {
                    proof {
                        assert(m0.dom().intersect(next) =~= m0.dom().intersect(pset).insert(op@));
                        vstd::set::axiom_set_insert_len(m0.dom().intersect(pset), op@);
                    }
                    count = count + 1;
                },
                None => {
                    proof {
                        assert(m0.dom().intersect(next) =~= m0.dom().intersect(pset));
                    }
                },
            }
            proof {
                assert(pairs_map(utxo_pairs(utxos@)) =~= m0.remove_keys(next));
            }
            j = j + 1;
        }
        proof {
            let a = processed_outpoints(txs, k as int, tx@.outputs.len() as int);
            let b = processed_outpoints(txs, k + 1, 0);
            assert forall|op: OutPointModel| a.contains(op) <==> b.contains(op) by {
                if op.txid == spec_txid(txs[k as int]) && op.index < txs[k as int].outputs.len() {
                    assert(b.contains(op));
                }
                if b.contains(op) {
                    let k2 = choose|k2: int|
                        0 <= k2 < k + 1 && op.txid == spec_txid(#[trigger] txs[k2]) && op.index
                            < txs[k2].outputs.len();
                    if k2 < k {
                        assert(a.contains(op));
                    }
                }
            }
            assert(a =~= b);
        }
        k = k + 1;
    }
    proof {
        assert(processed_outpoints(txs, txs.len() as int, 0) =~= created_outpoints(txs));
    }
    count
}

/// Put back spent UTXOs in order, later entries winning.
fn restore_spent(utxos: &mut Vec<(OutPoint, UtxoEntry)>, spent: &Vec<(OutPoint, UtxoEntry)>)
    requires
        distinct_keys(utxo_pairs(old(utxos)@)),
    ensures
        distinct_keys(utxo_pairs(final(utxos)@)),
        pairs_map(utxo_pairs(final(utxos)@)) == pairs_map(utxo_pairs(old(utxos)@)).union_prefer_right(
            pairs_map(utxo_pairs(spent@)),
        ),
{
    let ghost m1 = pairs_map(utxo_pairs(utxos@));
    let ghost u = utxo_pairs(spent@);
    proof {
        assert(u.subrange(0, 0) =~= Seq::<(OutPointModel, UtxoModel)>::empty());
        assert(m1.union_prefer_right(Map::empty()) =~= m1);
    }
    let mut i: usize = 0;
    while i < spent.len()
        invariant
            i <= spent@.len(),
            u == utxo_pairs(spent@),
            m1 == pairs_map(utxo_pairs(old(utxos)@)),
            distinct_keys(utxo_pairs(utxos@)),
            pairs_map(utxo_pairs(utxos@)) == m1.union_prefer_right(
                pairs_map(u.subrange(0, i as int)),
            ),
        decreases spent@.len() - i,
    {
        let (op, e) = spent[i];
        proof {
            let sub = u.subrange(0, i + 1);
            assert(sub.drop_last() =~= u.subrange(0, i as int));
            assert(sub.last() == (op@, e@));
            assert(m1.union_prefer_right(pairs_map(sub)) =~= m1.union_prefer_right(
                pairs_map(u.subrange(0, i as int)),
            ).insert(op@, e@));
        }
        utxo_insert(utxos, op, e);
        i = i + 1;
    }
    proof {
        assert(u.subrange(0, spent@.len() as int) =~= u);
    }
}

/// Mutable chain state storage.
///
/// Blocks passed to `connect_block` must already be validated.
pub trait ChainStore: Send + Sync {
    /// Connect a validated block at the given height: spend its inputs,
    /// create its outputs, store the block with its undo data and advance the
    /// tip. Fails with `HeightMismatch` when `height` is not the next height
    /// and with `DuplicateBlock` when the block is already stored.
    fn connect_block(&mut self, block: &Block, height: u64) -> (r: Result<ConnectBlockResult, RillError>)
        requires
            output_count(block@.transactions) <= usize::MAX,
    ;

    /// Disconnect the tip block, restoring the UTXOs it spent and removing
    /// those it created. Fails with `EmptyChain`, `BlockNotFound` or
    /// `UndoDataMissing`.
    fn disconnect_tip(&mut self) -> Result<DisconnectBlockResult, RillError>;

    /// Look up a UTXO by outpoint. Returns `None` if spent or unknown.
    fn get_utxo(&self, outpoint: &OutPoint) -> Result<Option<UtxoEntry>, RillError>;

    /// Check whether a UTXO exists and is unspent: `get_utxo`'s answer is
    /// `Some`, or its error.
    fn contains_utxo(&self, outpoint: &OutPoint) -> (r: Result<bool, RillError>)
        ensures
            exists|u: Result<Option<UtxoEntry>, RillError>|
                call_ensures(Self::get_utxo, (self, outpoint), u) && r == match u {
                    Ok(o) => Ok::<bool, RillError>(o is Some),
                    Err(x) => Err::<bool, RillError>(x),
                },
    {
        match self.get_utxo(outpoint) {
            Ok(u) => Ok(u.is_some()),
            Err(e) => Err(e),
        }
    }

    /// Current chain tip as `(height, block_hash)`; `(0, zero hash)` when
    /// no block is connected.
    fn chain_tip(&self) -> Result<(u64, Hash256), RillError>;

    /// Get a block header by its hash. Returns `None` if not found.
    fn get_block_header(&self, hash: &Hash256) -> Result<Option<BlockHeader>, RillError>;

    /// Get a full block by its hash. Returns `None` if not found.
    fn get_block(&self, hash: &Hash256) -> Result<Option<Block>, RillError>;

    /// Get the block hash at a given height. Returns `None` if none is
    /// connected there.
    fn get_block_hash(&self, height: u64) -> Result<Option<Hash256>, RillError>;

    /// Number of unspent transaction outputs in the set.
    fn utxo_count(&self) -> usize;

    /// Whether no blocks have been connected.
    fn is_empty(&self) -> bool;

    /// All UTXOs; none unless the implementor provides them.
    fn iter_utxos(&self) -> (r: Result<Vec<(OutPoint, UtxoEntry)>, RillError>)
        default_ensures
            r matches Ok(v) && v@.len() == 0,
    {
        Ok(Vec::new())
    }
}

impl ChainStore for MemoryChainStore {
    fn connect_block(&mut self, block: &Block, height: u64) -> (r: Result<ConnectBlockResult, RillError>)
        ensures
            is_chain_error(r),
            final(self)@ == spec_connect(old(self)@, block@, height).0,
            connect_outcome(r) == spec_connect(old(self)@, block@, height).1,
    {
        proof {
            use_type_invariant(&*self);
        }
        let expected: u64 = if self.tip_hash.is_zero() || self.tip_height == u64::MAX {
            0
        } else {
            self.tip_height + 1
        };
        if height != expected {
            return Err(RillError::ChainState(ChainStateError::HeightMismatch { expected, got: height }));
        }
        let block_hash = block.header.hash();
        if find_hash(&self.blocks, &block_hash).is_some() {
            proof {
                let i = choose|i: int| 0 <= i < self.blocks@.len() && self.blocks@[i].0@ == block_hash@;
                lemma_pairs_map_index(block_pairs(self.blocks@), i);
            }
            return Err(RillError::ChainState(ChainStateError::DuplicateBlock(block_hash.to_hex())));
        }
        proof {
            let bp = block_pairs(self.blocks@);
            lemma_pairs_map_dom(bp, block_hash@);
            assert forall|k: int| 0 <= k < bp.len() implies bp[k].0 != block_hash@ by {
                assert(bp[k].0 == self.blocks@[k].0@);
            }
        }
        let mut utxos: Vec<(OutPoint, UtxoEntry)> = Vec::new();
        std::mem::swap(&mut utxos, &mut self.utxos);
        let mut undo: Vec<(OutPoint, UtxoEntry)> = Vec::new();
        let created = match apply_block_txs(&mut utxos, &mut undo, block, height) {
            Ok(n) => n,
            Err(e) => {
                self.utxos = utxos;
                return Err(RillError::ChainState(e));
            },
        };
        let mut undo_store: Vec<(Hash256, Vec<(OutPoint, UtxoEntry)>)> = Vec::new();
        std::mem::swap(&mut undo_store, &mut self.undo);
        let mut blocks: Vec<(Hash256, Block)> = Vec::new();
        std::mem::swap(&mut blocks, &mut self.blocks);
        let mut heights: Vec<(u64, Hash256)> = Vec::new();
        std::mem::swap(&mut heights, &mut self.heights);
        let ghost bp = block_pairs(blocks@);
        blocks.push((block_hash, copy_block(block)));
        proof {
            assert forall|k: int| 0 <= k < bp.len() implies (#[trigger] bp[k]).0 != block_hash@ by {
                assert(bp[k].0 == old(self).blocks@[k].0@);
            }
            lemma_pairs_map_push(bp, block_hash@, block@);
            assert(block_pairs(blocks@) =~= bp.push((block_hash@, block@)));
        }
        height_insert(&mut heights, height, block_hash);
        let ghost up = undo_pairs(undo_store@);
        let ghost spent = utxo_pairs(undo@);
        let spent_count = undo.len();
        undo_store.push((block_hash, undo));
        proof {
            assert forall|k: int| 0 <= k < up.len() implies (#[trigger] up[k]).0 != block_hash@ by {
                assert(up[k].0 == old(self).undo@[k].0@);
                lemma_pairs_map_index(up, k);
            }
            lemma_pairs_map_push(up, block_hash@, spent);
            assert(undo_pairs(undo_store@) =~= up.push((block_hash@, spent)));
        }
        self.blocks = blocks;
        self.undo = undo_store;
        self.heights = heights;
        self.utxos = utxos;
        self.tip_height = height;
        self.tip_hash = block_hash;
        Ok(ConnectBlockResult { utxos_created: created, utxos_spent: spent_count })
    }

    fn disconnect_tip(&mut self) -> (r: Result<DisconnectBlockResult, RillError>)
        ensures
            is_chain_error(r),
            final(self)@ == spec_disconnect(old(self)@).0,
            disconnect_outcome(r) == spec_disconnect(old(self)@).1,
    {
        proof {
            use_type_invariant(&*self);
        }
        if self.tip_hash.is_zero() {
            return Err(RillError::ChainState(ChainStateError::EmptyChain));
        }
        let tip_hash = self.tip_hash;
        let tip_height = self.tip_height;
        let ghost bp = block_pairs(self.blocks@);
        let ghost up = undo_pairs(self.undo@);
        let bi = match find_hash(&self.blocks, &tip_hash) {
            Some(i) => i,
            None => {
                proof {
                    lemma_pairs_map_dom(bp, tip_hash@);
                    assert forall|k: int| 0 <= k < bp.len() implies bp[k].0 != tip_hash@ by {
                        assert(bp[k].0 == self.blocks@[k].0@);
                    }
                }
                return Err(RillError::ChainState(ChainStateError::BlockNotFound(tip_hash.to_hex())));
            },
        };
        proof {
            lemma_pairs_map_index(bp, bi as int);
        }
        let ui = match find_hash(&self.undo, &tip_hash) {
            Some(i) => i,
            None => {
                proof {
                    lemma_pairs_map_dom(up, tip_hash@);
                    assert forall|k: int| 0 <= k < up.len() implies up[k].0 != tip_hash@ by {
                        assert(up[k].0 == self.undo@[k].0@);
                    }
                }
                return Err(RillError::ChainState(ChainStateError::UndoDataMissing(tip_hash.to_hex())));
            },
        };
        proof {
            lemma_pairs_map_index(bp, bi as int);
            lemma_pairs_map_index(up, ui as int);
            lemma_pairs_map_remove(up, ui as int);
        }
        let mut undo_store: Vec<(Hash256, Vec<(OutPoint, UtxoEntry)>)> = Vec::new();
        std::mem::swap(&mut undo_store, &mut self.undo);
        let (_, spent) = undo_store.remove(ui);
        proof {
            assert(undo_pairs(undo_store@) =~= up.remove(ui as int));
        }
        self.undo = undo_store;
        let mut utxos: Vec<(OutPoint, UtxoEntry)> = Vec::new();
        std::mem::swap(&mut utxos, &mut self.utxos);
        let removed = remove_created(&mut utxos, &self.blocks[bi].1);
        let restored = spent.len();
        restore_spent(&mut utxos, &spent);
        self.utxos = utxos;
        let mut heights: Vec<(u64, Hash256)> = Vec::new();
        std::mem::swap(&mut heights, &mut self.heights);
        height_remove(&mut heights, tip_height);
        self.heights = heights;
        if tip_height == 0 {
            self.tip_height = 0;
            self.tip_hash = Hash256::zero();
        } else {
            self.tip_height = tip_height - 1;
            self.tip_hash = self.blocks[bi].1.header.prev_hash;
        }
        Ok(DisconnectBlockResult { utxos_restored: restored, utxos_removed: removed })
    }

    fn get_utxo(&self, outpoint: &OutPoint) -> (r: Result<Option<UtxoEntry>, RillError>)
        ensures
            r matches Ok(o) && match o {
                Some(e) => self@.utxos.contains_key(outpoint@) && e@ == self@.utxos[outpoint@],
                None => !self@.utxos.contains_key(outpoint@),
            },
    {
        proof {
            use_type_invariant(self);
        }
        let ghost s = utxo_pairs(self.utxos@);
        match find_outpoint(&self.utxos, outpoint) {
            Some(i) => {
                proof {
                    lemma_pairs_map_index(s, i as int);
                }
                Ok(Some(self.utxos[i].1))
            },
            None => {
                proof {
                    lemma_pairs_map_dom(s, outpoint@);
                    assert forall|k: int| 0 <= k < s.len() implies s[k].0 != outpoint@ by {
                        assert(s[k].0 == self.utxos@[k].0@);
                    }
                }
                Ok(None)
            },
        }
    }

    fn contains_utxo(&self, outpoint: &OutPoint) -> (r: Result<bool, RillError>)
        ensures
            r == Ok::<bool, RillError>(self@.utxos.contains_key(outpoint@)),
    {
        match self.get_utxo(outpoint) {
            Ok(u) => Ok(u.is_some()),
            Err(e) => Err(e),
        }
    }

    fn chain_tip(&self) -> (r: Result<(u64, Hash256), RillError>)
        ensures
            r matches Ok((h, t)) && h == self@.tip_height && t@ == self@.tip_hash,
    {
        Ok((self.tip_height, self.tip_hash))
    }

    fn get_block_header(&self, hash: &Hash256) -> (r: Result<Option<BlockHeader>, RillError>)
        ensures
            r matches Ok(o) && match o {
                Some(h) => self@.blocks.contains_key(hash@) && h == self@.blocks[hash@].header,
                None => !self@.blocks.contains_key(hash@),
            },
    {
        proof {
            use_type_invariant(self);
        }
        let ghost s = block_pairs(self.blocks@);
        match find_hash(&self.blocks, hash) {
            Some(i) => {
                proof {
                    lemma_pairs_map_index(s, i as int);
                }
                Ok(Some(self.blocks[i].1.header))
            },
            None => {
                proof {
                    lemma_pairs_map_dom(s, hash@);
                    assert forall|k: int| 0 <= k < s.len() implies s[k].0 != hash@ by {
                        assert(s[k].0 == self.blocks@[k].0@);
                    }
                }
                Ok(None)
            },
        }
    }

    fn get_block(&self, hash: &Hash256) -> (r: Result<Option<Block>, RillError>)
        ensures
            r matches Ok(o) && match o {
                Some(b) => self@.blocks.contains_key(hash@) && b@ == self@.blocks[hash@],
                None => !self@.blocks.contains_key(hash@),
            },
    {
        proof {
            use_type_invariant(self);
        }
        let ghost s = block_pairs(self.blocks@);
        match find_hash(&self.blocks, hash) {
            Some(i) => {
                proof {
                    lemma_pairs_map_index(s, i as int);
                }
                Ok(Some(copy_block(&self.blocks[i].1)))
            },
            None => {
                proof {
                    lemma_pairs_map_dom(s, hash@);
                    assert forall|k: int| 0 <= k < s.len() implies s[k].0 != hash@ by {
                        assert(s[k].0 == self.blocks@[k].0@);
                    }
                }
                Ok(None)
            },
        }
    }

    fn get_block_hash(&self, height: u64) -> (r: Result<Option<Hash256>, RillError>)
        ensures
            r matches Ok(o) && match o {
                Some(h) => self@.heights.contains_key(height) && h@ == self@.heights[height],
                None => !self@.heights.contains_key(height),
            },
    {
        proof {
            use_type_invariant(self);
        }
        let ghost s = height_pairs(self.heights@);
        match find_height(&self.heights, height) {
            Some(i) => {
                proof {
                    lemma_pairs_map_index(s, i as int);
                }
                Ok(Some(self.heights[i].1))
            },
            None => {
                proof {
                    lemma_pairs_map_dom(s, height);
                    assert forall|k: int| 0 <= k < s.len() implies s[k].0 != height by {
                        assert(s[k].0 == self.heights@[k].0);
                    }
                }
                Ok(None)
            },
        }
    }

    fn utxo_count(&self) -> (r: usize)
        ensures
            r == self@.utxos.dom().len(),
    {
        proof {
            use_type_invariant(self);
            lemma_pairs_map_len(utxo_pairs(self.utxos@));
        }
        self.utxos.len()
    }

    fn is_empty(&self) -> (r: bool)
        ensures
            r == (self@.tip_hash == zero_bytes()),
    {
        self.tip_hash.is_zero()
    }

    fn iter_utxos(&self) -> (r: Result<Vec<(OutPoint, UtxoEntry)>, RillError>)
        ensures
            r matches Ok(v) && v@.len() == 0,
    {
        Ok(Vec::new())
    }
}

/// The model of a store with nothing connected.
pub open spec fn empty_chain() -> ChainModel {
    ChainModel {
        utxos: Map::empty(),
        blocks: Map::empty(),
        heights: Map::empty(),
        undo: Map::empty(),
        tip_height: 0,
        tip_hash: zero_bytes(),
    }
}

impl MemoryChainStore {
    /// Create a new empty chain store.
    pub fn new() -> (r: Self)
        ensures
            r@ == empty_chain(),
    {
        let r = MemoryChainStore {
            utxos: Vec::new(),
            blocks: Vec::new(),
            heights: Vec::new(),
            undo: Vec::new(),
            tip_height: 0,
            tip_hash: Hash256::zero(),
        };
        assert(utxo_pairs(r.utxos@) =~= Seq::empty());
        assert(block_pairs(r.blocks@) =~= Seq::empty());
        assert(height_pairs(r.heights@) =~= Seq::empty());
        assert(undo_pairs(r.undo@) =~= Seq::empty());
        r
    }

    /// Number of full blocks stored.
    pub fn block_count(&self) -> (r: usize)
        ensures
            r == self@.blocks.dom().len(),
    {
        proof {
            use_type_invariant(self);
            lemma_pairs_map_len(block_pairs(self.blocks@));
        }
        self.blocks.len()
    }

    /// Number of undo records stored.
    pub fn undo_count(&self) -> (r: usize)
        ensures
            r == self@.undo.dom().len(),
    {
        proof {
            use_type_invariant(self);
            lemma_pairs_map_len(undo_pairs(self.undo@));
        }
        self.undo.len()
    }
}

impl Default for MemoryChainStore {
    fn default() -> (r: Self)
        ensures
            r@ == empty_chain(),
    {
        MemoryChainStore::new()
    }
}


/// No input of a non-coinbase transaction spends an output of the
/// transactions themselves.
pub open spec fn no_internal_spends(txs: Seq<TxModel>) -> bool {
    forall|k: int, i: int|
        0 <= k < txs.len() && !spec_is_coinbase(txs[k]) && 0 <= i < txs[k].inputs.len()
            ==> !created_outpoints(txs).contains(#[trigger] txs[k].inputs[i].previous_output)
}

/// The outputs of the transactions are all new to the UTXO set `m`.
pub open spec fn outputs_fresh(m: Map<OutPointModel, UtxoModel>, txs: Seq<TxModel>) -> bool {
    forall|op: OutPointModel| #[trigger] created_outpoints(txs).contains(op) ==> !m.contains_key(op)
}

/// Whether `op` is recorded as spent.
pub open spec fn is_spent(u: Seq<(OutPointModel, UtxoModel)>, op: OutPointModel) -> bool {
    exists|i: int| 0 <= i < u.len() && (#[trigger] u[i]).0 == op
}

/// How a progress relates to the UTXO set `m0` it started from, given the
/// outpoints `c` created so far: other UTXOs come from `m0` unchanged, all
/// created ones are present, a UTXO of `m0` is present exactly when it is not
/// spent, and each spent entry is the entry `m0` had.
pub open spec fn tracks(m0: Map<OutPointModel, UtxoModel>, p: Progress, c: Set<OutPointModel>) -> bool {
    &&& forall|op: OutPointModel|
        #[trigger] p.utxos.contains_key(op) && !c.contains(op) ==> m0.contains_key(op)
            && p.utxos[op] == m0[op]
    &&& forall|op: OutPointModel| #[trigger] c.contains(op) ==> p.utxos.contains_key(op)
    &&& forall|op: OutPointModel|
        #[trigger] m0.contains_key(op) ==> (p.utxos.contains_key(op) <==> !is_spent(p.undo, op))
    &&& forall|i: int|
        0 <= i < p.undo.len() ==> m0.contains_key((#[trigger] p.undo[i]).0) && p.undo[i].1
            == m0[p.undo[i].0]
}

/// The outpoints of the first `n` outputs of a transaction.
pub open spec fn first_points(tx: TxModel, n: int) -> Set<OutPointModel> {
    Set::new(|op: OutPointModel| exists|j: int| 0 <= j < n && op == #[trigger] output_point(tx, j))
}

proof fn lemma_spend_tracks(
    m0: Map<OutPointModel, UtxoModel>,
    p: Progress,
    ins: Seq<InputModel>,
    c: Set<OutPointModel>,
)
    requires
        tracks(m0, p, c),
        p.missing is None,
        forall|i: int| 0 <= i < ins.len() ==> !c.contains(#[trigger] ins[i].previous_output),
    ensures
        tracks(m0, spend_inputs(p, ins), c),
    decreases ins.len(),
{
    if ins.len() > 0 {
        let d = ins.drop_last();
        assert forall|i: int| 0 <= i < d.len() implies !c.contains(#[trigger] d[i].previous_output) by {
            assert(d[i] == ins[i]);
        }
        lemma_spend_tracks(m0, p, d, c);
        let q = spend_inputs(p, d);
        let op = ins.last().previous_output;
        assert(!c.contains(ins[ins.len() - 1].previous_output));
        if q.missing is None && q.utxos.contains_key(op) {
            let r = spend_inputs(p, ins);
            assert(r.undo[r.undo.len() - 1].0 == op);
            assert forall|o: OutPointModel| #[trigger] m0.contains_key(o) implies (r.utxos.contains_key(o)
                <==> !is_spent(r.undo, o)) by {
                if o != op {
                    if is_spent(r.undo, o) {
                        let i = choose|i: int| 0 <= i < r.undo.len() && (#[trigger] r.undo[i]).0 == o;
                        assert(q.undo[i] == r.undo[i]);
                    }
                    if is_spent(q.undo, o) {
                        let i = choose|i: int| 0 <= i < q.undo.len() && (#[trigger] q.undo[i]).0 == o;
                        assert(q.undo[i] == r.undo[i]);
                    }
                }
            }
            assert forall|i: int| 0 <= i < r.undo.len() implies m0.contains_key(
                (#[trigger] r.undo[i]).0,
            ) && r.undo[i].1 == m0[r.undo[i].0] by {
                if i < q.undo.len() {
                    assert(r.undo[i] == q.undo[i]);
                }
            }
        }
    }
}

proof fn lemma_outputs_tracks(
    m0: Map<OutPointModel, UtxoModel>,
    q: Progress,
    tx: TxModel,
    n: nat,
    height: u64,
    c: Set<OutPointModel>,
)
    requires
        tracks(m0, q, c),
        forall|j: int| 0 <= j < n ==> !m0.contains_key(#[trigger] output_point(tx, j)),
    ensures
        tracks(
            m0,
            Progress { utxos: with_outputs(q.utxos, tx, n, height), undo: q.undo, missing: None },
            c.union(first_points(tx, n as int)),
        ),
    decreases n,
{
    if n > 0 {
        lemma_outputs_tracks(m0, q, tx, (n - 1) as nat, height, c);
        let op = output_point(tx, n - 1);
        let before = c.union(first_points(tx, n - 1));
        let after = c.union(first_points(tx, n as int));
        assert(after =~= before.insert(op)) by {
            assert forall|o: OutPointModel| after.contains(o) implies before.insert(o).contains(o) by {}
            assert forall|o: OutPointModel| #[trigger] after.contains(o) <==> before.insert(op).contains(o) by {
                if first_points(tx, n as int).contains(o) && o != op {
                    let j = choose|j: int| 0 <= j < n && o == #[trigger] output_point(tx, j);
                    assert(j < n - 1);
                    assert(first_points(tx, n - 1).contains(o));
                }
                if o == op {
                    assert(first_points(tx, n as int).contains(o)) by {
                        assert(o == output_point(tx, n - 1));
                    }
                }
                if first_points(tx, n - 1).contains(o) {
                    let j = choose|j: int| 0 <= j < n - 1 && o == #[trigger] output_point(tx, j);
                    assert(first_points(tx, n as int).contains(o));
                }
            }
        }
        assert(!m0.contains_key(output_point(tx, n - 1)));
        let w = with_outputs(q.utxos, tx, (n - 1) as nat, height);
        let w2 = with_outputs(q.utxos, tx, n, height);
        assert(w2 == w.insert(op, created_utxo(tx, n - 1, height)));
        let pw = Progress { utxos: w, undo: q.undo, missing: None };
        assert forall|o: OutPointModel| #[trigger] w2.contains_key(o) && !after.contains(o) implies m0.contains_key(o)
            && w2[o] == m0[o] by {
            assert(o != op);
            assert(pw.utxos.contains_key(o) && !before.contains(o));
        }
        assert forall|o: OutPointModel| #[trigger] after.contains(o) implies w2.contains_key(o) by {
            if o != op {
                assert(before.contains(o));
                assert(pw.utxos.contains_key(o));
            }
        }
        assert forall|o: OutPointModel| #[trigger] m0.contains_key(o) implies (w2.contains_key(o)
            <==> !is_spent(q.undo, o)) by {
            assert(o != op);
            assert(pw.utxos.contains_key(o) <==> !is_spent(pw.undo, o));
        }
    } else {
        assert(c.union(first_points(tx, 0)) =~= c);
    }
}

proof fn lemma_created_push(pre: Seq<TxModel>, tx: TxModel)
    ensures
        created_outpoints(pre.push(tx)) =~= created_outpoints(pre).union(
            first_points(tx, tx.outputs.len() as int),
        ),
{
    let t = pre.push(tx);
    assert forall|o: OutPointModel| #[trigger] created_outpoints(t).contains(o) <==> created_outpoints(
        pre,
    ).union(first_points(tx, tx.outputs.len() as int)).contains(o) by {
        if created_outpoints(t).contains(o) {
            let k = choose|k: int|
                0 <= k < t.len() && o.txid == spec_txid(#[trigger] t[k]) && o.index < t[k].outputs.len();
            if k < pre.len() {
                assert(t[k] == pre[k]);
                assert(created_outpoints(pre).contains(o));
            } else {
                let j = o.index as int;
                assert(o == output_point(tx, j));
                assert(first_points(tx, tx.outputs.len() as int).contains(o));
            }
        }
        if created_outpoints(pre).contains(o) {
            let k = choose|k: int|
                0 <= k < pre.len() && o.txid == spec_txid(#[trigger] pre[k]) && o.index
                    < pre[k].outputs.len();
            assert(t[k] == pre[k]);
            assert(created_outpoints(t).contains(o));
        }
        if first_points(tx, tx.outputs.len() as int).contains(o) {
            let j = choose|j: int| 0 <= j < tx.outputs.len() && o == #[trigger] output_point(tx, j);
            assert(t[pre.len() as int] == tx);
            assert(o.index < tx.outputs.len());
            assert(created_outpoints(t).contains(o));
        }
    }
}

proof fn lemma_apply_tracks(m0: Map<OutPointModel, UtxoModel>, t: Seq<TxModel>, height: u64)
    requires
        outputs_fresh(m0, t),
        no_internal_spends(t),
        apply_txs(start(m0), t, height).missing is None,
    ensures
        tracks(m0, apply_txs(start(m0), t, height), created_outpoints(t)),
    decreases t.len(),
{
    if t.len() == 0 {
        assert(created_outpoints(t) =~= Set::<OutPointModel>::empty());
    } else {
        let d = t.drop_last();
        let tx = t.last();
        assert(t =~= d.push(tx));
        lemma_created_push(d, tx);
        assert forall|op: OutPointModel| #[trigger] created_outpoints(d).contains(op) implies !m0.contains_key(
            op,
        ) by {
            assert(created_outpoints(t).contains(op));
        }
        assert forall|k: int, i: int|
            0 <= k < d.len() && !spec_is_coinbase(d[k]) && 0 <= i < d[k].inputs.len() implies !created_outpoints(
            d,
        ).contains(#[trigger] d[k].inputs[i].previous_output) by {
            assert(d[k] == t[k]);
            assert(!created_outpoints(t).contains(t[k].inputs[i].previous_output));
        }
        lemma_apply_tracks(m0, d, height);
        let q = apply_txs(start(m0), d, height);
        let c = created_outpoints(d);
        let q2 = if spec_is_coinbase(tx) {
            q
        } else {
            spend_inputs(q, tx.inputs)
        };
        if !spec_is_coinbase(tx) {
            assert forall|i: int| 0 <= i < tx.inputs.len() implies !c.contains(
                #[trigger] tx.inputs[i].previous_output,
            ) by {
                assert(t[t.len() - 1] == tx);
                assert(!created_outpoints(t).contains(t[t.len() - 1].inputs[i].previous_output));
            }
            lemma_spend_tracks(m0, q, tx.inputs, c);
        }
        assert forall|j: int| 0 <= j < tx.outputs.len() implies !m0.contains_key(
            #[trigger] output_point(tx, j),
        ) by {
            assert(first_points(tx, tx.outputs.len() as int).contains(output_point(tx, j)));
            assert(created_outpoints(t).contains(output_point(tx, j)));
        }
        lemma_outputs_tracks(m0, q2, tx, tx.outputs.len(), height, c);
    }
}

/// Disconnecting a block right after connecting it gives back the UTXO set,
/// the height index, the undo records and the tip as they were, keeps the
/// block stored, and reports as restored the UTXOs the connect spent. This
/// holds for a block whose outputs are new to the UTXO set, whose inputs
/// spend no output of the block itself, that builds on the tip (or is the
/// first block), whose hash is not all zero, at a height that had no block.
pub proof fn lemma_disconnect_undoes_connect(s: ChainModel, b: BlockModel, height: u64)
    requires
        model_wf(s),
        spec_connect(s, b, height).1 is Ok,
        outputs_fresh(s.utxos, b.transactions),
        no_internal_spends(b.transactions),
        s.tip_hash == zero_bytes() ==> s.tip_height == 0,
        s.tip_hash != zero_bytes() ==> b.header.prev_hash@ == s.tip_hash && s.tip_height < u64::MAX,
        spec_header_hash(b.header) != zero_bytes(),
        !s.heights.contains_key(height),
    ensures
        spec_disconnect(spec_connect(s, b, height).0).0 == (ChainModel {
            blocks: s.blocks.insert(spec_header_hash(b.header), b),
            ..s
        }),
        spec_disconnect(spec_connect(s, b, height).0).1 matches Ok((restored, _)) && restored
            == spec_connect(s, b, height).1->Ok_0.1,
{
    let h = spec_header_hash(b.header);
    let m0 = s.utxos;
    let txs = b.transactions;
    let p = apply_txs(start(m0), txs, height);
    lemma_apply_tracks(m0, txs, height);
    let s1 = spec_connect(s, b, height).0;
    let c = created_outpoints(txs);
    let m2 = p.utxos.remove_keys(c).union_prefer_right(pairs_map(p.undo));
    assert forall|op: OutPointModel| #[trigger] m2.contains_key(op) <==> m0.contains_key(op) by {
        lemma_pairs_map_dom(p.undo, op);
        if pairs_map(p.undo).contains_key(op) {
            let i = choose|i: int| 0 <= i < p.undo.len() && p.undo[i].0 == op;
            assert(m0.contains_key(p.undo[i].0));
        } else if m0.contains_key(op) {
            assert(!c.contains(op));
            if is_spent(p.undo, op) {
                let i = choose|i: int| 0 <= i < p.undo.len() && (#[trigger] p.undo[i]).0 == op;
            }
        }
    }
    assert forall|op: OutPointModel| #[trigger] m2.contains_key(op) implies m2[op] == m0[op] by {
        lemma_pairs_map_dom(p.undo, op);
        if pairs_map(p.undo).contains_key(op) {
            lemma_pairs_map_value(p.undo, op);
            let i = choose|i: int|
                0 <= i < p.undo.len() && p.undo[i].0 == op && #[trigger] p.undo[i].1 == pairs_map(
                    p.undo,
                )[op];
            assert(m0.contains_key(p.undo[i].0));
        }
    }
    assert(m2 =~= m0);
    assert(s1.undo.remove(h) =~= s.undo);
    assert(s1.heights.remove(height) =~= s.heights);
}

/// One undo record per connected block: none for an empty chain, else one
/// for each height from 0 to the tip.
pub open spec fn undo_tracks_tip(s: ChainModel) -> bool {
    &&& s.undo.dom().finite()
    &&& s.undo.dom().len() == if s.tip_hash == zero_bytes() {
        0
    } else {
        s.tip_height + 1
    }
}

/// An empty chain keeps one undo record per connected block.
pub proof fn lemma_empty_chain_tracks_tip()
    ensures
        undo_tracks_tip(empty_chain()),
        model_wf(empty_chain()),
{
}

/// Connecting a block keeps one undo record per connected block, as long
/// as the tip is below the largest height and the block's hash is not zero.
pub proof fn lemma_connect_tracks_tip(s: ChainModel, b: BlockModel, height: u64)
    requires
        model_wf(s),
        undo_tracks_tip(s),
        s.tip_height < u64::MAX,
        spec_header_hash(b.header) != zero_bytes(),
    ensures
        undo_tracks_tip(spec_connect(s, b, height).0),
        model_wf(spec_connect(s, b, height).0),
{
    let h = spec_header_hash(b.header);
    if height == expected_height(s) && !s.blocks.contains_key(h) {
        assert(!s.undo.dom().contains(h));
        let p = apply_txs(start(s.utxos), b.transactions, height);
        if p.missing is None {
            assert(s.undo.insert(h, p.undo).dom() =~= s.undo.dom().insert(h));
        }
    }
}

/// Disconnecting the tip keeps one undo record per connected block, as long
/// as a tip above height 0 names a parent with a non-zero hash.
pub proof fn lemma_disconnect_tracks_tip(s: ChainModel)
    requires
        model_wf(s),
        undo_tracks_tip(s),
        s.tip_hash != zero_bytes() && s.tip_height > 0 && s.blocks.contains_key(s.tip_hash)
            ==> s.blocks[s.tip_hash].header.prev_hash@ != zero_bytes(),
    ensures
        undo_tracks_tip(spec_disconnect(s).0),
        model_wf(spec_disconnect(s).0),
{
    let t = s.tip_hash;
    if t != zero_bytes() && s.blocks.contains_key(t) && s.undo.contains_key(t) {
        assert(s.undo.remove(t).dom() =~= s.undo.dom().remove(t));
    }
}

/// The transactions have distinct txids.
pub open spec fn distinct_txids(txs: Seq<TxModel>) -> bool {
    forall|a: int, b: int|
        0 <= a < b < txs.len() ==> spec_txid(#[trigger] txs[a]) != spec_txid(#[trigger] txs[b])
}

/// The outpoints with txid `t` and an index below `m`.
pub open spec fn points_below(t: Seq<u8>, m: nat) -> Set<OutPointModel> {
    Set::new(|op: OutPointModel| op.txid == t && op.index < m)
}

proof fn lemma_points_below(t: Seq<u8>, m: nat)
    requires
        m <= u64::MAX,
    ensures
        points_below(t, m).finite(),
        points_below(t, m).len() == m,
    decreases m,
{
    if m == 0 {
        assert(points_below(t, 0) =~= Set::<OutPointModel>::empty());
    } else {
        lemma_points_below(t, (m - 1) as nat);
        let op = OutPointModel { txid: t, index: (m - 1) as u64 };
        assert(points_below(t, m) =~= points_below(t, (m - 1) as nat).insert(op));
    }
}

/// With distinct txids, a block creates one outpoint per output.
pub proof fn lemma_created_count(txs: Seq<TxModel>)
    requires
        distinct_txids(txs),
        forall|k: int| 0 <= k < txs.len() ==> (#[trigger] txs[k]).outputs.len() <= u64::MAX,
    ensures
        created_outpoints(txs).finite(),
        created_outpoints(txs).len() == output_count(txs),
    decreases txs.len(),
{
    if txs.len() == 0 {
        assert(created_outpoints(txs) =~= Set::<OutPointModel>::empty());
    } else {
        let d = txs.drop_last();
        let tx = txs.last();
        assert forall|k: int| 0 <= k < d.len() implies (#[trigger] d[k]).outputs.len() <= u64::MAX by {
            assert(d[k] == txs[k]);
        }
        assert forall|a: int, b: int| 0 <= a < b < d.len() implies spec_txid(#[trigger] d[a]) != spec_txid(
            #[trigger] d[b],
        ) by {
            assert(d[a] == txs[a] && d[b] == txs[b]);
        }
        lemma_created_count(d);
        let last = points_below(spec_txid(tx), tx.outputs.len());
        assert(txs[txs.len() - 1].outputs.len() <= u64::MAX);
        lemma_points_below(spec_txid(tx), tx.outputs.len());
        assert forall|op: OutPointModel| #[trigger] created_outpoints(txs).contains(op) <==> (
        created_outpoints(d).contains(op) || last.contains(op)) by {
            if created_outpoints(txs).contains(op) {
                let k = choose|k: int|
                    0 <= k < txs.len() && op.txid == spec_txid(#[trigger] txs[k]) && op.index
                        < txs[k].outputs.len();
                if k < d.len() {
                    assert(d[k] == txs[k]);
                }
            }
            if created_outpoints(d).contains(op) {
                let k = choose|k: int|
                    0 <= k < d.len() && op.txid == spec_txid(#[trigger] d[k]) && op.index
                        < d[k].outputs.len();
                assert(d[k] == txs[k]);
            }
            if last.contains(op) {
                assert(txs[txs.len() - 1] == tx);
            }
        }
        assert(created_outpoints(txs) =~= created_outpoints(d) + last);
        assert forall|op: OutPointModel| created_outpoints(d).contains(op) implies !last.contains(op) by {
            let k = choose|k: int|
                0 <= k < d.len() && op.txid == spec_txid(#[trigger] d[k]) && op.index < d[k].outputs.len();
            assert(d[k] == txs[k]);
            assert(spec_txid(txs[k]) != spec_txid(txs[txs.len() - 1]));
        }
        vstd::set_lib::lemma_set_disjoint_lens(created_outpoints(d), last);
    }
}

/// Connecting a block whose txids are distinct and then disconnecting it
/// removes exactly the UTXOs that connecting created.
pub proof fn lemma_disconnect_removes_created(s: ChainModel, b: BlockModel, height: u64)
    requires
        spec_connect(s, b, height).1 is Ok,
        outputs_fresh(s.utxos, b.transactions),
        no_internal_spends(b.transactions),
        distinct_txids(b.transactions),
        forall|k: int|
            0 <= k < b.transactions.len() ==> (#[trigger] b.transactions[k]).outputs.len() <= u64::MAX,
        spec_header_hash(b.header) != zero_bytes(),
    ensures
        spec_disconnect(spec_connect(s, b, height).0).1 matches Ok((_, removed)) && removed
            == spec_connect(s, b, height).1->Ok_0.0,
{
    let h = spec_header_hash(b.header);
    let p = apply_txs(start(s.utxos), b.transactions, height);
    lemma_apply_tracks(s.utxos, b.transactions, height);
    let c = created_outpoints(b.transactions);
    lemma_created_count(b.transactions);
    let s1 = spec_connect(s, b, height).0;
    assert(s1.tip_hash == h && s1.blocks.contains_key(h) && s1.undo.contains_key(h));
    assert(s1.blocks[h] == b);
    assert(s1.utxos.dom().intersect(c) =~= c);
}

} // verus!
