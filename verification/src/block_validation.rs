//! Block validation.
//!
//! - Structural validation ([`validate_block_structure`]) checks a block on
//!   its own: version, coinbase position, transaction structure, distinct
//!   txids, merkle root, size and proof of work.
//! - Contextual validation ([`validate_block`]) adds the parent linkage, the
//!   expected difficulty, the timestamp window, contextual validation of each
//!   transaction, double spends across transactions, and the coinbase reward.
//!
//! The genesis block is not validated here; see `genesis::is_genesis`.

use vstd::prelude::*;

use crate::constants::{MAX_BLOCK_SIZE, MAX_FUTURE_BLOCK_TIME};
use crate::error::{BlockErr, BlockError, TransactionError, TxErr};
use crate::merkle::{hv, merkle_root, merkle_root_spec};
use crate::types::{
    BlockHeader,
    encode_block, enc_block, hex_chars, outputs_sum, spec_header_hash, spec_is_coinbase, spec_txid,
    Block, BlockModel, Hash256, InputModel, OutPoint, OutPointModel, Transaction, TxInput, TxModel,
    UtxoEntry,
};
use crate::validation::{
    lookup_inputs, lookups_agree, outpoint_text, spec_structure, spec_validate_transaction,
    validate_transaction_structure, validate_transaction_with_utxos,
};

verus! {

/// What the chain state expects of the block being validated.
#[derive(Debug, Clone, Copy, PartialEq, Eq)]
pub struct BlockContext {
    /// Height of the block being validated.
    pub height: u64,
    /// Expected previous block hash (the parent's header hash).
    pub prev_hash: Hash256,
    /// The parent's timestamp.
    pub prev_timestamp: u64,
    /// Expected difficulty target for this height.
    pub expected_difficulty: u64,
    /// Current wall-clock time in Unix seconds.
    pub current_time: u64,
    /// Base block reward for this height.
    pub block_reward: u64,
}

/// Summary of a block that passed contextual validation.
#[derive(Debug, Clone, Copy, PartialEq, Eq, Structural)]
pub struct ValidatedBlock {
    /// Sum of the fees of all non-coinbase transactions, in rills.
    pub total_fees: u64,
    /// Total value of the coinbase outputs, in rills.
    pub coinbase_value: u64,
}

/// The little-endian value of a byte string.
pub open spec fn le_value(b: Seq<u8>) -> nat
    decreases b.len(),
{
    if b.len() == 0 {
        0
    } else {
        b[0] as nat + 256 * le_value(b.drop_first())
    }
}

/// `256^k`.
pub open spec fn pow256(k: nat) -> nat
    decreases k,
{
    if k == 0 {
        1
    } else {
        256 * pow256((k - 1) as nat)
    }
}

proof fn lemma_le_value_bound(b: Seq<u8>)
    ensures
        le_value(b) < pow256(b.len()),
    decreases b.len(),
{
    if b.len() > 0 {
        lemma_le_value_bound(b.drop_first());
    }
}

/// The proof-of-work value of a header: the first 8 bytes of its hash, little-endian.
pub open spec fn pow_value(header_hash: Seq<u8>) -> nat {
    le_value(header_hash.take(8))
}

/// Whether the header hash of a block meets the header's own target.
pub open spec fn spec_check_pow(b: BlockModel) -> bool {
    pow_value(spec_header_hash(b.header)) <= b.header.difficulty_target
}

/// Check that the header hash of a block, its first 8 bytes read as a
/// little-endian `u64`, is at most the header's difficulty target.
/// A target of `u64::MAX` accepts every hash.
pub fn check_pow(block: &Block) -> (r: bool)
    ensures
        r == spec_check_pow(block@),
        block.header.difficulty_target == u64::MAX ==> r,
{
    header_meets_target(&block.header)
}

/// Whether a header's hash, its first 8 bytes read as a little-endian
/// `u64`, is at most the header's own difficulty target.
pub fn header_meets_target(header: &BlockHeader) -> (r: bool)
    ensures
        r == (pow_value(spec_header_hash(*header)) <= header.difficulty_target),
        header.difficulty_target == u64::MAX ==> r,
{
    let hash = header.hash();
    pow_prefix(&hash) <= header.difficulty_target
}

/// The first 8 bytes of a hash read as a little-endian `u64`.
pub fn pow_prefix(hash: &Hash256) -> (r: u64)
    ensures
        r == pow_value(hash@),
{
    let ghost h = hash@;
    let mut v: u64 = 0;
    let mut i: usize = 8;
    proof {
        assert(pow256(8) == 0x1_0000_0000_0000_0000) by {
            reveal_with_fuel(pow256, 9);
        }
    }
    while i > 0
        invariant
            i <= 8,
            h == hash@,
            h.len() == 32,
            v as nat == le_value(h.subrange(i as int, 8)),
            pow256(8) == 0x1_0000_0000_0000_0000,
        decreases i,
    {
        proof {
            lemma_le_value_bound(h.subrange(i as int, 8));
            lemma_pow256_mono((8 - i) as nat, 7);
            assert(h.subrange(i - 1, 8).drop_first() =~= h.subrange(i as int, 8));
        }
        i = i - 1;
        v = v * 256 + hash.0[i] as u64;
    }
    proof {
        assert(h.subrange(0, 8) =~= h.take(8));
    }
    v
}

proof fn lemma_pow256_mono(a: nat, b: nat)
    requires
        a <= b,
    ensures
        pow256(a) <= pow256(b),
        256 * pow256(a) == pow256(a + 1),
    decreases b,
{
    if a < b {
        lemma_pow256_mono(a, (b - 1) as nat);
    }
}

/// The first transaction after the coinbase, among the first `n`, that is
/// itself a coinbase or fails structural validation.
pub open spec fn first_body_error(txs: Seq<TxModel>, n: int) -> Option<BlockErr>
    decreases n,
{
    if n <= 1 {
        None
    } else {
        match first_body_error(txs, n - 1) {
            Some(e) => Some(e),
            None => {
                let i = n - 1;
                if spec_is_coinbase(txs[i]) {
                    Some(BlockErr::MultipleCoinbase)
                } else {
                    match spec_structure(txs[i]) {
                        Err(e) => Some(BlockErr::TransactionError { index: i as usize, source: e }),
                        Ok(()) => None,
                    }
                }
            },
        }
    }
}

/// The txids of a block's transactions.
pub open spec fn block_txids(txs: Seq<TxModel>) -> Seq<Seq<u8>> {
    txs.map_values(|t: TxModel| spec_txid(t))
}

/// The first txid among the first `n` that repeats an earlier one.
pub open spec fn first_duplicate(ids: Seq<Seq<u8>>, n: int) -> Option<Seq<u8>>
    decreases n,
{
    if n <= 0 {
        None
    } else {
        match first_duplicate(ids, n - 1) {
            Some(d) => Some(d),
            None => if exists|j: int| 0 <= j < n - 1 && #[trigger] ids[j] == ids[n - 1] {
                Some(ids[n - 1])
            } else {
                None
            },
        }
    }
}

/// The outcome of structural block validation.
pub open spec fn spec_block_structure(b: BlockModel) -> Result<(), BlockErr> {
    let txs = b.transactions;
    let ids = block_txids(txs);
    if b.header.version != 1 {
        Err(BlockErr::InvalidBlockVersion(b.header.version))
    } else if txs.len() == 0 {
        Err(BlockErr::NoCoinbase)
    } else if !spec_is_coinbase(txs[0]) {
        Err(BlockErr::FirstTxNotCoinbase)
    } else if let Some(e) = first_body_error(txs, txs.len() as int) {
        Err(e)
    } else if let Err(e) = spec_structure(txs[0]) {
        Err(BlockErr::TransactionError { index: 0, source: e })
    } else if let Some(d) = first_duplicate(ids, ids.len() as int) {
        Err(BlockErr::DuplicateTxid(hex_chars(d)))
    } else if b.header.merkle_root@ != merkle_root_spec(ids) {
        Err(BlockErr::InvalidMerkleRoot)
    } else if enc_block(b).len() > MAX_BLOCK_SIZE {
        Err(BlockErr::OversizedBlock { size: enc_block(b).len() as usize, max: MAX_BLOCK_SIZE })
    } else if !spec_check_pow(b) {
        Err(BlockErr::InvalidPoW)
    } else {
        Ok(())
    }
}

proof fn lemma_first_body_stable(txs: Seq<TxModel>, k: int, n: int)
    requires
        0 <= k <= n,
        first_body_error(txs, k) is Some,
    ensures
        first_body_error(txs, n) == first_body_error(txs, k),
    decreases n - k,
{
    if n > k {
        lemma_first_body_stable(txs, k, n - 1);
    }
}

proof fn lemma_first_duplicate_stable(ids: Seq<Seq<u8>>, k: int, n: int)
    requires
        0 <= k <= n,
        first_duplicate(ids, k) is Some,
    ensures
        first_duplicate(ids, n) == first_duplicate(ids, k),
    decreases n - k,
{
    if n > k {
        lemma_first_duplicate_stable(ids, k, n - 1);
    }
}

/// A structural result as a mathematical value.
pub open spec fn unit_result_view(r: Result<(), BlockError>) -> Result<(), BlockErr> {
    match r {
        Ok(()) => Ok(()),
        Err(e) => Err(e@),
    }
}

/// Validate a block on its own: version 1; a coinbase first and nowhere
/// else; every transaction structurally valid; distinct txids; the merkle
/// root of the txids in the header; within the size limit; and a header
/// hash that meets the header's own target.
#[verifier::loop_isolation(false)]
pub fn validate_block_structure(block: &Block) -> (r: Result<(), BlockError>)
    ensures
        unit_result_view(r) == spec_block_structure(block@),
{
    if block.header.version != 1 {
        return Err(BlockError::InvalidBlockVersion(block.header.version));
    }
    let n = block.transactions.len();
    if n == 0 {
        return Err(BlockError::NoCoinbase);
    }
    assert(block@.transactions[0] == block.transactions@[0]@);
    if !block.transactions[0].is_coinbase() {
        return Err(BlockError::FirstTxNotCoinbase);
    }
    let ghost txs = block@.transactions;
    let mut i: usize = 1;
    while i < n
        invariant
            n == block.transactions@.len(),
            txs == block@.transactions,
            1 <= i <= n,
            first_body_error(txs, i as int) is None,
        decreases n - i,
    {
        let tx = &block.transactions[i];
        assert(txs[i as int] == tx@);
        if tx.is_coinbase() {
            proof {
                assert(first_body_error(txs, i + 1) == Some(BlockErr::MultipleCoinbase));
                lemma_first_body_stable(txs, i + 1, n as int);
            }
            return Err(BlockError::MultipleCoinbase);
        }
        match validate_transaction_structure(tx) {
            Ok(()) => {},
            Err(e) => {
                proof {
                    assert(first_body_error(txs, i + 1) == Some(
                        BlockErr::TransactionError { index: i as usize, source: e@ },
                    ));
                    lemma_first_body_stable(txs, i + 1, n as int);
                }
                return Err(BlockError::TransactionError { index: i, source: e });
            },
        }
        i = i + 1;
    }
    match validate_transaction_structure(&block.transactions[0]) {
        Ok(()) => {},
        Err(e) => {
            return Err(BlockError::TransactionError { index: 0, source: e });
        },
    }
    let ghost ids = block_txids(txs);
    let mut txids: Vec<Hash256> = Vec::new();
    let mut k: usize = 0;
    while k < n
        invariant
            n == block.transactions@.len(),
            txs == block@.transactions,
            ids == block_txids(txs),
            k <= n,
            txids@.len() == k,
            forall|j: int| 0 <= j < k ==> (#[trigger] txids@[j])@ == ids[j],
            first_duplicate(ids, k as int) is None,
        decreases n - k,
    {
        assert(txs[k as int] == block.transactions@[k as int]@);
        let id = match block.transactions[k].txid() {
            Ok(h) => h,
            Err(e) => {
                proof {
                    assert(false);
                }
                return Err(BlockError::TransactionError { index: k, source: e });
            },
        };
        let mut j: usize = 0;
        let mut dup = false;
        while j < k && !dup
            invariant
                k < n,
                j <= k,
                txids@.len() == k,
                ids.len() == n,
                id@ == ids[k as int],
                forall|m: int| 0 <= m < k ==> (#[trigger] txids@[m])@ == ids[m],
                !dup ==> forall|m: int| 0 <= m < j ==> #[trigger] ids[m] != ids[k as int],
                dup ==> exists|m: int| 0 <= m < k && #[trigger] ids[m] == ids[k as int],
            decreases k - j + (if dup { 0int } else { 1int }),
        {
            if txids[j] == id {
                dup = true;
                assert(ids[j as int] == ids[k as int]);
            } else {
                j = j + 1;
            }
        }
        if dup {
            proof {
                assert(first_duplicate(ids, k + 1) == Some(ids[k as int]));
                lemma_first_duplicate_stable(ids, k + 1, n as int);
            }
            return Err(BlockError::DuplicateTxid(id.to_hex()));
        }
        txids.push(id);
        k = k + 1;
    }
    proof {
        assert(hv(txids@) =~= ids);
    }
    let root = merkle_root(txids.as_slice());
    if !(block.header.merkle_root == root) {
        return Err(BlockError::InvalidMerkleRoot);
    }
    let encoded = encode_block(block);
    if encoded.len() > MAX_BLOCK_SIZE {
        return Err(BlockError::OversizedBlock { size: encoded.len(), max: MAX_BLOCK_SIZE });
    }
    if !check_pow(block) {
        return Err(BlockError::InvalidPoW);
    }
    Ok(())
}

/// The outpoints spent by a sequence of inputs.
pub open spec fn spent_outpoints(inputs: Seq<InputModel>) -> Set<OutPointModel> {
    inputs.map_values(|i: InputModel| i.previous_output).to_set()
}

/// The outpoints spent by transactions `1 .. n` of a block.
pub open spec fn spent_before(txs: Seq<TxModel>, n: int) -> Set<OutPointModel>
    decreases n,
{
    if n <= 1 {
        Set::empty()
    } else {
        spent_before(txs, n - 1).union(spent_outpoints(txs[n - 1].inputs))
    }
}

/// The first of the first `n` inputs that spends an outpoint in `prior` or
/// one spent by an earlier input.
pub open spec fn first_double_spend(inputs: Seq<InputModel>, prior: Set<OutPointModel>, n: int) -> Option<
    OutPointModel,
>
    decreases n,
{
    if n <= 0 {
        None
    } else {
        match first_double_spend(inputs, prior, n - 1) {
            Some(op) => Some(op),
            None => {
                let op = inputs[n - 1].previous_output;
                if prior.contains(op) || exists|j: int|
                    0 <= j < n - 1 && #[trigger] inputs[j].previous_output == op {
                    Some(op)
                } else {
                    None
                }
            },
        }
    }
}

/// The lookups made for transaction `i`, empty when none are given.
pub open spec fn lookups_for(looked: Seq<Seq<Option<UtxoEntry>>>, i: int) -> Seq<Option<UtxoEntry>> {
    if 0 <= i < looked.len() {
        looked[i]
    } else {
        Seq::empty()
    }
}

/// The checks of transactions `1 .. n` in order, with their running fee
/// total: no input spends an outpoint already spent in the block, each
/// transaction validates against its lookups, and the fees fit in a `u64`.
pub open spec fn body_checks(
    txs: Seq<TxModel>,
    height: u64,
    looked: Seq<Seq<Option<UtxoEntry>>>,
    n: int,
) -> Result<int, BlockErr>
    decreases n,
{
    if n <= 1 {
        Ok(0)
    } else {
        match body_checks(txs, height, looked, n - 1) {
            Err(e) => Err(e),
            Ok(fees) => {
                let i = n - 1;
                let tx = txs[i];
                match first_double_spend(tx.inputs, spent_before(txs, i), tx.inputs.len() as int) {
                    Some(op) => Err(BlockErr::DoubleSpend(outpoint_text(op))),
                    None => match spec_validate_transaction(tx, lookups_for(looked, i), height) {
                        Err(e) => Err(BlockErr::TransactionError { index: i as usize, source: e }),
                        Ok(v) => if fees + v.fee > u64::MAX {
                            Err(
                                BlockErr::TransactionError {
                                    index: i as usize,
                                    source: TxErr::ValueOverflow,
                                },
                            )
                        } else {
                            Ok(fees + v.fee)
                        },
                    },
                }
            },
        }
    }
}

/// The latest acceptable timestamp: `current_time + MAX_FUTURE_BLOCK_TIME`, saturating.
pub open spec fn max_block_time(current_time: u64) -> u64 {
    if current_time + MAX_FUTURE_BLOCK_TIME <= u64::MAX {
        (current_time + MAX_FUTURE_BLOCK_TIME) as u64
    } else {
        u64::MAX
    }
}

/// The outcome of contextual block validation, given the outputs that the
/// inputs of each transaction spend (`looked[i]` for transaction `i`).
pub open spec fn spec_validate_block(
    b: BlockModel,
    ctx: BlockContext,
    looked: Seq<Seq<Option<UtxoEntry>>>,
) -> Result<ValidatedBlock, BlockErr> {
    let h = b.header;
    let txs = b.transactions;
    if let Err(e) = spec_block_structure(b) {
        Err(e)
    } else if h.prev_hash@ != ctx.prev_hash@ {
        Err(BlockErr::InvalidPrevHash)
    } else if h.difficulty_target != ctx.expected_difficulty {
        Err(BlockErr::InvalidDifficulty { got: h.difficulty_target, expected: ctx.expected_difficulty })
    } else if h.timestamp <= ctx.prev_timestamp {
        Err(BlockErr::TimestampNotAfterParent)
    } else if h.timestamp > max_block_time(ctx.current_time) {
        Err(
            BlockErr::TimestampTooFar(
                (h.timestamp as i64).wrapping_sub(ctx.current_time as i64),
            ),
        )
    } else {
        match body_checks(txs, ctx.height, looked, txs.len() as int) {
            Err(e) => Err(e),
            Ok(fees) => {
                let coinbase_value = outputs_sum(txs[0].outputs);
                if coinbase_value > u64::MAX || ctx.block_reward + fees > u64::MAX {
                    Err(BlockErr::TransactionError { index: 0, source: TxErr::ValueOverflow })
                } else if coinbase_value > ctx.block_reward + fees {
                    Err(
                        BlockErr::InvalidReward {
                            got: coinbase_value as u64,
                            expected: (ctx.block_reward + fees) as u64,
                        },
                    )
                } else {
                    Ok(
                        ValidatedBlock {
                            total_fees: fees as u64,
                            coinbase_value: coinbase_value as u64,
                        },
                    )
                }
            },
        }
    }
}

/// A block validation result as a mathematical value.
pub open spec fn block_result_view(r: Result<ValidatedBlock, BlockError>) -> Result<
    ValidatedBlock,
    BlockErr,
> {
    match r {
        Ok(v) => Ok(v),
        Err(e) => Err(e@),
    }
}

proof fn lemma_body_checks_stable(
    txs: Seq<TxModel>,
    height: u64,
    looked: Seq<Seq<Option<UtxoEntry>>>,
    k: int,
    n: int,
)
    requires
        0 <= k <= n,
        body_checks(txs, height, looked, k) is Err,
    ensures
        body_checks(txs, height, looked, n) == body_checks(txs, height, looked, k),
    decreases n - k,
{
    if n > k {
        lemma_body_checks_stable(txs, height, looked, k, n - 1);
    }
}

proof fn lemma_first_double_spend_stable(
    inputs: Seq<InputModel>,
    prior: Set<OutPointModel>,
    k: int,
    n: int,
)
    requires
        0 <= k <= n,
        first_double_spend(inputs, prior, k) is Some,
    ensures
        first_double_spend(inputs, prior, n) == first_double_spend(inputs, prior, k),
    decreases n - k,
{
    if n > k {
        lemma_first_double_spend_stable(inputs, prior, k, n - 1);
    }
}

/// Whether `op` occurs in `spent`.
fn contains_outpoint(spent: &Vec<OutPoint>, op: &OutPoint) -> (r: bool)
    ensures
        r == exists|j: int| 0 <= j < spent@.len() && (#[trigger] spent@[j])@ == op@,
{
    let mut j: usize = 0;
    while j < spent.len()
        invariant
            j <= spent@.len(),
            forall|m: int| 0 <= m < j ==> (#[trigger] spent@[m])@ != op@,
        decreases spent@.len() - j,
    {
        if spent[j] == *op {
            return true;
        }
        j = j + 1;
    }
    false
}

/// The outpoints in a list of outpoints, as a set of values.
pub open spec fn outpoint_set(s: Seq<OutPoint>) -> Set<OutPointModel> {
    s.map_values(|o: OutPoint| o@).to_set()
}

/// Record the outpoints spent by `tx` in `spent`, stopping at the first
/// one already recorded (by an earlier transaction or an earlier input),
/// which is returned.
fn record_spends(spent: &mut Vec<OutPoint>, tx: &Transaction) -> (r: Option<OutPoint>)
    ensures
        r matches Some(op) ==> first_double_spend(
            tx@.inputs,
            outpoint_set(old(spent)@),
            tx@.inputs.len() as int,
        ) == Some(op@),
        r is None ==> first_double_spend(
            tx@.inputs,
            outpoint_set(old(spent)@),
            tx@.inputs.len() as int,
        ) is None && outpoint_set(final(spent)@) == outpoint_set(old(spent)@).union(
            spent_outpoints(tx@.inputs),
        ),
{
    let ghost before = spent@;
    let ghost prior = outpoint_set(before);
    let m = tx.inputs.len();
    let mut j: usize = 0;
    while j < m
        invariant
            m == tx.inputs@.len(),
            before == old(spent)@,
            prior == outpoint_set(before),
            j <= m,
            spent@ == before + tx.inputs@.take(j as int).map_values(|t: TxInput| t.previous_output),
            first_double_spend(tx@.inputs, prior, j as int) is None,
        decreases m - j,
    {
        let op = tx.inputs[j].previous_output;
        assert(tx@.inputs[j as int].previous_output == op@);
        if contains_outpoint(spent, &op) {
            proof {
                let sv = spent@;
                let w = choose|w: int| 0 <= w < sv.len() && (#[trigger] sv[w])@ == op@;
                if w < before.len() {
                    assert(before[w] == sv[w]);
                    assert(before.map_values(|o: OutPoint| o@)[w] == op@);
                    assert(prior.contains(op@));
                } else {
                    let t = w - before.len();
                    assert(sv[w] == tx.inputs@[t].previous_output);
                    assert(tx@.inputs[t].previous_output == op@);
                }
                assert(first_double_spend(tx@.inputs, prior, j + 1) == Some(op@));
                lemma_first_double_spend_stable(tx@.inputs, prior, j + 1, m as int);
            }
            return Some(op);
        }
        proof {
            assert forall|w: int| 0 <= w < j implies #[trigger] tx@.inputs[w].previous_output
                != op@ by {
                assert(spent@[before.len() + w] == tx.inputs@[w].previous_output);
            }
            assert forall|x: OutPointModel| prior.contains(x) implies x != op@ by {
                let bv = before.map_values(|o: OutPoint| o@);
                let w = choose|w: int| 0 <= w < bv.len() && bv[w] == x;
                assert(spent@[w] == before[w]);
            }
        }
        spent.push(op);
        proof {
            assert(spent@ =~= before + tx.inputs@.take(j + 1).map_values(
                |t: TxInput| t.previous_output,
            ));
        }
        j = j + 1;
    }
    proof {
        assert(tx.inputs@.take(m as int) =~= tx.inputs@);
        let after = spent@.map_values(|o: OutPoint| o@);
        let bv = before.map_values(|o: OutPoint| o@);
        let iv = tx@.inputs.map_values(|t: InputModel| t.previous_output);
        assert forall|x: OutPointModel| after.to_set().contains(x) <==> prior.union(
            spent_outpoints(tx@.inputs),
        ).contains(x) by {
            if after.to_set().contains(x) {
                let w = choose|w: int| 0 <= w < after.len() && after[w] == x;
                if w < before.len() {
                    assert(bv[w] == x);
                    assert(bv.to_set().contains(x));
                } else {
                    assert(iv[w - before.len()] == x);
                    assert(iv.to_set().contains(x));
                }
            }
            if prior.union(spent_outpoints(tx@.inputs)).contains(x) {
                if prior.contains(x) {
                    let w = choose|w: int| 0 <= w < bv.len() && bv[w] == x;
                    assert(after[w] == x);
                } else {
                    assert(iv.to_set().contains(x));
                    let w = choose|w: int| 0 <= w < iv.len() && iv[w] == x;
                    assert(after[before.len() + w] == x);
                }
            }
        }
        assert(after.to_set() =~= prior.union(spent_outpoints(tx@.inputs)));
    }
    None
}

/// Validate a block against the chain state, given for each transaction
/// `i` the outputs its inputs spend (`utxos[i]`; missing entries are
/// unknown outputs). Spending an output created in the same block is not
/// permitted.
#[verifier::loop_isolation(false)]
pub fn validate_block_with_utxos(
    block: &Block,
    context: &BlockContext,
    utxos: &[Vec<Option<UtxoEntry>>],
) -> (r: Result<ValidatedBlock, BlockError>)
    ensures
        block_result_view(r) == spec_validate_block(
            block@,
            *context,
            utxos@.map_values(|v: Vec<Option<UtxoEntry>>| v@),
        ),
{
    let ghost looked = utxos@.map_values(|v: Vec<Option<UtxoEntry>>| v@);
    match validate_block_structure(block) {
        Ok(()) => {},
        Err(e) => {
            return Err(e);
        },
    }
    if !(block.header.prev_hash == context.prev_hash) {
        return Err(BlockError::InvalidPrevHash);
    }
    if block.header.difficulty_target != context.expected_difficulty {
        return Err(
            BlockError::InvalidDifficulty {
                got: block.header.difficulty_target,
                expected: context.expected_difficulty,
            },
        );
    }
    if block.header.timestamp <= context.prev_timestamp {
        return Err(BlockError::TimestampNotAfterParent);
    }
    let max_time = context.current_time.saturating_add(MAX_FUTURE_BLOCK_TIME);
    if block.header.timestamp > max_time {
        return Err(
            BlockError::TimestampTooFar(
                (block.header.timestamp as i64).wrapping_sub(context.current_time as i64),
            ),
        );
    }
    let n = block.transactions.len();
    let ghost txs = block@.transactions;
    let mut spent: Vec<OutPoint> = Vec::new();
    let mut total_fees: u64 = 0;
    let mut i: usize = 1;
    while i < n
        invariant
            n == block.transactions@.len(),
            txs == block@.transactions,
            looked == utxos@.map_values(|v: Vec<Option<UtxoEntry>>| v@),
            1 <= i <= n,
            body_checks(txs, context.height, looked, i as int) == Ok::<int, BlockErr>(
                total_fees as int,
            ),
            outpoint_set(spent@) == spent_before(txs, i as int),
        decreases n - i,
    {
        let tx = &block.transactions[i];
        assert(txs[i as int] == tx@);
        match record_spends(&mut spent, tx) {
            Some(op) => {
                proof {
                    assert(body_checks(txs, context.height, looked, i + 1) == Err::<int, BlockErr>(
                        BlockErr::DoubleSpend(outpoint_text(op@)),
                    ));
                    lemma_body_checks_stable(txs, context.height, looked, i + 1, n as int);
                }
                return Err(BlockError::DoubleSpend(op.to_text()));
            },
            None => {},
        }
        let empty: Vec<Option<UtxoEntry>> = Vec::new();
        let lookups: &[Option<UtxoEntry>] = if i < utxos.len() {
            utxos[i].as_slice()
        } else {
            empty.as_slice()
        };
        proof {
            assert(lookups@ == lookups_for(looked, i as int));
        }
        let validated = match validate_transaction_with_utxos(tx, lookups, context.height) {
            Ok(v) => v,
            Err(e) => {
                proof {
                    lemma_body_checks_stable(txs, context.height, looked, i + 1, n as int);
                }
                return Err(BlockError::TransactionError { index: i, source: e });
            },
        };
        total_fees = match total_fees.checked_add(validated.fee) {
            Some(t) => t,
            None => {
                proof {
                    lemma_body_checks_stable(txs, context.height, looked, i + 1, n as int);
                }
                return Err(
                    BlockError::TransactionError { index: i, source: TransactionError::ValueOverflow },
                );
            },
        };
        i = i + 1;
    }
    assert(block@.transactions[0] == block.transactions@[0]@);
    let coinbase_value = match block.transactions[0].total_output_value() {
        Some(v) => v,
        None => {
            return Err(
                BlockError::TransactionError { index: 0, source: TransactionError::ValueOverflow },
            );
        },
    };
    let max_reward = match context.block_reward.checked_add(total_fees) {
        Some(v) => v,
        None => {
            return Err(
                BlockError::TransactionError { index: 0, source: TransactionError::ValueOverflow },
            );
        },
    };
    if coinbase_value > max_reward {
        return Err(BlockError::InvalidReward { got: coinbase_value, expected: max_reward });
    }
    Ok(ValidatedBlock { total_fees, coinbase_value })
}

/// Validate a block against the chain state, looking up with `get_utxo`
/// (the state before this block) the output each input spends. The result
/// is that of [`validate_block_with_utxos`] on what the lookups returned.
pub fn validate_block<F>(block: &Block, context: &BlockContext, get_utxo: F) -> (r: Result<
    ValidatedBlock,
    BlockError,
>) where F: Fn(&OutPoint) -> Option<UtxoEntry>
    requires
        forall|op: &OutPoint| get_utxo.requires((op,)),
    ensures
        exists|looked: Seq<Seq<Option<UtxoEntry>>>|
            #[trigger] block_lookups_agree(get_utxo, block.transactions@, looked) && block_result_view(r)
                == spec_validate_block(block@, *context, looked),
{
    let n = block.transactions.len();
    let mut all: Vec<Vec<Option<UtxoEntry>>> = Vec::new();
    let mut i: usize = 0;
    while i < n
        invariant
            n == block.transactions@.len(),
            i <= n,
            all@.len() == i,
            forall|op: &OutPoint| get_utxo.requires((op,)),
            forall|t: int|
                1 <= t < i ==> lookups_agree(
                    get_utxo,
                    block.transactions@[t].inputs@,
                    #[trigger] all@[t]@,
                ),
        decreases n - i,
    {
        let lookups = if i == 0 {
            Vec::new()
        } else {
            lookup_inputs(&block.transactions[i], &get_utxo)
        };
        let ghost before_all = all@;
        all.push(lookups);
        proof {
            assert forall|t: int| 1 <= t < i + 1 implies lookups_agree(
                get_utxo,
                block.transactions@[t].inputs@,
                #[trigger] all@[t]@,
            ) by {
                if t < i {
                    assert(all@[t] == before_all[t]);
                }
            }
        }
        i = i + 1;
    }
    let r = validate_block_with_utxos(block, context, all.as_slice());
    proof {
        let looked = all@.map_values(|v: Vec<Option<UtxoEntry>>| v@);
        assert forall|t: int| 1 <= t < looked.len() implies lookups_agree(
            get_utxo,
            block.transactions@[t].inputs@,
            #[trigger] looked[t],
        ) by {
            assert(looked[t] == all@[t]@);
        }
        assert(block_lookups_agree(get_utxo, block.transactions@, looked));
    }
    r
}

/// `looked[i]` holds, for every transaction `i` after the coinbase, the
/// answers of `get_utxo` for the outputs its inputs spend.
pub open spec fn block_lookups_agree<F: Fn(&OutPoint) -> Option<UtxoEntry>>(
    get_utxo: F,
    txs: Seq<Transaction>,
    looked: Seq<Seq<Option<UtxoEntry>>>,
) -> bool {
    &&& looked.len() == txs.len()
    &&& forall|i: int| 1 <= i < looked.len() ==> lookups_agree(get_utxo, txs[i].inputs@, #[trigger] looked[i])
}

} // verus!
