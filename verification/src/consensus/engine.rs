//! The consensus engine: block templates, difficulty, rewards and block
//! validation against a chain state and a decay calculator.
//!
//! The engine reads the chain through [`ChainState`] and the decay pool
//! release through [`DecayCalculator`]. Those traits promise nothing, so
//! each step that depends on what they return is also offered as a verified
//! function that takes those answers as arguments: [`reward_with_release`],
//! [`select_pending`] and [`assemble_template`].

use vstd::prelude::*;

use std::sync::Arc;

use crate::block_validation::{
    block_result_view, block_txids, check_pow, header_meets_target, pow_prefix, outpoint_set, pow_value, spec_check_pow,
    spec_validate_block, spent_outpoints, validate_block, BlockContext,
};
use crate::difficulty::{spec_next_target, target_for_height_with_initial, window_start};
use crate::chain_state::copy_transaction;
use crate::constants::{MAX_COINBASE_DATA, TESTNET_INITIAL_TARGET};
use crate::error::{BlockErr, BlockError, DecayError, RillError};
use crate::merkle::{hv, merkle_root, merkle_root_spec};
use crate::reward::{block_reward, spec_block_reward};
use crate::traits::{BlockProducer, ChainState, DecayCalculator};
use crate::types::{
    header_layout, le_bytes, outputs_sum, spec_header_hash, spec_is_coinbase, spec_is_mature, write_le, zero_bytes,
    Block, BlockHeader, BlockModel, Hash256, InputModel, OutPoint, OutPointModel, OutputModel,
    Transaction, TxInput, TxModel, TxOutput, UtxoEntry,
};

verus! {

/// A source of the current time in Unix seconds.
pub trait TimeSource: Send + Sync {
    /// The current time in Unix seconds.
    fn now_secs(&self) -> u64;
}

/// Reads the system clock through `std::time::SystemTime::now`, as whole
/// seconds since the Unix epoch (0 for a clock set before it). Nothing is
/// claimed of the value.
#[verifier::external_body]
fn unix_time_secs() -> u64 {
    match std::time::SystemTime::now().duration_since(std::time::UNIX_EPOCH) {
        Ok(d) => d.as_secs(),
        Err(_) => 0,
    }
}

/// The system clock.
pub struct SystemClock;

impl TimeSource for SystemClock {
    fn now_secs(&self) -> u64 {
        unix_time_secs()
    }
}

/// A clock given as a closure.
pub struct FnClock<F: Fn() -> u64 + Send + Sync> {
    f: F,
}

impl<F: Fn() -> u64 + Send + Sync> FnClock<F> {
    /// The closure can always be called.
    #[verifier::type_invariant]
    closed spec fn callable(&self) -> bool {
        call_requires(self.f, ())
    }

    /// The closure the clock reads.
    pub closed spec fn reader(&self) -> F {
        self.f
    }

    /// A clock reading the closure `f`.
    pub fn new(f: F) -> (r: Self)
        requires
            call_requires(f, ()),
        ensures
            r.reader() == f,
    {
        FnClock { f }
    }
}

impl<F: Fn() -> u64 + Send + Sync> TimeSource for FnClock<F> {
    /// What the closure returns.
    fn now_secs(&self) -> (r: u64)
        ensures
            call_ensures(self.reader(), (), r),
    {
        proof {
            use_type_invariant(self);
        }
        (self.f)()
    }
}

/// `a + b`, or `u64::MAX` when that overflows.
pub open spec fn sat_add(a: u64, b: u64) -> u64 {
    if a + b > u64::MAX {
        u64::MAX
    } else {
        (a + b) as u64
    }
}

/// The height after `tip_height` (0 past `u64::MAX`).
pub open spec fn next_height(tip_height: u64) -> u64 {
    if tip_height == u64::MAX {
        0
    } else {
        (tip_height + 1) as u64
    }
}

/// The total reward at `height`: the base reward plus the pool release,
/// a failed release counting as zero, saturating at `u64::MAX`.
pub open spec fn spec_reward_with_release(height: u64, release: Result<u64, DecayError>) -> u64 {
    sat_add(
        spec_block_reward(height),
        match release {
            Ok(v) => v,
            Err(_) => 0,
        },
    )
}

/// Total reward at `height` given the decay pool release.
pub fn reward_with_release(height: u64, release: Result<u64, DecayError>) -> (r: u64)
    ensures
        r == spec_reward_with_release(height, release),
{
    let base = block_reward(height);
    let pool = match release {
        Ok(v) => v,
        Err(_) => 0,
    };
    base.saturating_add(pool)
}

/// The value of the first `n` inputs when each spends an outpoint not yet
/// spent by the template, was found (`ans[j]`), is mature at `height`, and
/// the running sum fits in a `u64`; `None` at the first that fails.
pub open spec fn input_total(
    ins: Seq<InputModel>,
    ans: Seq<Option<UtxoEntry>>,
    spent: Set<OutPointModel>,
    height: u64,
    n: nat,
) -> Option<u64>
    decreases n,
{
    if n == 0 {
        Some(0)
    } else {
        match input_total(ins, ans, spent, height, (n - 1) as nat) {
            None => None,
            Some(s) => {
                let op = ins[n - 1].previous_output;
                if spent.contains(op) || n - 1 >= ans.len() {
                    None
                } else {
                    match ans[n - 1] {
                        None => None,
                        Some(u) => if !spec_is_mature(u, height) || s + u.output.value > u64::MAX {
                            None
                        } else {
                            Some((s + u.output.value) as u64)
                        },
                    }
                }
            },
        }
    }
}

/// The fee of a pending transaction if the template can include it: not a
/// coinbase, all inputs acceptable, outputs not above inputs.
pub open spec fn tx_fee(tx: TxModel, ans: Seq<Option<UtxoEntry>>, spent: Set<OutPointModel>, height: u64) -> Option<u64> {
    if spec_is_coinbase(tx) {
        None
    } else {
        match input_total(tx.inputs, ans, spent, height, tx.inputs.len()) {
            None => None,
            Some(total) => if outputs_sum(tx.outputs) <= total {
                Some((total - outputs_sum(tx.outputs)) as u64)
            } else {
                None
            },
        }
    }
}

/// The transactions a template includes, the outpoints they spend and their
/// total fee (saturating).
pub ghost struct Selection {
    pub txs: Seq<TxModel>,
    pub spent: Set<OutPointModel>,
    pub fees: u64,
}

/// The selection after considering the first `k` pending transactions,
/// `answers[i]` being the UTXO lookups made for transaction `i`.
pub open spec fn select_upto(
    pending: Seq<TxModel>,
    answers: Seq<Seq<Option<UtxoEntry>>>,
    height: u64,
    k: nat,
) -> Selection
    decreases k,
{
    if k == 0 {
        Selection { txs: Seq::empty(), spent: Set::empty(), fees: 0 }
    } else {
        let prev = select_upto(pending, answers, height, (k - 1) as nat);
        let tx = pending[k - 1];
        match tx_fee(tx, answers[k - 1], prev.spent, height) {
            None => prev,
            Some(fee) => Selection {
                txs: prev.txs.push(tx),
                spent: prev.spent.union(spent_outpoints(tx.inputs)),
                fees: sat_add(prev.fees, fee),
            },
        }
    }
}

/// The transactions as values.
pub open spec fn tx_models(s: Seq<Transaction>) -> Seq<TxModel> {
    s.map_values(|t: Transaction| t@)
}

/// `ans[j]` is an answer of `get_utxo` for input `j` of `tx`.
pub open spec fn answers_fit<F: Fn(&OutPoint) -> Option<UtxoEntry>>(
    get_utxo: F,
    tx: Transaction,
    ans: Seq<Option<UtxoEntry>>,
) -> bool {
    &&& ans.len() <= tx.inputs@.len()
    &&& forall|j: int|
        0 <= j < ans.len() ==> get_utxo.ensures((&tx.inputs@[j].previous_output,), #[trigger] ans[j])
}

/// `answers[i]` are answers of `get_utxo` for the inputs of pending
/// transaction `i`.
pub open spec fn answers_agree<F: Fn(&OutPoint) -> Option<UtxoEntry>>(
    get_utxo: F,
    pending: Seq<Transaction>,
    answers: Seq<Seq<Option<UtxoEntry>>>,
) -> bool {
    &&& answers.len() == pending.len()
    &&& forall|i: int| 0 <= i < answers.len() ==> answers_fit(get_utxo, pending[i], #[trigger] answers[i])
}

/// Once an input fails, the total stays `None`.
proof fn lemma_input_total_stops(
    ins: Seq<InputModel>,
    ans: Seq<Option<UtxoEntry>>,
    spent: Set<OutPointModel>,
    height: u64,
    k: nat,
    n: nat,
)
    requires
        k <= n,
        input_total(ins, ans, spent, height, k) is None,
    ensures
        input_total(ins, ans, spent, height, n) is None,
    decreases n,
{
    if n > k {
        lemma_input_total_stops(ins, ans, spent, height, k, (n - 1) as nat);
    }
}

/// `input_total` only reads the answers below `n`.
proof fn lemma_input_total_prefix(
    ins: Seq<InputModel>,
    ans: Seq<Option<UtxoEntry>>,
    more: Seq<Option<UtxoEntry>>,
    spent: Set<OutPointModel>,
    height: u64,
    n: nat,
)
    requires
        n <= ans.len(),
        ans == more.take(ans.len() as int),
        ans.len() <= more.len(),
    ensures
        input_total(ins, ans, spent, height, n) == input_total(ins, more, spent, height, n),
    decreases n,
{
    if n > 0 {
        lemma_input_total_prefix(ins, ans, more, spent, height, (n - 1) as nat);
        assert(ans[n - 1] == more[n - 1]);
    }
}

/// Whether `op` occurs in `spent`.
fn spends_recorded(spent: &Vec<OutPoint>, op: &OutPoint) -> (r: bool)
    ensures
        r == outpoint_set(spent@).contains(op@),
{
    let mut j: usize = 0;
    while j < spent.len()
        invariant
            j <= spent@.len(),
            forall|m: int| 0 <= m < j ==> (#[trigger] spent@[m])@ != op@,
        decreases spent@.len() - j,
    {
        if spent[j] == *op {
            proof {
                assert(spent@.map_values(|o: OutPoint| o@)[j as int] == op@);
            }
            return true;
        }
        j = j + 1;
    }
    proof {
        let sv = spent@.map_values(|o: OutPoint| o@);
        if sv.to_set().contains(op@) {
            let w = choose|w: int| 0 <= w < sv.len() && #[trigger] sv[w] == op@;
            assert(spent@[w]@ == op@);
        }
    }
    false
}

/// Record the outpoints spent by the inputs of `tx`.
fn record_inputs(spent: &mut Vec<OutPoint>, tx: &Transaction)
    ensures
        outpoint_set(final(spent)@) == outpoint_set(old(spent)@).union(spent_outpoints(tx@.inputs)),
{
    let ghost before = spent@;
    let mut j: usize = 0;
    while j < tx.inputs.len()
        invariant
            j <= tx.inputs@.len(),
            before == old(spent)@,
            spent@ == before + tx.inputs@.take(j as int).map_values(|t: TxInput| t.previous_output),
        decreases tx.inputs@.len() - j,
    {
        spent.push(tx.inputs[j].previous_output);
        proof {
            assert(spent@ =~= before + tx.inputs@.take(j + 1).map_values(
                |t: TxInput| t.previous_output,
            ));
        }
        j = j + 1;
    }
    proof {
        assert(tx.inputs@.take(tx.inputs@.len() as int) =~= tx.inputs@);
        let after = spent@.map_values(|o: OutPoint| o@);
        let bv = before.map_values(|o: OutPoint| o@);
        let iv = tx@.inputs.map_values(|t: InputModel| t.previous_output);
        assert forall|x: OutPointModel| after.to_set().contains(x) <==> outpoint_set(before).union(
            spent_outpoints(tx@.inputs),
        ).contains(x) by {
            if after.to_set().contains(x) {
                let w = choose|w: int| 0 <= w < after.len() && after[w] == x;
                if w < before.len() {
                    assert(bv[w] == x);
                    assert(bv.to_set().contains(x));
                } else {
                    assert(iv[w - before.len()] == x);
                    assert(iv.to_set().contains(x));
                }
            }
            if outpoint_set(before).union(spent_outpoints(tx@.inputs)).contains(x) {
                if bv.to_set().contains(x) {
                    let w = choose|w: int| 0 <= w < bv.len() && bv[w] == x;
                    assert(after[w] == x);
                } else {
                    assert(iv.to_set().contains(x));
                    let w = choose|w: int| 0 <= w < iv.len() && iv[w] == x;
                    assert(after[before.len() + w] == x);
                }
            }
        }
        assert(outpoint_set(spent@) =~= outpoint_set(before).union(spent_outpoints(tx@.inputs)));
    }
}

/// Decide whether the template can include `tx`, looking up the outputs its
/// inputs spend with `get_utxo`; returns its fee and the answers it got.
fn evaluate_pending<F>(tx: &Transaction, spent: &Vec<OutPoint>, height: u64, get_utxo: &F) -> (r: (
    Option<u64>,
    Ghost<Seq<Option<UtxoEntry>>>,
)) where F: Fn(&OutPoint) -> Option<UtxoEntry>
    requires
        forall|op: &OutPoint| get_utxo.requires((op,)),
    ensures
        answers_fit(*get_utxo, *tx, r.1@),
        r.0 == tx_fee(tx@, r.1@, outpoint_set(spent@), height),
{
    let ghost sset = outpoint_set(spent@);
    if tx.is_coinbase() {
        return (None, Ghost(Seq::empty()));
    }
    let ghost mut ans: Seq<Option<UtxoEntry>> = Seq::empty();
    let mut total: u64 = 0;
    let mut j: usize = 0;
    while j < tx.inputs.len()
        invariant
            j <= tx.inputs@.len(),
            sset == outpoint_set(spent@),
            forall|op: &OutPoint| get_utxo.requires((op,)),
            ans.len() == j,
            forall|m: int|
                0 <= m < ans.len() ==> get_utxo.ensures(
                    (&tx.inputs@[m].previous_output,),
                    #[trigger] ans[m],
                ),
            input_total(tx@.inputs, ans, sset, height, j as nat) == Some(total),
        decreases tx.inputs@.len() - j,
    {
        let op = &tx.inputs[j].previous_output;
        assert(tx@.inputs[j as int].previous_output == op@);
        if spends_recorded(spent, op) {
            proof {
                lemma_input_total_stops(tx@.inputs, ans, sset, height, (j + 1) as nat, tx@.inputs.len());
            }
            return (None, Ghost(ans));
        }
        let found = get_utxo(op);
        let ghost prev = ans;
        proof {
            ans = ans.push(found);
            assert(prev =~= ans.take(prev.len() as int));
            lemma_input_total_prefix(tx@.inputs, prev, ans, sset, height, j as nat);
        }
        match found {
            None => {
                proof {
                    lemma_input_total_stops(tx@.inputs, ans, sset, height, (j + 1) as nat, tx@.inputs.len());
                }
                return (None, Ghost(ans));
            },
            Some(u) => {
                if !u.is_mature(height) {
                    proof {
                        lemma_input_total_stops(tx@.inputs, ans, sset, height, (j + 1) as nat, tx@.inputs.len());
                    }
                    return (None, Ghost(ans));
                }
                match total.checked_add(u.output.value) {
                    Some(v) => {
                        total = v;
                    },
                    None => {
                        proof {
                            lemma_input_total_stops(tx@.inputs, ans, sset, height, (j + 1) as nat, tx@.inputs.len());
                        }
                        return (None, Ghost(ans));
                    },
                }
            },
        }
        j = j + 1;
    }
    match tx.total_output_value() {
        Some(out) => {
            if out <= total {
                (Some(total - out), Ghost(ans))
            } else {
                (None, Ghost(ans))
            }
        },
        None => (None, Ghost(ans)),
    }
}

/// Choose the pending transactions a template includes, in order: each must
/// not be a coinbase, must spend only outpoints that `get_utxo` finds,
/// that are mature at `height` and not spent by an earlier included
/// transaction, and must not create more value than it spends. Returns the
/// included transactions and their total fee (saturating).
pub fn select_pending<F>(pending: &[Transaction], height: u64, get_utxo: &F) -> (r: (
    Vec<Transaction>,
    u64,
)) where F: Fn(&OutPoint) -> Option<UtxoEntry>
    requires
        forall|op: &OutPoint| get_utxo.requires((op,)),
    ensures
        exists|answers: Seq<Seq<Option<UtxoEntry>>>|
            #[trigger] answers_agree(*get_utxo, pending@, answers) && tx_models(r.0@) == select_upto(
                tx_models(pending@),
                answers,
                height,
                pending@.len(),
            ).txs && r.1 == select_upto(tx_models(pending@), answers, height, pending@.len()).fees,
{
    let mut included: Vec<Transaction> = Vec::new();
    let mut spent: Vec<OutPoint> = Vec::new();
    let mut fees: u64 = 0;
    let ghost mut answers: Seq<Seq<Option<UtxoEntry>>> = Seq::empty();
    let ghost models = tx_models(pending@);
    let mut i: usize = 0;
    proof {
        assert(tx_models(included@) =~= Seq::<TxModel>::empty());
        assert(outpoint_set(spent@) =~= Set::<OutPointModel>::empty());
    }
    while i < pending.len()
        invariant
            i <= pending@.len(),
            models == tx_models(pending@),
            forall|op: &OutPoint| get_utxo.requires((op,)),
            answers.len() == i,
            forall|a: int| 0 <= a < answers.len() ==> answers_fit(*get_utxo, pending@[a], #[trigger] answers[a]),
            tx_models(included@) == select_upto(models, answers, height, i as nat).txs,
            outpoint_set(spent@) == select_upto(models, answers, height, i as nat).spent,
            fees == select_upto(models, answers, height, i as nat).fees,
        decreases pending@.len() - i,
    {
        let tx = &pending[i];
        let (fee, ans) = evaluate_pending(tx, &spent, height, get_utxo);
        let ghost prev_answers = answers;
        proof {
            answers = answers.push(ans@);
            assert forall|k: nat| k <= i implies select_upto(models, answers, height, k) == select_upto(
                models,
                prev_answers,
                height,
                k,
            ) by {
                lemma_select_prefix(models, prev_answers, answers, height, k);
            }
            assert(models[i as int] == tx@);
            assert(pending@[i as int] == *tx);
            assert forall|a: int| 0 <= a < answers.len() implies answers_fit(*get_utxo, pending@[a], #[trigger] answers[a]) by {
                if a < i {
                    assert(answers[a] == prev_answers[a]);
                }
            }
        }
        match fee {
            Some(f) => {
                let ghost before = tx_models(included@);
                record_inputs(&mut spent, tx);
                fees = fees.saturating_add(f);
                included.push(copy_transaction(tx));
                proof {
                    assert(tx_models(included@) =~= before.push(tx@));
                }
            },
            None => {},
        }
        i = i + 1;
    }
    proof {
        assert(answers_agree(*get_utxo, pending@, answers));
    }
    (included, fees)
}

/// The selection over the first `k` transactions only reads their answers.
proof fn lemma_select_prefix(
    pending: Seq<TxModel>,
    a: Seq<Seq<Option<UtxoEntry>>>,
    b: Seq<Seq<Option<UtxoEntry>>>,
    height: u64,
    k: nat,
)
    requires
        k <= a.len(),
        a.len() <= b.len(),
        forall|i: int| 0 <= i < a.len() ==> a[i] == b[i],
    ensures
        select_upto(pending, a, height, k) == select_upto(pending, b, height, k),
    decreases k,
{
    if k > 0 {
        lemma_select_prefix(pending, a, b, height, (k - 1) as nat);
        assert(a[k - 1] == b[k - 1]);
    }
}


/// The coinbase of a template at `height` paying `value` to `pkh`: its one
/// input spends the null outpoint and carries the height's 8 little-endian
/// bytes; its lock time is the height.
pub open spec fn template_coinbase(pkh: Seq<u8>, height: u64, value: u64) -> TxModel {
    TxModel {
        version: 1,
        inputs: seq![
            InputModel {
                previous_output: OutPointModel { txid: zero_bytes(), index: u64::MAX },
                signature: le_bytes(height, 8),
                public_key: Seq::empty(),
            },
        ],
        outputs: seq![OutputModel { value, pubkey_hash: pkh }],
        lock_time: height,
    }
}

/// The timestamp of a template: the requested one if it is after the
/// parent's, else one second after the parent's (the requested one past
/// `u64::MAX`).
pub open spec fn template_time(requested: u64, parent: u64) -> u64 {
    if parent == u64::MAX || requested > parent {
        requested
    } else {
        (parent + 1) as u64
    }
}

/// Whether `b` is the template at `height` on top of `tip_hash` whose
/// coinbase pays `reward + fees` to `pkh`, followed by `txs`.
pub open spec fn is_template(
    b: BlockModel,
    pkh: Seq<u8>,
    requested: u64,
    tip_hash: Hash256,
    height: u64,
    parent_timestamp: u64,
    difficulty: u64,
    reward: u64,
    txs: Seq<TxModel>,
    fees: u64,
) -> bool {
    &&& reward + fees <= u64::MAX
    &&& b.transactions == seq![template_coinbase(pkh, height, (reward + fees) as u64)] + txs
    &&& b.header.version == 1
    &&& b.header.prev_hash == tip_hash
    &&& b.header.merkle_root@ == merkle_root_spec(block_txids(b.transactions))
    &&& b.header.timestamp == template_time(requested, parent_timestamp)
    &&& b.header.difficulty_target == difficulty
    &&& b.header.nonce == 0
}

/// `a` is what the chain state's `get_utxo` may answer for `op`, an error
/// or an unknown output read as `None`.
pub open spec fn utxo_answer<C: ChainState>(cs: C, op: OutPoint, a: Option<UtxoEntry>) -> bool {
    exists|g: Result<Option<UtxoEntry>, RillError>|
        call_ensures(C::get_utxo, (&cs, &op), g) && a == match g {
            Ok(Some(u)) => Some(u),
            _ => None::<UtxoEntry>,
        }
}

/// `answers[i][j]` is a `get_utxo` answer for input `j` of pending
/// transaction `i` (the lookups of a transaction stop at its first failure).
pub open spec fn pending_answers<C: ChainState>(
    cs: C,
    pending: Seq<Transaction>,
    answers: Seq<Seq<Option<UtxoEntry>>>,
) -> bool {
    &&& answers.len() == pending.len()
    &&& forall|i: int| 0 <= i < answers.len() ==> (#[trigger] answers[i]).len() <= pending[i].inputs@.len()
    &&& forall|i: int, j: int|
        0 <= i < answers.len() && 0 <= j < answers[i].len() ==> utxo_answer(
            cs,
            pending[i].inputs@[j].previous_output,
            #[trigger] answers[i][j],
        )
}

/// `looked[i][j]` is a `get_utxo` answer for input `j` of every
/// transaction `i` after the coinbase.
pub open spec fn block_answers<C: ChainState>(
    cs: C,
    txs: Seq<Transaction>,
    looked: Seq<Seq<Option<UtxoEntry>>>,
) -> bool {
    &&& looked.len() == txs.len()
    &&& forall|i: int| 1 <= i < looked.len() ==> (#[trigger] looked[i]).len() == txs[i].inputs@.len()
    &&& forall|i: int, j: int|
        1 <= i < looked.len() && 0 <= j < looked[i].len() ==> utxo_answer(
            cs,
            txs[i].inputs@[j].previous_output,
            #[trigger] looked[i][j],
        )
}

/// `r` is the total reward at `height` given what the chain state answers
/// for the pool balance and what the decay calculator releases from it.
pub open spec fn reward_answer<C: ChainState, D: DecayCalculator>(
    cs: C,
    d: D,
    height: u64,
    r: Result<u64, BlockError>,
) -> bool {
    exists|pb: Result<u64, RillError>|
        call_ensures(C::decay_pool_balance, (&cs,), pb) && match pb {
            Err(_) => r == Err::<u64, BlockError>(BlockError::InvalidReward { got: 0, expected: 0 }),
            Ok(b) => exists|rel: Result<u64, DecayError>|
                call_ensures(D::decay_pool_release, (&d, b), rel) && r == Ok::<u64, BlockError>(
                    spec_reward_with_release(height, rel),
                ),
        }
}

/// `t` is the timestamp of the block that the chain state names at
/// `height`, or 0 when the hash or header cannot be read.
pub open spec fn timestamp_answer<C: ChainState>(cs: C, height: u64, t: u64) -> bool {
    exists|bh: Result<Option<Hash256>, RillError>|
        call_ensures(C::get_block_hash, (&cs, height), bh) && match bh {
            Ok(Some(hash)) => exists|hd: Result<Option<BlockHeader>, RillError>|
                call_ensures(C::get_block_header, (&cs, &hash), hd) && t == match hd {
                    Ok(Some(h)) => h.timestamp,
                    _ => 0u64,
                },
            _ => t == 0,
        }
}

/// `r` is the difficulty target at `height`: the initial target up to
/// height 1; above, the retarget of the parent's target (the header of the
/// block the chain state names at `height - 1`) over the window's
/// timestamps, or `InvalidPrevHash` when the parent cannot be read.
pub open spec fn difficulty_answer<C: ChainState>(
    cs: C,
    initial: u64,
    height: u64,
    r: Result<u64, BlockError>,
) -> bool {
    if height <= 1 {
        r == Ok::<u64, BlockError>(initial)
    } else {
        exists|bh: Result<Option<Hash256>, RillError>|
            call_ensures(C::get_block_hash, (&cs, (height - 1) as u64), bh) && match bh {
                Ok(Some(hash)) => exists|hd: Result<Option<BlockHeader>, RillError>|
                    call_ensures(C::get_block_header, (&cs, &hash), hd) && match hd {
                        Ok(Some(p)) => exists|ts: Seq<u64>|
                            ts.len() == height - window_start(height) && (forall|i: int|
                                0 <= i < ts.len() ==> timestamp_answer(
                                    cs,
                                    (window_start(height) + i) as u64,
                                    #[trigger] ts[i],
                                )) && r == Ok::<u64, BlockError>(
                                spec_next_target(ts, p.difficulty_target),
                            ),
                        _ => r == Err::<u64, BlockError>(BlockError::InvalidPrevHash),
                    },
                _ => r == Err::<u64, BlockError>(BlockError::InvalidPrevHash),
            }
    }
}

/// The template built from `pending` on the tip `(tip_height, tip_hash)`
/// with the parent's timestamp, the difficulty, the reward and the UTXO
/// answers: `InvalidReward` when reward plus fees overflows, else the block.
pub open spec fn template_result(
    r: Result<Block, BlockError>,
    pkh: Seq<u8>,
    requested: u64,
    pending: Seq<TxModel>,
    tip_height: u64,
    tip_hash: Hash256,
    parent_timestamp: u64,
    difficulty: u64,
    reward: u64,
    answers: Seq<Seq<Option<UtxoEntry>>>,
) -> bool {
    let height = next_height(tip_height);
    let sel = select_upto(pending, answers, height, pending.len());
    if reward + sel.fees > u64::MAX {
        r == Err::<Block, BlockError>(BlockError::InvalidReward { got: u64::MAX, expected: reward })
    } else {
        r matches Ok(b) && is_template(
            b@,
            pkh,
            requested,
            tip_hash,
            height,
            parent_timestamp,
            difficulty,
            reward,
            sel.txs,
            sel.fees,
        )
    }
}

/// What building a template from `pending` gives, following the chain
/// state's answers in the order they are asked: the tip (else
/// `InvalidPrevHash`), the reward at the next height (else its error), the
/// difficulty there (else its error), the tip's header (else
/// `InvalidPrevHash`), then the UTXOs of the pending inputs.
pub open spec fn template_outcome<C: ChainState, D: DecayCalculator>(
    cs: C,
    d: D,
    initial: u64,
    pkh: Seq<u8>,
    requested: u64,
    pending: Seq<Transaction>,
    r: Result<Block, BlockError>,
) -> bool {
    exists|ct: Result<(u64, Hash256), RillError>|
        call_ensures(C::chain_tip, (&cs,), ct) && match ct {
            Err(_) => r == Err::<Block, BlockError>(BlockError::InvalidPrevHash),
            Ok((th, tip)) => exists|tr: Result<u64, BlockError>|
                reward_answer(cs, d, next_height(th), tr) && match tr {
                    Err(e) => r == Err::<Block, BlockError>(e),
                    Ok(reward) => exists|dt: Result<u64, BlockError>|
                        difficulty_answer(cs, initial, next_height(th), dt) && match dt {
                            Err(e) => r == Err::<Block, BlockError>(e),
                            Ok(diff) => exists|ph: Result<Option<BlockHeader>, RillError>|
                                call_ensures(C::get_block_header, (&cs, &tip), ph) && match ph {
                                    Ok(Some(p)) => exists|answers: Seq<Seq<Option<UtxoEntry>>>|
                                        pending_answers(cs, pending, answers) && template_result(
                                            r,
                                            pkh,
                                            requested,
                                            tx_models(pending),
                                            th,
                                            tip,
                                            p.timestamp,
                                            diff,
                                            reward,
                                            answers,
                                        ),
                                    _ => r == Err::<Block, BlockError>(BlockError::InvalidPrevHash),
                                },
                        },
                },
        }
}

/// What validating `block` gives, following the chain state's answers in
/// the order they are asked: the tip (else `InvalidPrevHash`), the tip's
/// header (else `InvalidPrevHash`), the difficulty and reward at the next
/// height (else their errors), the clock, then the UTXOs the block's inputs
/// spend; the block is then validated against the context these make.
pub open spec fn validation_outcome<C: ChainState, D: DecayCalculator, T: TimeSource>(
    cs: C,
    d: D,
    clock: T,
    initial: u64,
    block: Block,
    r: Result<(), BlockError>,
) -> bool {
    exists|ct: Result<(u64, Hash256), RillError>|
        call_ensures(C::chain_tip, (&cs,), ct) && match ct {
            Err(_) => r == Err::<(), BlockError>(BlockError::InvalidPrevHash),
            Ok((th, tip)) => exists|ph: Result<Option<BlockHeader>, RillError>|
                call_ensures(C::get_block_header, (&cs, &tip), ph) && match ph {
                    Ok(Some(p)) => exists|dt: Result<u64, BlockError>|
                        difficulty_answer(cs, initial, next_height(th), dt) && match dt {
                            Err(e) => r == Err::<(), BlockError>(e),
                            Ok(diff) => exists|tr: Result<u64, BlockError>|
                                reward_answer(cs, d, next_height(th), tr) && match tr {
                                    Err(e) => r == Err::<(), BlockError>(e),
                                    Ok(reward) => exists|now: u64, looked: Seq<Seq<Option<UtxoEntry>>>|
                                        call_ensures(T::now_secs, (&clock,), now) && block_answers(
                                            cs,
                                            block.transactions@,
                                            looked,
                                        ) && validation_result(
                                            r,
                                            spec_validate_block(
                                                block@,
                                                BlockContext {
                                                    height: next_height(th),
                                                    prev_hash: tip,
                                                    prev_timestamp: p.timestamp,
                                                    expected_difficulty: diff,
                                                    current_time: now,
                                                    block_reward: reward,
                                                },
                                                looked,
                                            ),
                                        ),
                                },
                        },
                    _ => r == Err::<(), BlockError>(BlockError::InvalidPrevHash),
                },
        }
}

/// `r` reports the validation result `v`.
pub open spec fn validation_result(
    r: Result<(), BlockError>,
    v: Result<crate::block_validation::ValidatedBlock, BlockErr>,
) -> bool {
    match r {
        Ok(()) => v is Ok,
        Err(e) => v == Err::<crate::block_validation::ValidatedBlock, BlockErr>(e@),
    }
}

/// Assemble a block template: a coinbase paying `total_reward + total_fees`
/// to `coinbase_pubkey_hash`, then `included`, under a header on top of
/// `tip_hash` with the merkle root of all txids. Fails with `InvalidReward`
/// when the coinbase value overflows.
pub fn assemble_template(
    coinbase_pubkey_hash: &Hash256,
    timestamp: u64,
    tip_hash: Hash256,
    height: u64,
    parent_timestamp: u64,
    difficulty_target: u64,
    total_reward: u64,
    total_fees: u64,
    included: Vec<Transaction>,
) -> (r: Result<Block, BlockError>)
    ensures
        total_reward + total_fees > u64::MAX ==> r == Err::<Block, BlockError>(
            (BlockError::InvalidReward { got: u64::MAX, expected: total_reward }),
        ),
        total_reward + total_fees <= u64::MAX ==> (r matches Ok(b) && is_template(
            b@,
            coinbase_pubkey_hash@,
            timestamp,
            tip_hash,
            height,
            parent_timestamp,
            difficulty_target,
            total_reward,
            tx_models(included@),
            total_fees,
        )),
{
    let coinbase_value = match total_reward.checked_add(total_fees) {
        Some(v) => v,
        None => {
            return Err(BlockError::InvalidReward { got: u64::MAX, expected: total_reward });
        },
    };
    let block_time = if parent_timestamp == u64::MAX || timestamp > parent_timestamp {
        timestamp
    } else {
        parent_timestamp + 1
    };
    let mut signature: Vec<u8> = Vec::new();
    let len: usize = if 8 < MAX_COINBASE_DATA {
        8
    } else {
        MAX_COINBASE_DATA
    };
    write_le(&mut signature, height, len);
    let mut inputs: Vec<TxInput> = Vec::new();
    inputs.push(TxInput { previous_output: OutPoint::null(), signature, public_key: Vec::new() });
    let mut outputs: Vec<TxOutput> = Vec::new();
    outputs.push(TxOutput { value: coinbase_value, pubkey_hash: *coinbase_pubkey_hash });
    let coinbase = Transaction { version: 1, inputs, outputs, lock_time: height };
    proof {
        assert(signature@ =~= le_bytes(height, 8));
        assert(coinbase@.inputs =~= template_coinbase(coinbase_pubkey_hash@, height, coinbase_value).inputs);
        assert(coinbase@.outputs =~= template_coinbase(coinbase_pubkey_hash@, height, coinbase_value).outputs);
    }
    let mut all: Vec<Transaction> = Vec::new();
    all.push(coinbase);
    let mut k: usize = 0;
    let ghost first = tx_models(all@);
    while k < included.len()
        invariant
            k <= included@.len(),
            first == seq![template_coinbase(coinbase_pubkey_hash@, height, coinbase_value)],
            tx_models(all@) == first + tx_models(included@).take(k as int),
        decreases included@.len() - k,
    {
        let ghost before = tx_models(all@);
        all.push(copy_transaction(&included[k]));
        proof {
            assert(tx_models(all@) =~= before.push(included@[k as int]@));
            assert(tx_models(included@).take(k + 1) =~= tx_models(included@).take(k as int).push(
                included@[k as int]@,
            ));
        }
        k = k + 1;
    }
    proof {
        assert(tx_models(included@).take(included@.len() as int) =~= tx_models(included@));
    }
    let mut txids: Vec<Hash256> = Vec::new();
    let mut m: usize = 0;
    while m < all.len()
        invariant
            m <= all@.len(),
            txids@.len() == m,
            forall|q: int| 0 <= q < m ==> (#[trigger] txids@[q])@ == block_txids(tx_models(all@))[q],
        decreases all@.len() - m,
    {
        match all[m].txid() {
            Ok(h) => {
                txids.push(h);
            },
            Err(e) => {
                return Err(BlockError::TransactionError { index: m, source: e });
            },
        }
        m = m + 1;
    }
    proof {
        assert(hv(txids@) =~= block_txids(tx_models(all@)));
    }
    let root = merkle_root(txids.as_slice());
    let block = Block {
        header: BlockHeader {
            version: 1,
            prev_hash: tip_hash,
            merkle_root: root,
            timestamp: block_time,
            difficulty_target,
            nonce: 0,
        },
        transactions: all,
    };
    proof {
        assert(block@.transactions == tx_models(all@));
    }
    Ok(block)
}


/// The production consensus engine: block templates, difficulty, rewards and
/// validation over a chain state `C`, a decay calculator `D` and a clock `T`.
/// The chain must hold at least its genesis block.
pub struct ConsensusEngine<C: ChainState, D: DecayCalculator, T: TimeSource> {
    chain_state: Arc<C>,
    decay: Arc<D>,
    clock: T,
    initial_target_override: Option<u64>,
}

impl<C: ChainState, D: DecayCalculator> ConsensusEngine<C, D, SystemClock> {
    /// Create an engine reading the system clock.
    pub fn new(chain_state: Arc<C>, decay: Arc<D>) -> (r: Self)
        ensures
            r.initial_target() == TESTNET_INITIAL_TARGET,
            r.chain() == *chain_state,
            r.decay_calc() == *decay,
    {
        ConsensusEngine { chain_state, decay, clock: SystemClock, initial_target_override: None }
    }
}

impl<C: ChainState, D: DecayCalculator, F: Fn() -> u64 + Send + Sync> ConsensusEngine<C, D, FnClock<F>> {
    /// Create an engine whose clock is the closure `clock`.
    pub fn with_clock(chain_state: Arc<C>, decay: Arc<D>, clock: F) -> (r: Self)
        requires
            call_requires(clock, ()),
        ensures
            r.initial_target() == TESTNET_INITIAL_TARGET,
            r.chain() == *chain_state,
            r.decay_calc() == *decay,
            r.clock_of().reader() == clock,
    {
        ConsensusEngine {
            chain_state,
            decay,
            clock: FnClock::new(clock),
            initial_target_override: None,
        }
    }
}

impl<C: ChainState, D: DecayCalculator, T: TimeSource> ConsensusEngine<C, D, T> {
    /// The difficulty target of heights 0 and 1.
    pub closed spec fn initial_target(&self) -> u64 {
        match self.initial_target_override {
            Some(t) => t,
            None => TESTNET_INITIAL_TARGET,
        }
    }

    /// The chain state the engine reads.
    pub closed spec fn chain(&self) -> C {
        *self.chain_state
    }

    /// The decay calculator the engine uses.
    pub closed spec fn decay_calc(&self) -> D {
        *self.decay
    }

    /// The clock the engine reads.
    pub closed spec fn clock_of(&self) -> T {
        self.clock
    }

    /// Override the difficulty target of heights 0 and 1 (`u64::MAX` lets
    /// any hash pass), keeping the chain state, decay calculator and clock.
    pub fn with_initial_target(self, target: u64) -> (r: Self)
        ensures
            r.initial_target() == target,
            r.chain() == self.chain(),
            r.decay_calc() == self.decay_calc(),
            r.clock_of() == self.clock_of(),
    {
        ConsensusEngine {
            chain_state: self.chain_state,
            decay: self.decay,
            clock: self.clock,
            initial_target_override: Some(target),
        }
    }

    /// The total reward at `height`: the base reward plus the decay pool
    /// release (zero when the release fails), saturating. Fails with
    /// `InvalidReward { got: 0, expected: 0 }` when the pool balance cannot be
    /// read.
    pub fn total_reward(&self, height: u64) -> (r: Result<u64, BlockError>)
        ensures
            reward_answer(self.chain(), self.decay_calc(), height, r),
    {
        let pool_balance = match self.chain_state.decay_pool_balance() {
            Ok(b) => b,
            Err(_) => {
                return Err(BlockError::InvalidReward { got: 0, expected: 0 });
            },
        };
        let release = self.decay.decay_pool_release(pool_balance);
        Ok(reward_with_release(height, release))
    }

    /// The timestamp of the block at `height`, or 0 when it cannot be read.
    fn timestamp_at(&self, height: u64) -> (r: u64)
        ensures
            timestamp_answer(self.chain(), height, r),
    {
        match self.chain_state.get_block_hash(height) {
            Ok(Some(hash)) => match self.chain_state.get_block_header(&hash) {
                Ok(Some(h)) => h.timestamp,
                _ => 0,
            },
            _ => 0,
        }
    }

    /// Create a block template on top of the tip, including the pending
    /// transactions that [`select_pending`] accepts against the chain state.
    /// Fails with `InvalidPrevHash` when the tip or its header cannot be read,
    /// and with `InvalidReward` when the reward cannot be computed or the
    /// coinbase value overflows.
    pub fn create_block_template_with_txs(
        &self,
        coinbase_pubkey_hash: &Hash256,
        timestamp: u64,
        pending_txs: &[Transaction],
    ) -> (r: Result<Block, BlockError>)
        ensures
            template_outcome(
                self.chain(),
                self.decay_calc(),
                self.initial_target(),
                coinbase_pubkey_hash@,
                timestamp,
                pending_txs@,
                r,
            ),
    {
        let tip = self.chain_state.chain_tip();
        let ghost ct = tip;
        let (tip_height, tip_hash) = match tip {
            Ok(t) => t,
            Err(_) => {
                return Err(BlockError::InvalidPrevHash);
            },
        };
        let height: u64 = if tip_height == u64::MAX {
            0
        } else {
            tip_height + 1
        };
        assert(height == next_height(tip_height));
        let reward = self.total_reward(height);
        let ghost tr = reward;
        let total_reward = match reward {
            Ok(v) => v,
            Err(e) => {
                assert(reward_answer(self.chain(), self.decay_calc(), next_height(tip_height), tr));
                assert(call_ensures(C::chain_tip, (&self.chain(),), ct));
                return Err(e);
            },
        };
        let difficulty = self.difficulty_target(height);
        let ghost dt = difficulty;
        let difficulty_target = match difficulty {
            Ok(v) => v,
            Err(e) => {
                assert(reward_answer(self.chain(), self.decay_calc(), next_height(tip_height), tr));
                assert(difficulty_answer(self.chain(), self.initial_target(), next_height(tip_height), dt));
                assert(call_ensures(C::chain_tip, (&self.chain(),), ct));
                return Err(e);
            },
        };
        let parent = self.chain_state.get_block_header(&tip_hash);
        let ghost ph = parent;
        let parent_header = match parent {
            Ok(Some(h)) => h,
            _ => {
                assert(reward_answer(self.chain(), self.decay_calc(), next_height(tip_height), tr));
                assert(difficulty_answer(self.chain(), self.initial_target(), next_height(tip_height), dt));
                assert(call_ensures(C::get_block_header, (&self.chain(), &tip_hash), ph));
                assert(call_ensures(C::chain_tip, (&self.chain(),), ct));
                return Err(BlockError::InvalidPrevHash);
            },
        };
        let lookup = |op: &OutPoint| -> (u: Option<UtxoEntry>)
            ensures
                utxo_answer(self.chain(), *op, u),
            {
                match self.chain_state.get_utxo(op) {
                    Ok(Some(u)) => Some(u),
                    _ => None,
                }
            };
        let (included, fees) = select_pending(pending_txs, height, &lookup);
        let ghost sel_answers = choose|answers: Seq<Seq<Option<UtxoEntry>>>|
            #[trigger] answers_agree(lookup, pending_txs@, answers) && tx_models(included@)
                == select_upto(tx_models(pending_txs@), answers, height, pending_txs@.len()).txs
                && fees == select_upto(
                tx_models(pending_txs@),
                answers,
                height,
                pending_txs@.len(),
            ).fees;
        let r = assemble_template(
            coinbase_pubkey_hash,
            timestamp,
            tip_hash,
            height,
            parent_header.timestamp,
            difficulty_target,
            total_reward,
            fees,
            included,
        );
        proof {
            assert(answers_agree(lookup, pending_txs@, sel_answers));
            assert(pending_answers(self.chain(), pending_txs@, sel_answers));
            assert(reward_answer(self.chain(), self.decay_calc(), next_height(tip_height), tr));
            assert(difficulty_answer(self.chain(), self.initial_target(), next_height(tip_height), dt));
            assert(call_ensures(C::get_block_header, (&self.chain(), &tip_hash), ph));
            assert(call_ensures(C::chain_tip, (&self.chain(),), ct));
            assert(template_result(
                r,
                coinbase_pubkey_hash@,
                timestamp,
                tx_models(pending_txs@),
                tip_height,
                tip_hash,
                parent_header.timestamp,
                difficulty_target,
                total_reward,
                sel_answers,
            ));
        }
        r
    }
}


impl<C: ChainState, D: DecayCalculator, T: TimeSource> BlockProducer for ConsensusEngine<C, D, T> {
    fn create_block_template(&self, coinbase_pubkey_hash: &Hash256, timestamp: u64) -> (r: Result<
        Block,
        BlockError,
    >)
        ensures
            template_outcome(
                self.chain(),
                self.decay_calc(),
                self.initial_target(),
                coinbase_pubkey_hash@,
                timestamp,
                Seq::<Transaction>::empty(),
                r,
            ),
    {
        let none: Vec<Transaction> = Vec::new();
        proof {
            assert(none@ =~= Seq::<Transaction>::empty());
        }
        self.create_block_template_with_txs(coinbase_pubkey_hash, timestamp, none.as_slice())
    }

    fn validate_block(&self, block: &Block) -> (r: Result<(), BlockError>)
        ensures
            validation_outcome(
                self.chain(),
                self.decay_calc(),
                self.clock_of(),
                self.initial_target(),
                *block,
                r,
            ),
    {
        let tip = self.chain_state.chain_tip();
        let ghost ct = tip;
        let (tip_height, tip_hash) = match tip {
            Ok(t) => t,
            Err(_) => {
                return Err(BlockError::InvalidPrevHash);
            },
        };
        let height: u64 = if tip_height == u64::MAX {
            0
        } else {
            tip_height + 1
        };
        assert(height == next_height(tip_height));
        let parent = self.chain_state.get_block_header(&tip_hash);
        let ghost ph = parent;
        let parent_header = match parent {
            Ok(Some(h)) => h,
            _ => {
                assert(call_ensures(C::get_block_header, (&self.chain(), &tip_hash), ph));
                assert(call_ensures(C::chain_tip, (&self.chain(),), ct));
                return Err(BlockError::InvalidPrevHash);
            },
        };
        let difficulty = self.difficulty_target(height);
        let ghost dt = difficulty;
        let expected_difficulty = match difficulty {
            Ok(v) => v,
            Err(e) => {
                assert(difficulty_answer(self.chain(), self.initial_target(), next_height(tip_height), dt));
                assert(call_ensures(C::get_block_header, (&self.chain(), &tip_hash), ph));
                assert(call_ensures(C::chain_tip, (&self.chain(),), ct));
                return Err(e);
            },
        };
        let reward = self.total_reward(height);
        let ghost tr = reward;
        let total_reward = match reward {
            Ok(v) => v,
            Err(e) => {
                assert(reward_answer(self.chain(), self.decay_calc(), next_height(tip_height), tr));
                assert(difficulty_answer(self.chain(), self.initial_target(), next_height(tip_height), dt));
                assert(call_ensures(C::get_block_header, (&self.chain(), &tip_hash), ph));
                assert(call_ensures(C::chain_tip, (&self.chain(),), ct));
                return Err(e);
            },
        };
        let current_time = self.clock.now_secs();
        let context = BlockContext {
            height,
            prev_hash: tip_hash,
            prev_timestamp: parent_header.timestamp,
            expected_difficulty,
            current_time,
            block_reward: total_reward,
        };
        let lookup = |op: &OutPoint| -> (u: Option<UtxoEntry>)
            ensures
                utxo_answer(self.chain(), *op, u),
            {
                match self.chain_state.get_utxo(op) {
                    Ok(Some(u)) => Some(u),
                    _ => None,
                }
            };
        let v = validate_block(block, &context, lookup);
        proof {
            let looked = choose|looked: Seq<Seq<Option<UtxoEntry>>>|
                #[trigger] crate::block_validation::block_lookups_agree(lookup, block.transactions@, looked)
                    && block_result_view(v) == spec_validate_block(block@, context, looked);
            assert(spec_validate_block(block@, context, looked) == block_result_view(v));
            assert(call_ensures(T::now_secs, (&self.clock_of(),), current_time));
            assert(reward_answer(self.chain(), self.decay_calc(), next_height(tip_height), tr));
            assert(difficulty_answer(self.chain(), self.initial_target(), next_height(tip_height), dt));
            assert(call_ensures(C::get_block_header, (&self.chain(), &tip_hash), ph));
            assert(call_ensures(C::chain_tip, (&self.chain(),), ct));
            assert(block_answers(self.chain(), block.transactions@, looked)) by {
                assert forall|i: int, j: int|
                    1 <= i < looked.len() && 0 <= j < looked[i].len() implies utxo_answer(
                    self.chain(),
                    block.transactions@[i].inputs@[j].previous_output,
                    #[trigger] looked[i][j],
                ) by {
                    assert(crate::validation::lookups_agree(lookup, block.transactions@[i].inputs@, looked[i]));
                }
            }
        }
        match v {
            Ok(_) => Ok(()),
            Err(e) => Err(e),
        }
    }

    fn block_reward(&self, height: u64) -> (r: u64)
        ensures
            r == spec_block_reward(height),
    {
        block_reward(height)
    }

    fn difficulty_target(&self, height: u64) -> (r: Result<u64, BlockError>)
        ensures
            difficulty_answer(self.chain(), self.initial_target(), height, r),
    {
        let initial_target = match self.initial_target_override {
            Some(t) => t,
            None => TESTNET_INITIAL_TARGET,
        };
        if height <= 1 {
            return Ok(initial_target);
        }
        let parent_hash = match self.chain_state.get_block_hash(height - 1) {
            Ok(Some(h)) => h,
            _ => {
                return Err(BlockError::InvalidPrevHash);
            },
        };
        let parent_header = match self.chain_state.get_block_header(&parent_hash) {
            Ok(Some(h)) => h,
            _ => {
                return Err(BlockError::InvalidPrevHash);
            },
        };
        let timestamps = |h: u64| -> (t: u64)
            ensures
                timestamp_answer(self.chain(), h, t),
            { self.timestamp_at(h) };
        let target = target_for_height_with_initial(
            height,
            parent_header.difficulty_target,
            timestamps,
            initial_target,
        );
        proof {
            let ts = choose|ts: Seq<u64>|
                #[trigger] crate::difficulty::window_of(timestamps, height, ts) && target
                    == spec_next_target(ts, parent_header.difficulty_target);
            assert(ts.len() == height - window_start(height));
            assert forall|i: int| 0 <= i < ts.len() implies timestamp_answer(
                self.chain(),
                (window_start(height) + i) as u64,
                #[trigger] ts[i],
            ) by {
                assert(call_ensures(timestamps, ((window_start(height) + i) as u64,), ts[i]));
            }
        }
        Ok(target)
    }

    fn validate_pow(&self, header: &BlockHeader) -> (r: Result<(), BlockError>)
        ensures
            r is Ok <==> pow_value(spec_header_hash(*header)) <= header.difficulty_target,
            r matches Err(e) ==> e is InvalidPoW,
    {
        if header_meets_target(header) {
            Ok(())
        } else {
            Err(BlockError::InvalidPoW)
        }
    }
}


/// `b` with its header nonce set to `n`.
pub open spec fn with_nonce(b: BlockModel, n: u64) -> BlockModel {
    BlockModel { header: BlockHeader { nonce: n, ..b.header }, transactions: b.transactions }
}

/// Try nonces `0, 1, ..., max_nonce` in order until the block meets its own
/// difficulty target; returns whether one did. The block is left with the
/// successful nonce, or with `max_nonce` when none succeeded.
pub fn mine_block(block: &mut Block, max_nonce: u64) -> (r: bool)
    ensures
        final(block)@ == with_nonce(old(block)@, final(block).header.nonce),
        r ==> spec_check_pow(final(block)@) && final(block).header.nonce <= max_nonce,
        r ==> forall|n: u64|
            n < final(block).header.nonce ==> !#[trigger] spec_check_pow(with_nonce(old(block)@, n)),
        !r ==> final(block).header.nonce == max_nonce,
        !r ==> forall|n: u64| n <= max_nonce ==> !#[trigger] spec_check_pow(with_nonce(old(block)@, n)),
        old(block).header.difficulty_target == u64::MAX ==> r && final(block).header.nonce == 0,
{
    let ghost b0 = block@;
    let mut nonce: u64 = 0;
    loop
        invariant
            b0.header.difficulty_target == u64::MAX ==> nonce == 0,
            nonce <= max_nonce,
            block@.transactions == b0.transactions,
            block.header == (BlockHeader { nonce: block.header.nonce, ..b0.header }),
            b0 == old(block)@,
            forall|n: u64| n < nonce ==> !#[trigger] spec_check_pow(with_nonce(b0, n)),
        decreases max_nonce - nonce,
    {
        block.header.nonce = nonce;
        proof {
            assert(block@ == with_nonce(b0, nonce));
        }
        if check_pow(block) {
            return true;
        }
        if nonce == max_nonce {
            return false;
        }
        nonce = nonce + 1;
    }
}


/// Whether the hash function, on `header`'s 96-byte layout, may answer with a
/// hash meeting the header's target.
pub open spec fn meets_with<F: Fn(&[u8]) -> Result<Hash256, String>>(hash: F, header: BlockHeader) -> bool {
    exists|data: &[u8], h: Hash256|
        data@ == header_layout(header) && #[trigger] hash.ensures((data,), Ok::<Hash256, String>(h))
            && pow_value(h@) <= header.difficulty_target
}

/// Try nonces `0, 1, ..., max_nonce` in order with a header hash function
/// such as RandomX, until the hash of the header's 96-byte layout meets the
/// header's target. Returns whether one did, or the first error of the hash
/// function; the block keeps the last nonce tried.
pub fn mine_block_randomx<F>(block: &mut Block, max_nonce: u64, hash: &F) -> (r: Result<bool, String>) where
    F: Fn(&[u8]) -> Result<Hash256, String>,

    requires
        forall|data: &[u8]| hash.requires((data,)),
    ensures
        final(block)@ == with_nonce(old(block)@, final(block).header.nonce),
        final(block).header.nonce <= max_nonce,
        r == Ok::<bool, String>(true) ==> meets_with(*hash, final(block).header),
        r == Ok::<bool, String>(false) ==> final(block).header.nonce == max_nonce,
{
    let ghost b0 = block@;
    let mut nonce: u64 = 0;
    loop
        invariant
            nonce <= max_nonce,
            forall|data: &[u8]| hash.requires((data,)),
            block@.transactions == b0.transactions,
            block.header == (BlockHeader { nonce: block.header.nonce, ..b0.header }),
            b0 == old(block)@,
        decreases max_nonce - nonce,
    {
        block.header.nonce = nonce;
        proof {
            assert(block@ == with_nonce(b0, nonce));
        }
        let bytes = block.header.header_bytes();
        let data = bytes.as_slice();
        match hash(data) {
            Ok(h) => {
                if pow_prefix(&h) <= block.header.difficulty_target {
                    proof {
                        assert(hash.ensures((data,), Ok::<Hash256, String>(h)));
                    }
                    return Ok(true);
                }
            },
            Err(e) => {
                return Err(e);
            },
        }
        if nonce == max_nonce {
            return Ok(false);
        }
        nonce = nonce + 1;
    }
}

} // verus!
