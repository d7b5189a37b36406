//! In-memory pool of unconfirmed transactions.
//!
//! The pool holds transactions that the caller has already validated. It
//! refuses duplicates and transactions that spend an outpoint already spent
//! in the pool, keeps within a count and a byte limit by evicting the
//! entries with the lowest fee rate, and hands out transactions for block
//! templates highest fee rate first.
//!
//! Entries are ordered by `(fee_rate, txid)`, the txid compared byte by byte.

use vstd::prelude::*;

use crate::cluster::{hash_lt, lemma_lex_irreflexive, lemma_lex_total, lemma_lex_transitive, lex_lt};
use crate::constants::MIN_TX_FEE;
use crate::error::{MempoolErr, MempoolError};
use crate::hashing::blake3_hash;
use crate::types::{
    enc_tx, encode_transaction, hex_chars, is_null_outpoint, spec_txid, Block, Hash256,
    InputModel, OutPoint, OutPointModel, Transaction, TxModel,
};
use crate::validation::outpoint_text;

verus! {

/// Default maximum number of transactions in the pool.
pub const DEFAULT_MAX_COUNT: usize = 5_000;

/// Default maximum total encoded bytes in the pool (5 MiB).
pub const DEFAULT_MAX_BYTES: usize = 5 * 1024 * 1024;

/// Fee rates are in milli-rills per byte.
pub const FEE_RATE_PRECISION: u128 = 1_000;

/// Fee rate in milli-rills per byte: `fee * 1000 / size`, capped at
/// `u64::MAX`; `u64::MAX` for an empty encoding.
pub open spec fn spec_fee_rate(fee: u64, size: usize) -> u64 {
    if size == 0 {
        u64::MAX
    } else {
        let rate = (fee as int) * (FEE_RATE_PRECISION as int) / (size as int);
        if rate <= u64::MAX {
            rate as u64
        } else {
            u64::MAX
        }
    }
}

/// Compute the fee rate in milli-rills per byte.
pub fn compute_fee_rate(fee: u64, size: usize) -> (r: u64)
    ensures
        r == spec_fee_rate(fee, size),
{
    if size == 0 {
        return u64::MAX;
    }
    proof {
        assert((fee as int) * 1000 <= u128::MAX) by (nonlinear_arith)
            requires
                fee <= u64::MAX,
        ;
    }
    let rate = (fee as u128) * FEE_RATE_PRECISION / (size as u128);
    if rate <= u64::MAX as u128 {
        rate as u64
    } else {
        u64::MAX
    }
}

/// A transaction in the pool with its precomputed metadata.
#[derive(Debug, Clone)]
pub struct MempoolEntry {
    /// The unconfirmed transaction.
    pub tx: Transaction,
    /// Its transaction id.
    pub txid: Hash256,
    /// Its fee in rills.
    pub fee: u64,
    /// Its encoded size in bytes.
    pub size: usize,
    /// Its fee rate in milli-rills per byte.
    pub fee_rate: u64,
}

/// The mathematical value of a pool entry.
pub ghost struct EntryModel {
    pub tx: TxModel,
    pub txid: Seq<u8>,
    pub fee: u64,
    pub size: usize,
    pub fee_rate: u64,
}

impl View for MempoolEntry {
    type V = EntryModel;

    open spec fn view(&self) -> EntryModel {
        EntryModel {
            tx: self.tx@,
            txid: self.txid@,
            fee: self.fee,
            size: self.size,
            fee_rate: self.fee_rate,
        }
    }
}

impl MempoolEntry {

    /// The fee rate in milli-rills per byte.
    pub fn fee_rate(&self) -> (r: u64)
        ensures
            r == self@.fee_rate,
    {
        self.fee_rate
    }

    /// The fields of an entry, as the view shows them.
    pub proof fn lemma_view(&self)
        ensures
            self@.tx == self.tx@,
            self@.txid == self.txid@,
            self@.fee == self.fee,
            self@.size == self.size,
    {
    }
}

/// The order of pool entries: by fee rate, then by txid bytes.
pub open spec fn key_lt(a: EntryModel, b: EntryModel) -> bool {
    a.fee_rate < b.fee_rate || (a.fee_rate == b.fee_rate && lex_lt(a.txid, b.txid))
}

/// Index of the least entry among the first `n` (the first found, for equal keys).
pub open spec fn min_index(s: Seq<EntryModel>, n: int) -> int
    decreases n,
{
    if n <= 1 {
        0
    } else {
        let m = min_index(s, n - 1);
        if key_lt(s[n - 1], s[m]) {
            n - 1
        } else {
            m
        }
    }
}

/// Index of the greatest entry among the first `n` (the first found, for equal keys).
pub open spec fn max_index(s: Seq<EntryModel>, n: int) -> int
    decreases n,
{
    if n <= 1 {
        0
    } else {
        let m = max_index(s, n - 1);
        if key_lt(s[m], s[n - 1]) {
            n - 1
        } else {
            m
        }
    }
}

/// Both extreme indices of a non-empty prefix lie within it.
pub proof fn lemma_index_range(s: Seq<EntryModel>, n: int)
    requires
        n >= 1,
    ensures
        0 <= min_index(s, n) < n,
        0 <= max_index(s, n) < n,
    decreases n,
{
    if n > 1 {
        lemma_index_range(s, n - 1);
    }
}

/// The entries from the greatest key down.
pub open spec fn descending(s: Seq<EntryModel>) -> Seq<EntryModel>
    decreases s.len(),
{
    if s.len() == 0 {
        Seq::empty()
    } else {
        let k = max_index(s, s.len() as int);
        proof {
            lemma_index_range(s, s.len() as int);
        }
        seq![s[k]] + descending(s.remove(k))
    }
}

/// Greedy selection: take each entry in order that still fits the byte
/// budget, until the budget is spent.
pub open spec fn greedy(order: Seq<EntryModel>, remaining: nat) -> Seq<EntryModel>
    decreases order.len(),
{
    if order.len() == 0 || remaining == 0 {
        Seq::empty()
    } else if order[0].size <= remaining {
        seq![order[0]] + greedy(order.drop_first(), (remaining - order[0].size) as nat)
    } else {
        greedy(order.drop_first(), remaining)
    }
}

/// Total encoded size of entries.
pub open spec fn sizes_sum(s: Seq<EntryModel>) -> nat
    decreases s.len(),
{
    if s.len() == 0 {
        0
    } else {
        sizes_sum(s.drop_last()) + s.last().size as nat
    }
}

/// Total fees of entries.
pub open spec fn fees_sum(s: Seq<EntryModel>) -> nat
    decreases s.len(),
{
    if s.len() == 0 {
        0
    } else {
        fees_sum(s.drop_last()) + s.last().fee as nat
    }
}

/// Whether entry `e` spends outpoint `op`.
pub open spec fn spends(e: EntryModel, op: OutPointModel) -> bool {
    exists|a: int| 0 <= a < e.tx.inputs.len() && #[trigger] e.tx.inputs[a].previous_output == op
}

/// Index of the entry that spends `op`, if any (the first found).
pub open spec fn spender(s: Seq<EntryModel>, op: OutPointModel, n: int) -> Option<int>
    decreases n,
{
    if n <= 0 {
        None
    } else {
        match spender(s, op, n - 1) {
            Some(i) => Some(i),
            None => if spends(s[n - 1], op) {
                Some(n - 1)
            } else {
                None
            },
        }
    }
}

/// Whether the pool entries are consistent: metadata matches each
/// transaction, each pays at least the minimum fee, txids are distinct, and
/// no outpoint is spent by two entries.
pub open spec fn entries_wf(s: Seq<EntryModel>) -> bool {
    &&& forall|i: int|
        0 <= i < s.len() ==> {
            &&& (#[trigger] s[i]).txid == spec_txid(s[i].tx)
            &&& s[i].size == enc_tx(s[i].tx).len()
            &&& s[i].fee_rate == spec_fee_rate(s[i].fee, s[i].size)
            &&& s[i].txid.len() == 32
            &&& s[i].fee >= MIN_TX_FEE
        }
    &&& forall|i: int, j: int| 0 <= i < j < s.len() ==> #[trigger] s[i].txid != #[trigger] s[j].txid
    &&& forall|i: int, j: int, op: OutPointModel|
        #![trigger spends(s[i], op), spends(s[j], op)]
        0 <= i < s.len() && 0 <= j < s.len() && i != j && spends(s[i], op) ==> !spends(s[j], op)
}

/// In-memory pool of unconfirmed transactions.
pub struct Mempool {
    entries: Vec<MempoolEntry>,
    max_count: usize,
    max_bytes: usize,
    total_bytes: usize,
}

/// The mathematical value of a pool.
pub ghost struct PoolModel {
    pub entries: Seq<EntryModel>,
    pub max_count: usize,
    pub max_bytes: usize,
    pub total_bytes: usize,
}

impl View for Mempool {
    type V = PoolModel;

    closed spec fn view(&self) -> PoolModel {
        PoolModel {
            entries: self.entries@.map_values(|e: MempoolEntry| e@),
            max_count: self.max_count,
            max_bytes: self.max_bytes,
            total_bytes: self.total_bytes,
        }
    }
}

/// Whether a pool with these entries and total is over a limit for one
/// more transaction of `size` bytes.
pub open spec fn is_full(p: PoolModel, entries: Seq<EntryModel>, total: int, size: int) -> bool {
    entries.len() >= p.max_count || total + size > p.max_bytes
}

/// Evicting lowest-key entries to make room for a transaction of `size`
/// bytes and fee rate `rate`: the entries and total left, and whether an
/// entry with a fee rate at least `rate` refused to leave.
pub open spec fn evict(p: PoolModel, entries: Seq<EntryModel>, total: int, size: int, rate: u64) -> (
    Seq<EntryModel>,
    int,
    bool,
)
    decreases entries.len(),
{
    if !is_full(p, entries, total, size) || entries.len() == 0 {
        (entries, total, false)
    } else {
        let k = min_index(entries, entries.len() as int);
        if entries[k].fee_rate >= rate {
            (entries, total, true)
        } else {
            proof {
                lemma_index_range(entries, entries.len() as int);
            }
            evict(p, entries.remove(k), total - entries[k].size, size, rate)
        }
    }
}

/// The first input among the first `n` that spends an outpoint already
/// spent in the pool, with the index of the pool entry spending it.
pub open spec fn first_conflict(entries: Seq<EntryModel>, inputs: Seq<InputModel>, n: int) -> Option<
    (OutPointModel, int),
>
    decreases n,
{
    if n <= 0 {
        None
    } else {
        match first_conflict(entries, inputs, n - 1) {
            Some(c) => Some(c),
            None => {
                let op = inputs[n - 1].previous_output;
                match spender(entries, op, entries.len() as int) {
                    Some(j) => Some((op, j)),
                    None => None,
                }
            },
        }
    }
}

/// Removing an entry takes its size off the total.
pub proof fn lemma_sizes_remove(s: Seq<EntryModel>, k: int)
    requires
        0 <= k < s.len(),
    ensures
        sizes_sum(s.remove(k)) + s[k].size == sizes_sum(s),
        fees_sum(s.remove(k)) + s[k].fee == fees_sum(s),
    decreases s.len(),
{
    if k < s.len() - 1 {
        lemma_sizes_remove(s.drop_last(), k);
        assert(s.remove(k).drop_last() =~= s.drop_last().remove(k));
    } else {
        assert(s.remove(k) =~= s.drop_last());
    }
}

/// A prefix's fees never exceed the whole's.
pub proof fn lemma_fees_prefix(s: Seq<EntryModel>, n: int)
    requires
        0 <= n <= s.len(),
    ensures
        fees_sum(s.take(n)) <= fees_sum(s),
    decreases s.len(),
{
    if n < s.len() {
        lemma_fees_prefix(s.drop_last(), n);
        assert(s.drop_last().take(n) =~= s.take(n));
    } else {
        assert(s.take(n) =~= s);
    }
}

/// Appending an entry adds its size to the total.
pub proof fn lemma_sizes_push(s: Seq<EntryModel>, e: EntryModel)
    ensures
        sizes_sum(s.push(e)) == sizes_sum(s) + e.size,
        fees_sum(s.push(e)) == fees_sum(s) + e.fee,
{
    assert(s.push(e).drop_last() =~= s);
}

/// Removing an entry keeps the entries consistent.
pub proof fn lemma_wf_remove(s: Seq<EntryModel>, k: int)
    requires
        entries_wf(s),
        0 <= k < s.len(),
    ensures
        entries_wf(s.remove(k)),
{
    let t = s.remove(k);
    assert forall|i: int| 0 <= i < t.len() implies (#[trigger] t[i]) == s[if i < k { i } else { i + 1 }] by {}
    assert forall|i: int, j: int, op: OutPointModel|
        #![trigger spends(t[i], op), spends(t[j], op)]
        0 <= i < t.len() && 0 <= j < t.len() && i != j && spends(t[i], op) implies !spends(t[j], op) by {
        let si = if i < k { i } else { i + 1 };
        let sj = if j < k { j } else { j + 1 };
        assert(spends(s[si], op) ==> !spends(s[sj], op));
    }
    assert forall|i: int, j: int| 0 <= i < j < t.len() implies #[trigger] t[i].txid != #[trigger] t[j].txid by {
        let si = if i < k { i } else { i + 1 };
        let sj = if j < k { j } else { j + 1 };
        assert(s[si].txid != s[sj].txid);
    }
}

/// The entry found by `spender` spends the outpoint, and when none is found
/// no entry does.
pub proof fn lemma_spender(s: Seq<EntryModel>, op: OutPointModel, n: int)
    requires
        0 <= n <= s.len(),
    ensures
        spender(s, op, n) matches Some(j) ==> 0 <= j < n && spends(s[j], op),
        spender(s, op, n) is None ==> forall|j: int| 0 <= j < n ==> !spends(#[trigger] s[j], op),
    decreases n,
{
    if n > 0 {
        lemma_spender(s, op, n - 1);
    }
}

/// The pool after a transaction of `size` bytes at `rate` is admitted:
/// entries `es` with total `tot`, plus the new entry.
pub open spec fn admitted(p: PoolModel, es: Seq<EntryModel>, tot: int, e: EntryModel) -> PoolModel {
    PoolModel { entries: es.push(e), total_bytes: (tot + e.size) as usize, ..p }
}

/// What inserting `tx` with fee `fee` returns (the txid on success), and
/// the pool it leaves. Refusals for a low fee, a duplicate or a conflict
/// leave the pool as it was; a refusal for lack of room keeps the
/// evictions made before it.
pub open spec fn spec_insert(p: PoolModel, tx: TxModel, fee: u64) -> (Result<Seq<u8>, MempoolErr>, PoolModel) {
    let txid = spec_txid(tx);
    let size = enc_tx(tx).len() as int;
    let rate = spec_fee_rate(fee, size as usize);
    if fee < MIN_TX_FEE {
        (Err(MempoolErr::FeeTooLow { fee, minimum: MIN_TX_FEE }), p)
    } else if exists|i: int| 0 <= i < p.entries.len() && #[trigger] p.entries[i].txid == txid {
        (Err(MempoolErr::AlreadyExists(hex_chars(txid))), p)
    } else if let Some((op, j)) = first_conflict(p.entries, tx.inputs, tx.inputs.len() as int) {
        (
            Err(
                MempoolErr::Conflict {
                    new_txid: hex_chars(txid),
                    existing_txid: hex_chars(p.entries[j].txid),
                    outpoint: outpoint_text(op),
                },
            ),
            p,
        )
    } else {
        let (es, tot, refused) = evict(p, p.entries, p.total_bytes as int, size, rate);
        if refused || is_full(p, es, tot, size) {
            (Err(MempoolErr::PoolFull), PoolModel { entries: es, total_bytes: tot as usize, ..p })
        } else {
            (
                Ok(txid),
                admitted(
                    p,
                    es,
                    tot,
                    EntryModel { tx, txid, fee, size: size as usize, fee_rate: rate },
                ),
            )
        }
    }
}

/// An insertion result as a mathematical value.
pub open spec fn insert_result_view(r: Result<Hash256, MempoolError>) -> Result<Seq<u8>, MempoolErr> {
    match r {
        Ok(h) => Ok(h@),
        Err(e) => Err(e@),
    }
}

/// Once an entry spending `op` is found, longer prefixes report the same one.
proof fn lemma_spender_stable(s: Seq<EntryModel>, op: OutPointModel, k: int, n: int)
    requires
        0 <= k <= n,
        spender(s, op, k) is Some,
    ensures
        spender(s, op, n) == spender(s, op, k),
    decreases n - k,
{
    if n > k {
        lemma_spender_stable(s, op, k, n - 1);
    }
}

/// Without a conflict among the first `n` inputs, no pool entry spends any of them.
proof fn lemma_no_conflict(entries: Seq<EntryModel>, inputs: Seq<InputModel>, n: int)
    requires
        0 <= n <= inputs.len(),
        first_conflict(entries, inputs, n) is None,
    ensures
        forall|a: int, j: int|
            0 <= a < n && 0 <= j < entries.len() ==> !spends(#[trigger] entries[j], #[trigger] inputs[a].previous_output),
    decreases n,
{
    if n > 0 {
        lemma_no_conflict(entries, inputs, n - 1);
        lemma_spender(entries, inputs[n - 1].previous_output, entries.len() as int);
    }
}

/// Once a prefix of the inputs conflicts, longer prefixes report the same conflict.
proof fn lemma_first_conflict_stable(entries: Seq<EntryModel>, inputs: Seq<InputModel>, k: int, n: int)
    requires
        0 <= k <= n,
        first_conflict(entries, inputs, k) is Some,
    ensures
        first_conflict(entries, inputs, n) == first_conflict(entries, inputs, k),
    decreases n - k,
{
    if n > k {
        lemma_first_conflict_stable(entries, inputs, k, n - 1);
    }
}

/// The distinct txids of the pool entries spending the first `n` inputs,
/// in the order first met.
pub open spec fn conflict_list(entries: Seq<EntryModel>, inputs: Seq<InputModel>, n: int) -> Seq<Seq<u8>>
    decreases n,
{
    if n <= 0 {
        Seq::empty()
    } else {
        let prev = conflict_list(entries, inputs, n - 1);
        match spender(entries, inputs[n - 1].previous_output, entries.len() as int) {
            Some(j) => if prev.contains(entries[j].txid) {
                prev
            } else {
                prev.push(entries[j].txid)
            },
            None => prev,
        }
    }
}

/// With consistent entries, the conflict list over the first `n` inputs
/// holds each entry's txid exactly when the entry spends one of those
/// inputs' outpoints, holds nothing else, and repeats nothing.
pub proof fn lemma_conflict_list_exact(entries: Seq<EntryModel>, inputs: Seq<InputModel>, n: int)
    requires
        entries_wf(entries),
        0 <= n <= inputs.len(),
    ensures
        forall|j: int|
            0 <= j < entries.len() ==> (conflict_list(entries, inputs, n).contains(
                #[trigger] entries[j].txid,
            ) <==> exists|a: int|
                0 <= a < n && spends(entries[j], #[trigger] inputs[a].previous_output)),
        forall|t: Seq<u8>|
            conflict_list(entries, inputs, n).contains(t) ==> exists|j: int|
                0 <= j < entries.len() && #[trigger] entries[j].txid == t,
        conflict_list(entries, inputs, n).no_duplicates(),
    decreases n,
{
    if n > 0 {
        lemma_conflict_list_exact(entries, inputs, n - 1);
        let prev = conflict_list(entries, inputs, n - 1);
        let op = inputs[n - 1].previous_output;
        lemma_spender(entries, op, entries.len() as int);
        let cur = conflict_list(entries, inputs, n);
        match spender(entries, op, entries.len() as int) {
            Some(k) => {
                let tk = entries[k].txid;
                assert forall|t: Seq<u8>| cur.contains(t) <==> (prev.contains(t) || t == tk) by {
                    if !prev.contains(tk) {
                        assert(cur == prev.push(tk));
                        if cur.contains(t) {
                            let w = choose|w: int| 0 <= w < cur.len() && cur[w] == t;
                            if w < prev.len() {
                                assert(prev[w] == t);
                            }
                        }
                        if prev.contains(t) {
                            let w = choose|w: int| 0 <= w < prev.len() && prev[w] == t;
                            assert(cur[w] == t);
                        }
                        if t == tk {
                            assert(cur[prev.len() as int] == t);
                        }
                    }
                }
                if !prev.contains(tk) {
                    assert forall|a: int, b: int| 0 <= a < b < cur.len() implies cur[a] != cur[b] by {
                        if b == prev.len() {
                            assert(prev[a] == cur[a]);
                        } else {
                            assert(prev[a] == cur[a] && prev[b] == cur[b]);
                        }
                    }
                }
                assert forall|j: int| 0 <= j < entries.len() implies (cur.contains(
                    #[trigger] entries[j].txid,
                ) <==> exists|a: int|
                    0 <= a < n && spends(entries[j], #[trigger] inputs[a].previous_output)) by {
                    if spends(entries[j], op) && j != k {
                        assert(!spends(entries[j], op));
                    }
                    if cur.contains(entries[j].txid) && !prev.contains(entries[j].txid) {
                        assert(entries[j].txid == entries[k].txid);
                        if j != k {
                            assert(entries[j].txid != entries[k].txid);
                        }
                        assert(spends(entries[j], inputs[n - 1].previous_output));
                    }
                    if exists|a: int| 0 <= a < n && spends(entries[j], #[trigger] inputs[a].previous_output) {
                        let a = choose|a: int| 0 <= a < n && spends(entries[j], #[trigger] inputs[a].previous_output);
                        if a == n - 1 {
                            if j != k {
                                assert(!spends(entries[j], op));
                            }
                            assert(cur.contains(entries[k].txid));
                        } else {
                            assert(prev.contains(entries[j].txid));
                        }
                    }
                }
                assert forall|t: Seq<u8>| cur.contains(t) implies exists|j: int|
                    0 <= j < entries.len() && #[trigger] entries[j].txid == t by {
                    if !prev.contains(t) {
                        assert(entries[k].txid == t);
                    }
                }
            },
            None => {
                assert forall|j: int| 0 <= j < entries.len() implies (cur.contains(
                    #[trigger] entries[j].txid,
                ) <==> exists|a: int|
                    0 <= a < n && spends(entries[j], #[trigger] inputs[a].previous_output)) by {
                    if exists|a: int| 0 <= a < n && spends(entries[j], #[trigger] inputs[a].previous_output) {
                        let a = choose|a: int| 0 <= a < n && spends(entries[j], #[trigger] inputs[a].previous_output);
                        if a == n - 1 {
                            assert(!spends(entries[j], op));
                        }
                    }
                }
            },
        }
    }
}

/// The txids of a block's transactions.
pub open spec fn confirmed_txids(b: Seq<TxModel>) -> Set<Seq<u8>> {
    b.map_values(|t: TxModel| spec_txid(t)).to_set()
}

/// The non-null outpoints spent by a block's transactions.
pub open spec fn block_spent(b: Seq<TxModel>) -> Set<OutPointModel> {
    Set::new(
        |op: OutPointModel|
            !is_null_outpoint(op) && exists|t: int, a: int|
                0 <= t < b.len() && 0 <= a < b[t].inputs.len() && #[trigger] b[t].inputs[a].previous_output
                    == op,
    )
}

/// Whether a pool entry survives a block: it is not in the block, and
/// spends none of the outpoints the block spends.
pub open spec fn survives(e: EntryModel, confirmed: Set<Seq<u8>>, spent: Set<OutPointModel>) -> bool {
    !confirmed.contains(e.txid) && forall|a: int|
        0 <= a < e.tx.inputs.len() ==> !spent.contains(#[trigger] e.tx.inputs[a].previous_output)
}

/// The entries that survive, in their order.
pub open spec fn survivors(s: Seq<EntryModel>, confirmed: Set<Seq<u8>>, spent: Set<OutPointModel>) -> Seq<
    EntryModel,
>
    decreases s.len(),
{
    if s.len() == 0 {
        Seq::empty()
    } else {
        let k = survivors(s.drop_last(), confirmed, spent);
        if survives(s.last(), confirmed, spent) {
            k.push(s.last())
        } else {
            k
        }
    }
}

/// Greedy selection never exceeds its budget.
pub proof fn lemma_greedy_within_budget(order: Seq<EntryModel>, remaining: nat)
    ensures
        sizes_sum_front(greedy(order, remaining)) <= remaining,
    decreases order.len(),
{
    if order.len() > 0 && remaining > 0 {
        if order[0].size <= remaining {
            lemma_greedy_within_budget(order.drop_first(), (remaining - order[0].size) as nat);
            assert(seq![order[0]] + greedy(order.drop_first(), (remaining - order[0].size) as nat)
                =~= greedy(order, remaining));
            lemma_sizes_front_cons(order[0], greedy(order.drop_first(), (remaining - order[0].size) as nat));
        } else {
            lemma_greedy_within_budget(order.drop_first(), remaining);
        }
    }
}

/// Total size of entries, summed from the front.
pub open spec fn sizes_sum_front(s: Seq<EntryModel>) -> nat
    decreases s.len(),
{
    if s.len() == 0 {
        0
    } else {
        s[0].size as nat + sizes_sum_front(s.drop_first())
    }
}

proof fn lemma_sizes_front_cons(e: EntryModel, s: Seq<EntryModel>)
    ensures
        sizes_sum_front(seq![e] + s) == e.size + sizes_sum_front(s),
{
    assert((seq![e] + s).drop_first() =~= s);
}

/// The greatest entry found by `max_index` is greater than every other
/// entry of distinct txid.
pub proof fn lemma_max_index_is_max(s: Seq<EntryModel>, n: int)
    requires
        1 <= n <= s.len(),
    ensures
        forall|j: int| 0 <= j < n ==> !key_lt(s[max_index(s, n)], #[trigger] s[j]),
    decreases n,
{
    lemma_index_range(s, n);
    if n > 1 {
        lemma_max_index_is_max(s, n - 1);
        let m = max_index(s, n - 1);
        lemma_index_range(s, n - 1);
        if key_lt(s[m], s[n - 1]) {
            assert forall|j: int| 0 <= j < n implies !key_lt(s[n - 1], #[trigger] s[j]) by {
                if j < n - 1 && key_lt(s[n - 1], s[j]) {
                    lemma_key_transitive(s[m], s[n - 1], s[j]);
                }
                if j == n - 1 {
                    lemma_key_irreflexive(s[j]);
                }
            }
        }
    } else {
        lemma_key_irreflexive(s[0]);
    }
}

/// The key order is irreflexive.
pub proof fn lemma_key_irreflexive(a: EntryModel)
    ensures
        !key_lt(a, a),
{
    lemma_lex_irreflexive(a.txid, 0);
}

/// The key order is transitive.
pub proof fn lemma_key_transitive(a: EntryModel, b: EntryModel, c: EntryModel)
    requires
        key_lt(a, b),
        key_lt(b, c),
    ensures
        key_lt(a, c),
{
    if a.fee_rate == b.fee_rate && b.fee_rate == c.fee_rate {
        lemma_lex_transitive(a.txid, b.txid, c.txid, 0);
    }
}

/// Two entries with distinct txids of one length are ordered one way or the other.
pub proof fn lemma_key_total(a: EntryModel, b: EntryModel)
    requires
        a.txid.len() == b.txid.len(),
        a.txid != b.txid,
    ensures
        key_lt(a, b) || key_lt(b, a),
{
    if a.fee_rate == b.fee_rate && !lex_lt(a.txid, b.txid) && !lex_lt(b.txid, a.txid) {
        lemma_lex_total(a.txid, b.txid, 0);
        assert(a.txid =~= b.txid);
    }
}

/// The key order is asymmetric.
pub proof fn lemma_key_asymmetric(a: EntryModel, b: EntryModel)
    requires
        key_lt(a, b),
    ensures
        !key_lt(b, a),
{
    if key_lt(b, a) {
        lemma_key_transitive(a, b, a);
        lemma_key_irreflexive(a);
    }
}

/// Entries ordered from the greatest key down, each strictly below the ones before it.
pub open spec fn strictly_descending(s: Seq<EntryModel>) -> bool {
    forall|i: int, j: int| 0 <= i < j < s.len() ==> key_lt(#[trigger] s[j], #[trigger] s[i])
}

/// Total size of the entries of `s` whose key is above that of `e`.
pub open spec fn sizes_above(s: Seq<EntryModel>, e: EntryModel) -> nat
    decreases s.len(),
{
    if s.len() == 0 {
        0
    } else {
        (if key_lt(e, s[0]) {
            s[0].size as nat
        } else {
            0
        }) + sizes_above(s.drop_first(), e)
    }
}

proof fn lemma_sizes_above_none(s: Seq<EntryModel>, e: EntryModel)
    requires
        forall|k: int| 0 <= k < s.len() ==> !key_lt(e, #[trigger] s[k]),
    ensures
        sizes_above(s, e) == 0,
    decreases s.len(),
{
    if s.len() > 0 {
        assert forall|k: int| 0 <= k < s.drop_first().len() implies !key_lt(e, #[trigger] s.drop_first()[k]) by {
            assert(s.drop_first()[k] == s[k + 1]);
        }
        lemma_sizes_above_none(s.drop_first(), e);
    }
}

/// Sorting a pool's entries keeps exactly those entries and orders them
/// strictly from the greatest key down.
pub proof fn lemma_descending(s: Seq<EntryModel>)
    requires
        forall|i: int| 0 <= i < s.len() ==> (#[trigger] s[i]).txid.len() == 32,
        forall|i: int, j: int| 0 <= i < j < s.len() ==> #[trigger] s[i].txid != #[trigger] s[j].txid,
    ensures
        descending(s).len() == s.len(),
        forall|i: int| 0 <= i < s.len() ==> descending(s).contains(#[trigger] s[i]),
        forall|k: int| 0 <= k < descending(s).len() ==> s.contains(#[trigger] descending(s)[k]),
        strictly_descending(descending(s)),
    decreases s.len(),
{
    if s.len() > 0 {
        let n = s.len() as int;
        let k = max_index(s, n);
        lemma_index_range(s, n);
        lemma_max_index_is_max(s, n);
        let t = s.remove(k);
        assert forall|i: int| 0 <= i < t.len() implies t[i] == s[if i < k { i } else { i + 1 }] by {}
        assert forall|i: int| 0 <= i < t.len() implies (#[trigger] t[i]).txid.len() == 32 by {
            assert(t[i] == s[if i < k { i } else { i + 1 }]);
        }
        assert forall|i: int, j: int| 0 <= i < j < t.len() implies #[trigger] t[i].txid != #[trigger] t[j].txid by {
            assert(t[i] == s[if i < k { i } else { i + 1 }]);
            assert(t[j] == s[if j < k { j } else { j + 1 }]);
        }
        lemma_descending(t);
        let dt = descending(t);
        let d = descending(s);
        assert(d == seq![s[k]] + dt);
        assert(d[0] == s[k]);
        assert forall|j: int| 0 < j < d.len() implies d[j] == dt[j - 1] by {}
        assert forall|i: int| 0 <= i < s.len() implies d.contains(#[trigger] s[i]) by {
            if i == k {
                assert(d[0] == s[i]);
            } else {
                let ti = if i < k { i } else { i - 1 };
                assert(t[ti] == s[i]);
                assert(dt.contains(t[ti]));
                let m = choose|m: int| 0 <= m < dt.len() && dt[m] == t[ti];
                assert(d[m + 1] == s[i]);
            }
        }
        assert forall|q: int| 0 <= q < d.len() implies s.contains(#[trigger] d[q]) by {
            if q == 0 {
                assert(s[k] == d[q]);
            } else {
                assert(t.contains(dt[q - 1]));
                let m = choose|m: int| 0 <= m < t.len() && t[m] == dt[q - 1];
                assert(s[if m < k { m } else { m + 1 }] == d[q]);
            }
        }
        assert forall|i: int, j: int| 0 <= i < j < d.len() implies key_lt(#[trigger] d[j], #[trigger] d[i]) by {
            if i == 0 {
                assert(t.contains(dt[j - 1]));
                let m = choose|m: int| 0 <= m < t.len() && t[m] == dt[j - 1];
                let sm = if m < k { m } else { m + 1 };
                assert(s[sm] == d[j]);
                assert(!key_lt(s[k], s[sm]));
                if sm < k {
                    assert(s[sm].txid != s[k].txid);
                } else {
                    assert(s[k].txid != s[sm].txid);
                }
                lemma_key_total(s[sm], s[k]);
            } else {
                assert(key_lt(dt[j - 1], dt[i - 1]));
            }
        }
    }
}

/// Everything greedy selection takes comes from the order it walks.
pub proof fn lemma_greedy_from(order: Seq<EntryModel>, remaining: nat)
    ensures
        forall|k: int|
            0 <= k < greedy(order, remaining).len() ==> order.contains(#[trigger] greedy(order, remaining)[k]),
    decreases order.len(),
{
    if order.len() > 0 && remaining > 0 {
        let rest = order.drop_first();
        if order[0].size <= remaining {
            let r2 = (remaining - order[0].size) as nat;
            lemma_greedy_from(rest, r2);
            let g = greedy(order, remaining);
            assert(g == seq![order[0]] + greedy(rest, r2));
            assert forall|k: int| 0 <= k < g.len() implies order.contains(#[trigger] g[k]) by {
                if k == 0 {
                    assert(order[0] == g[k]);
                } else {
                    assert(g[k] == greedy(rest, r2)[k - 1]);
                    let m = choose|m: int| 0 <= m < rest.len() && rest[m] == g[k];
                    assert(order[m + 1] == g[k]);
                }
            }
        } else {
            lemma_greedy_from(rest, remaining);
            let g = greedy(order, remaining);
            assert(g == greedy(rest, remaining));
            assert forall|k: int| 0 <= k < g.len() implies order.contains(#[trigger] g[k]) by {
                assert(rest.contains(greedy(rest, remaining)[k]));
                let m = choose|m: int| 0 <= m < rest.len() && rest[m] == g[k];
                assert(order[m + 1] == g[k]);
            }
        }
    }
}

/// Greedy selection is maximal: walking entries of nonzero size from the
/// greatest key down, every entry left out is larger than the budget that
/// the taken entries of greater key leave.
pub proof fn lemma_greedy_maximal(order: Seq<EntryModel>, remaining: nat)
    requires
        strictly_descending(order),
        forall|i: int| 0 <= i < order.len() ==> (#[trigger] order[i]).size > 0,
    ensures
        forall|i: int|
            0 <= i < order.len() && !greedy(order, remaining).contains(#[trigger] order[i]) ==> order[i].size
                + sizes_above(greedy(order, remaining), order[i]) > remaining,
    decreases order.len(),
{
    if order.len() > 0 {
        let a = order[0];
        let rest = order.drop_first();
        assert forall|i: int| 0 <= i < rest.len() implies rest[i] == order[i + 1] by {}
        assert forall|i: int, j: int| 0 <= i < j < rest.len() implies key_lt(#[trigger] rest[j], #[trigger] rest[i]) by {
            assert(key_lt(order[j + 1], order[i + 1]));
        }
        assert forall|i: int| 0 <= i < rest.len() implies (#[trigger] rest[i]).size > 0 by {
            assert(order[i + 1].size > 0);
        }
        let g = greedy(order, remaining);
        if remaining == 0 {
            assert(g =~= Seq::<EntryModel>::empty());
            assert forall|i: int|
                0 <= i < order.len() && !g.contains(#[trigger] order[i]) implies order[i].size + sizes_above(g, order[i])
                    > remaining by {
                assert(order[i].size > 0);
            }
        } else if a.size <= remaining {
            let r2 = (remaining - a.size) as nat;
            let g2 = greedy(rest, r2);
            lemma_greedy_maximal(rest, r2);
            assert(g == seq![a] + g2);
            assert(g[0] == a);
            assert(g.drop_first() =~= g2);
            assert forall|i: int|
                0 <= i < order.len() && !g.contains(#[trigger] order[i]) implies order[i].size + sizes_above(g, order[i])
                    > remaining by {
                if i == 0 {
                    assert(g.contains(order[0]));
                } else {
                    let x = order[i];
                    assert(rest[i - 1] == x);
                    if g2.contains(x) {
                        let m = choose|m: int| 0 <= m < g2.len() && g2[m] == x;
                        assert(g[m + 1] == x);
                    }
                    assert(key_lt(order[i], order[0]));
                    assert(sizes_above(g, x) == a.size + sizes_above(g2, x));
                }
            }
        } else {
            lemma_greedy_maximal(rest, remaining);
            lemma_greedy_from(rest, remaining);
            assert(g == greedy(rest, remaining));
            assert forall|i: int|
                0 <= i < order.len() && !g.contains(#[trigger] order[i]) implies order[i].size + sizes_above(g, order[i])
                    > remaining by {
                if i == 0 {
                    assert forall|k: int| 0 <= k < g.len() implies !key_lt(a, #[trigger] g[k]) by {
                        assert(rest.contains(g[k]));
                        let m = choose|m: int| 0 <= m < rest.len() && rest[m] == g[k];
                        assert(key_lt(order[m + 1], order[0]));
                        lemma_key_asymmetric(g[k], a);
                    }
                    lemma_sizes_above_none(g, a);
                } else {
                    assert(rest[i - 1] == order[i]);
                }
            }
        }
    }
}

/// Selecting from a consistent pool takes only pool entries, and leaves out
/// only entries larger than the budget that the taken entries of greater
/// key leave: an entry that still fits at its turn is taken.
pub proof fn lemma_selection_maximal(entries: Seq<EntryModel>, budget: nat)
    requires
        entries_wf(entries),
    ensures
        forall|k: int|
            0 <= k < greedy(descending(entries), budget).len() ==> entries.contains(
                #[trigger] greedy(descending(entries), budget)[k],
            ),
        forall|i: int|
            0 <= i < entries.len() && !greedy(descending(entries), budget).contains(#[trigger] entries[i])
                ==> entries[i].size + sizes_above(greedy(descending(entries), budget), entries[i]) > budget,
{
    let d = descending(entries);
    let g = greedy(d, budget);
    lemma_descending(entries);
    assert forall|j: int| 0 <= j < d.len() implies (#[trigger] d[j]).size > 0 by {
        assert(entries.contains(d[j]));
        let m = choose|m: int| 0 <= m < entries.len() && entries[m] == d[j];
        assert(entries[m].size == enc_tx(entries[m].tx).len());
    }
    lemma_greedy_maximal(d, budget);
    lemma_greedy_from(d, budget);
    assert forall|k: int| 0 <= k < g.len() implies entries.contains(#[trigger] g[k]) by {
        assert(d.contains(g[k]));
        let m = choose|m: int| 0 <= m < d.len() && d[m] == g[k];
        assert(entries.contains(d[m]));
    }
    assert forall|i: int|
        0 <= i < entries.len() && !g.contains(#[trigger] entries[i]) implies entries[i].size + sizes_above(g, entries[i])
            > budget by {
        assert(d.contains(entries[i]));
        let j = choose|j: int| 0 <= j < d.len() && d[j] == entries[i];
        assert(!g.contains(d[j]));
    }
}

impl Mempool {
    /// The pool's consistency: its entries are consistent (metadata matches
    /// each transaction, each pays at least the minimum fee, txids are
    /// distinct, no outpoint is spent twice), the byte total is the sum of
    /// their sizes, and both limits hold.
    pub open spec fn wf(&self) -> bool {
        &&& entries_wf(self@.entries)
        &&& self@.total_bytes == sizes_sum(self@.entries)
        &&& self@.entries.len() <= self@.max_count
        &&& self@.total_bytes <= self@.max_bytes
    }

    /// A pool with these limits and no entries.
    pub fn new(max_count: usize, max_bytes: usize) -> (r: Self)
        ensures
            r.wf(),
            r@.entries.len() == 0,
            r@.max_count == max_count,
            r@.max_bytes == max_bytes,
            r@.total_bytes == 0,
    {
        let r = Mempool { entries: Vec::new(), max_count, max_bytes, total_bytes: 0 };
        assert(r@.entries =~= Seq::<EntryModel>::empty());
        r
    }

    /// A pool with the default limits.
    pub fn with_defaults() -> (r: Self)
        ensures
            r.wf(),
            r@.entries.len() == 0,
            r@.max_count == DEFAULT_MAX_COUNT,
            r@.max_bytes == DEFAULT_MAX_BYTES,
            r@.total_bytes == 0,
    {
        Self::new(DEFAULT_MAX_COUNT, DEFAULT_MAX_BYTES)
    }

    /// Number of transactions in the pool.
    pub fn len(&self) -> (r: usize)
        ensures
            r == self@.entries.len(),
    {
        self.entries.len()
    }

    /// Whether the pool is empty.
    pub fn is_empty(&self) -> (r: bool)
        ensures
            r == (self@.entries.len() == 0),
    {
        self.entries.len() == 0
    }

    /// Total encoded bytes of the pool's transactions.
    pub fn total_bytes(&self) -> (r: usize)
        ensures
            r == self@.total_bytes,
    {
        self.total_bytes
    }

    /// The count limit.
    pub fn max_count(&self) -> (r: usize)
        ensures
            r == self@.max_count,
    {
        self.max_count
    }

    /// The byte limit.
    pub fn max_bytes(&self) -> (r: usize)
        ensures
            r == self@.max_bytes,
    {
        self.max_bytes
    }

    /// Index of the entry with txid `txid`, if any.
    fn find(&self, txid: &Hash256) -> (r: Option<usize>)
        requires
            self.wf(),
        ensures
            r matches Some(i) ==> i < self@.entries.len() && self@.entries[i as int].txid == txid@,
            r is None ==> forall|i: int|
                0 <= i < self@.entries.len() ==> (#[trigger] self@.entries[i]).txid != txid@,
    {
        let n = self.entries.len();
        let mut i: usize = 0;
        while i < n
            invariant
                n == self@.entries.len(),
                i <= n,
                forall|j: int| 0 <= j < i ==> (#[trigger] self@.entries[j]).txid != txid@,
            decreases n - i,
        {
            assert(self@.entries[i as int] == self.entries@[i as int]@);
            if self.entries[i].txid == *txid {
                return Some(i);
            }
            i = i + 1;
        }
        None
    }

    /// Whether the pool holds a transaction with this txid.
    pub fn contains(&self, txid: &Hash256) -> (r: bool)
        requires
            self.wf(),
        ensures
            r == exists|i: int| 0 <= i < self@.entries.len() && (#[trigger] self@.entries[i]).txid == txid@,
    {
        self.find(txid).is_some()
    }

    /// The entry with this txid, if any.
    pub fn get(&self, txid: &Hash256) -> (r: Option<&MempoolEntry>)
        requires
            self.wf(),
        ensures
            r matches Some(e) ==> exists|i: int|
                0 <= i < self@.entries.len() && e@ == self@.entries[i] && e@.txid == txid@,
            r is None ==> forall|i: int|
                0 <= i < self@.entries.len() ==> (#[trigger] self@.entries[i]).txid != txid@,
    {
        match self.find(txid) {
            Some(i) => {
                assert(self@.entries[i as int] == self.entries@[i as int]@);
                Some(&self.entries[i])
            },
            None => None,
        }
    }

    /// Remove the entry at index `k`, returning it.
    fn remove_at(&mut self, k: usize) -> (r: MempoolEntry)
        requires
            old(self).wf(),
            k < old(self)@.entries.len(),
        ensures
            final(self).wf(),
            r@ == old(self)@.entries[k as int],
            final(self)@ == (PoolModel {
                entries: old(self)@.entries.remove(k as int),
                total_bytes: (old(self)@.total_bytes - old(self)@.entries[k as int].size) as usize,
                ..old(self)@
            }),
    {
        let ghost old_entries = self@.entries;
        proof {
            lemma_sizes_remove(old_entries, k as int);
            lemma_wf_remove(old_entries, k as int);
        }
        let e = self.entries.remove(k);
        assert(self@.entries =~= old_entries.remove(k as int));
        self.total_bytes = self.total_bytes - e.size;
        e
    }

    /// Remove the transaction with this txid, returning its entry.
    pub fn remove(&mut self, txid: &Hash256) -> (r: Option<MempoolEntry>)
        requires
            old(self).wf(),
        ensures
            final(self).wf(),
            r matches Some(e) ==> exists|k: int|
                0 <= k < old(self)@.entries.len() && old(self)@.entries[k].txid == txid@ && e@
                    == old(self)@.entries[k] && final(self)@ == (PoolModel {
                    entries: old(self)@.entries.remove(k),
                    total_bytes: (old(self)@.total_bytes - old(self)@.entries[k].size) as usize,
                    ..old(self)@
                }),
            r matches Some(e) ==> {
                &&& e@.txid == txid@
                &&& old(self)@.total_bytes >= e@.size
                &&& final(self)@.total_bytes == old(self)@.total_bytes - e@.size
                &&& final(self)@.entries.len() == old(self)@.entries.len() - 1
                &&& forall|j: int|
                    0 <= j < final(self)@.entries.len() ==> (#[trigger] final(self)@.entries[j]).txid
                        != txid@
                &&& forall|j: int, op: OutPointModel|
                    0 <= j < final(self)@.entries.len() && spends(e@, op) ==> !#[trigger] spends(
                        final(self)@.entries[j],
                        op,
                    )
            },
            r is None ==> final(self)@ == old(self)@ && forall|k: int|
                0 <= k < old(self)@.entries.len() ==> (#[trigger] old(self)@.entries[k]).txid
                    != txid@,
    {
        match self.find(txid) {
            Some(k) => {
                let ghost s = self@.entries;
                proof {
                    lemma_sizes_remove(s, k as int);
                }
                let e = self.remove_at(k);
                proof {
                    let t = s.remove(k as int);
                    assert forall|j: int| 0 <= j < t.len() implies (#[trigger] t[j]).txid != txid@ by {
                        let sj = if j < k { j } else { j + 1 };
                        assert(t[j] == s[sj]);
                    }
                    assert forall|j: int, op: OutPointModel|
                        0 <= j < t.len() && spends(e@, op) implies !#[trigger] spends(t[j], op) by {
                        let sj = if j < k { j } else { j + 1 };
                        assert(t[j] == s[sj]);
                        assert(spends(s[k as int], op));
                    }
                }
                Some(e)
            },
            None => None,
        }
    }

    /// Index of the pool entry spending `op`, if any.
    fn find_spender(&self, op: &OutPoint) -> (r: Option<usize>)
        requires
            self.wf(),
        ensures
            r matches Some(j) ==> spender(self@.entries, op@, self@.entries.len() as int) == Some(j as int),
            r is None ==> spender(self@.entries, op@, self@.entries.len() as int) is None,
    {
        let n = self.entries.len();
        let mut i: usize = 0;
        while i < n
            invariant
                n == self@.entries.len(),
                i <= n,
                spender(self@.entries, op@, i as int) is None,
            decreases n - i,
        {
            let e = &self.entries[i];
            assert(self@.entries[i as int] == e@);
            let m = e.tx.inputs.len();
            let mut a: usize = 0;
            let mut found = false;
            while a < m && !found
                invariant
                    m == e.tx.inputs@.len(),
                    a <= m,
                    self@.entries[i as int] == e@,
                    !found ==> forall|b: int| 0 <= b < a ==> (#[trigger] e@.tx.inputs[b]).previous_output != op@,
                    found ==> spends(e@, op@),
                decreases m - a + (if found { 0int } else { 1int }),
            {
                assert(e@.tx.inputs[a as int] == e.tx.inputs@[a as int]@);
                if e.tx.inputs[a].previous_output == *op {
                    found = true;
                    assert(e@.tx.inputs[a as int].previous_output == op@);
                } else {
                    a = a + 1;
                }
            }
            if found {
                proof {
                    assert(spender(self@.entries, op@, i + 1) == Some(i as int));
                    lemma_spender_stable(self@.entries, op@, i + 1, n as int);
                }
                return Some(i);
            }
            proof {
                if spends(e@, op@) {
                    let b = choose|b: int| 0 <= b < e@.tx.inputs.len() && #[trigger] e@.tx.inputs[b].previous_output == op@;
                    assert(e@.tx.inputs[b].previous_output != op@);
                }
            }
            i = i + 1;
        }
        None
    }

    /// Index of the entry with the least `(fee_rate, txid)`.
    fn min_entry(&self) -> (r: usize)
        requires
            self@.entries.len() >= 1,
        ensures
            r == min_index(self@.entries, self@.entries.len() as int),
    {
        let n = self.entries.len();
        let mut m: usize = 0;
        let mut i: usize = 1;
        while i < n
            invariant
                n == self@.entries.len(),
                1 <= i <= n,
                m == min_index(self@.entries, i as int),
            decreases n - i,
        {
            proof {
                lemma_index_range(self@.entries, i as int);
            }
            let a = &self.entries[i];
            let b = &self.entries[m];
            assert(self@.entries[i as int] == a@);
            assert(self@.entries[m as int] == b@);
            if a.fee_rate < b.fee_rate || (a.fee_rate == b.fee_rate && hash_lt(&a.txid, &b.txid)) {
                m = i;
            }
            i = i + 1;
        }
        m
    }

    /// Whether the pool lacks room for one more transaction of `size` bytes.
    fn full_for(&self, size: usize) -> (r: bool)
        ensures
            r == is_full(self@, self@.entries, self@.total_bytes as int, size as int),
    {
        if self.entries.len() >= self.max_count {
            return true;
        }
        match self.total_bytes.checked_add(size) {
            Some(t) => t > self.max_bytes,
            None => true,
        }
    }

    /// Insert a transaction that the caller has validated, with its fee.
    /// Refused: a fee below `MIN_TX_FEE`, a txid already in the pool, or an
    /// input spending an outpoint that a pool transaction spends. When the
    /// pool is full, entries with the lowest fee rate are evicted while their
    /// rate is strictly below the new transaction's; if room still lacks,
    /// the pool is full. Returns the txid.
    #[verifier::spinoff_prover]
    #[verifier::rlimit(60)]
    pub fn insert(&mut self, tx: Transaction, fee: u64) -> (r: Result<Hash256, MempoolError>)
        requires
            old(self).wf(),
        ensures
            final(self).wf(),
            (insert_result_view(r), final(self)@) == spec_insert(old(self)@, tx@, fee),
    {
        let ghost p = self@;
        if fee < MIN_TX_FEE {
            return Err(MempoolError::FeeTooLow { fee, minimum: MIN_TX_FEE });
        }
        let encoded = encode_transaction(&tx);
        let txid = Hash256(blake3_hash(encoded.as_slice()));
        let size = encoded.len();
        if self.find(&txid).is_some() {
            return Err(MempoolError::AlreadyExists(txid.to_hex()));
        }
        let n_in = tx.inputs.len();
        let mut j: usize = 0;
        while j < n_in
            invariant
                n_in == tx.inputs@.len(),
                j <= n_in,
                self@ == p,
                self.wf(),
                fee >= MIN_TX_FEE,
                txid@ == spec_txid(tx@),
                forall|i: int| 0 <= i < p.entries.len() ==> (#[trigger] p.entries[i]).txid != txid@,
                first_conflict(p.entries, tx@.inputs, j as int) is None,
            decreases n_in - j,
        {
            let op = tx.inputs[j].previous_output;
            assert(tx@.inputs[j as int].previous_output == op@);
            match self.find_spender(&op) {
                Some(k) => {
                    proof {
                        assert(first_conflict(p.entries, tx@.inputs, j + 1) == Some((op@, k as int)));
                        lemma_first_conflict_stable(p.entries, tx@.inputs, j + 1, n_in as int);
                        lemma_spender(p.entries, op@, p.entries.len() as int);
                        assert(p.entries[k as int] == self.entries@[k as int]@);
                    }
                    return Err(
                        MempoolError::Conflict {
                            new_txid: txid.to_hex(),
                            existing_txid: self.entries[k].txid.to_hex(),
                            outpoint: op.to_text(),
                        },
                    );
                },
                None => {},
            }
            j = j + 1;
        }
        let fee_rate = compute_fee_rate(fee, size);
        proof {
            lemma_no_conflict(p.entries, tx@.inputs, n_in as int);
            assert forall|i: int, op: OutPointModel| 0 <= i < p.entries.len() && #[trigger] spends(p.entries[i], op) implies !spends(
                EntryModel { tx: tx@, txid: txid@, fee, size, fee_rate },
                op,
            ) by {
                if spends(EntryModel { tx: tx@, txid: txid@, fee, size, fee_rate }, op) {
                    let a = choose|a: int| 0 <= a < tx@.inputs.len() && #[trigger] tx@.inputs[a].previous_output == op;
                    assert(!spends(p.entries[i], tx@.inputs[a].previous_output));
                }
            }
        }
        while self.full_for(size) && self.entries.len() > 0
            invariant
                p == old(self)@,
                self.wf(),
                fee >= MIN_TX_FEE,
                txid@ == spec_txid(tx@),
                size == enc_tx(tx@).len(),
                fee_rate == spec_fee_rate(fee, size),
                forall|i: int| 0 <= i < p.entries.len() ==> (#[trigger] p.entries[i]).txid != txid@,
                first_conflict(p.entries, tx@.inputs, tx@.inputs.len() as int) is None,
                self@.max_count == p.max_count,
                self@.max_bytes == p.max_bytes,
                evict(p, self@.entries, self@.total_bytes as int, size as int, fee_rate) == evict(
                    p,
                    p.entries,
                    p.total_bytes as int,
                    size as int,
                    fee_rate,
                ),
                forall|i: int| 0 <= i < self@.entries.len() ==> (#[trigger] self@.entries[i]).txid != txid@,
                forall|i: int, op: OutPointModel| 0 <= i < self@.entries.len() && #[trigger] spends(self@.entries[i], op) ==> !spends(
                    EntryModel { tx: tx@, txid: txid@, fee, size, fee_rate },
                    op,
                ),
            decreases self@.entries.len(),
        {
            let k = self.min_entry();
            proof {
                lemma_index_range(self@.entries, self@.entries.len() as int);
            }
            assert(self@.entries[k as int] == self.entries@[k as int]@);
            if self.entries[k].fee_rate >= fee_rate {
                proof {
                    assert(evict(p, self@.entries, self@.total_bytes as int, size as int, fee_rate) == (
                    self@.entries, self@.total_bytes as int, true));
                    assert(self@ == (PoolModel {
                        entries: self@.entries,
                        total_bytes: self@.total_bytes,
                        ..p
                    }));

                }
                return Err(MempoolError::PoolFull);
            }
            let ghost before = self@.entries;
            let ghost before_total = self@.total_bytes;
            proof {
                assert(evict(p, before, before_total as int, size as int, fee_rate) == evict(
                    p,
                    before.remove(k as int),
                    before_total - before[k as int].size,
                    size as int,
                    fee_rate,
                ));
            }
            self.remove_at(k);
            proof {
                lemma_sizes_remove(before, k as int);
                assert(self@.total_bytes as int == before_total - before[k as int].size);
                assert forall|i: int| 0 <= i < self@.entries.len() implies (#[trigger] self@.entries[i]).txid != txid@ by {
                    assert(self@.entries[i] == before[if i < k { i } else { i + 1 }]);
                }
                assert forall|i: int, op: OutPointModel| 0 <= i < self@.entries.len() && #[trigger] spends(self@.entries[i], op) implies !spends(
                    EntryModel { tx: tx@, txid: txid@, fee, size, fee_rate },
                    op,
                ) by {
                    assert(self@.entries[i] == before[if i < k { i } else { i + 1 }]);
                }
            }
        }
        if self.full_for(size) {
            return Err(MempoolError::PoolFull);
        }
        let ghost es = self@.entries;
        let entry = MempoolEntry { tx, txid, fee, size, fee_rate };
        proof {
            lemma_sizes_push(es, entry@);
        }
        self.entries.push(entry);
        self.total_bytes = self.total_bytes + size;
        proof {
            assert(self@.entries =~= es.push(entry@));
        }
        Ok(txid)
    }

    /// Whether some input of `tx` spends an outpoint that a pool
    /// transaction spends.
    pub fn has_conflict(&self, tx: &Transaction) -> (r: bool)
        requires
            self.wf(),
        ensures
            r == exists|a: int, j: int|
                0 <= a < tx@.inputs.len() && 0 <= j < self@.entries.len() && spends(
                    #[trigger] self@.entries[j],
                    #[trigger] tx@.inputs[a].previous_output,
                ),
    {
        let n = tx.inputs.len();
        let mut a: usize = 0;
        while a < n
            invariant
                n == tx@.inputs.len(),
                a <= n,
                self.wf(),
                forall|b: int, j: int|
                    0 <= b < a && 0 <= j < self@.entries.len() ==> !spends(
                        #[trigger] self@.entries[j],
                        #[trigger] tx@.inputs[b].previous_output,
                    ),
            decreases n - a,
        {
            let op = tx.inputs[a].previous_output;
            assert(tx@.inputs[a as int].previous_output == op@);
            proof {
                lemma_spender(self@.entries, op@, self@.entries.len() as int);
            }
            if self.find_spender(&op).is_some() {
                return true;
            }
            a = a + 1;
        }
        false
    }

    /// The distinct txids of the pool transactions that conflict with `tx`,
    /// in the order of the inputs that meet them.
    pub fn conflicting_txids(&self, tx: &Transaction) -> (r: Vec<Hash256>)
        requires
            self.wf(),
        ensures
            r@.map_values(|h: Hash256| h@) == conflict_list(
                self@.entries,
                tx@.inputs,
                tx@.inputs.len() as int,
            ),
            r@.map_values(|h: Hash256| h@).no_duplicates(),
            forall|j: int|
                0 <= j < self@.entries.len() ==> (r@.map_values(|h: Hash256| h@).contains(
                    #[trigger] self@.entries[j].txid,
                ) <==> exists|a: int|
                    0 <= a < tx@.inputs.len() && spends(
                        self@.entries[j],
                        #[trigger] tx@.inputs[a].previous_output,
                    )),
    {
        proof {
            lemma_conflict_list_exact(self@.entries, tx@.inputs, tx@.inputs.len() as int);
        }
        let n = tx.inputs.len();
        let mut out: Vec<Hash256> = Vec::new();
        let mut a: usize = 0;
        while a < n
            invariant
                n == tx@.inputs.len(),
                a <= n,
                self.wf(),
                out@.map_values(|h: Hash256| h@) == conflict_list(self@.entries, tx@.inputs, a as int),
            decreases n - a,
        {
            let op = tx.inputs[a].previous_output;
            assert(tx@.inputs[a as int].previous_output == op@);
            match self.find_spender(&op) {
                Some(j) => {
                    proof {
                        lemma_spender(self@.entries, op@, self@.entries.len() as int);
                    }
                    let id = self.entries[j].txid;
                    assert(self@.entries[j as int] == self.entries@[j as int]@);
                    let ghost prev = out@.map_values(|h: Hash256| h@);
                    let mut k: usize = 0;
                    let mut seen = false;
                    while k < out.len() && !seen
                        invariant
                            k <= out@.len(),
                            prev == out@.map_values(|h: Hash256| h@),
                            !seen ==> forall|q: int| 0 <= q < k ==> prev[q] != id@,
                            seen ==> prev.contains(id@),
                        decreases out@.len() - k + (if seen { 0int } else { 1int }),
                    {
                        if out[k] == id {
                            seen = true;
                            assert(prev[k as int] == id@);
                        } else {
                            k = k + 1;
                        }
                    }
                    if !seen {
                        out.push(id);
                        assert(out@.map_values(|h: Hash256| h@) =~= prev.push(id@));
                    }
                },
                None => {},
            }
            a = a + 1;
        }
        out
    }

    /// Transactions for a block template: highest `(fee_rate, txid)` first,
    /// taking each that fits the remaining byte budget, until it is spent.
    pub fn select_transactions(&self, max_block_bytes: usize) -> (r: Vec<&MempoolEntry>)
        requires
            self.wf(),
        ensures
            r@.map_values(|e: &MempoolEntry| e@) == greedy(descending(self@.entries), max_block_bytes as nat),
            sizes_sum_front(r@.map_values(|e: &MempoolEntry| e@)) <= max_block_bytes,
            forall|k: int|
                0 <= k < r@.len() ==> self@.entries.contains((#[trigger] r@[k])@),
            forall|i: int|
                0 <= i < self@.entries.len() && !r@.map_values(|e: &MempoolEntry| e@).contains(
                    #[trigger] self@.entries[i],
                ) ==> self@.entries[i].size + sizes_above(r@.map_values(|e: &MempoolEntry| e@), self@.entries[i])
                    > max_block_bytes,
    {
        let mut pending: Vec<&MempoolEntry> = Vec::new();
        let n = self.entries.len();
        let mut i: usize = 0;
        while i < n
            invariant
                n == self@.entries.len(),
                i <= n,
                pending@.map_values(|e: &MempoolEntry| e@) == self@.entries.take(i as int),
            decreases n - i,
        {
            let ghost before = pending@;
            pending.push(&self.entries[i]);
            proof {
                assert(self@.entries[i as int] == self.entries@[i as int]@);
                assert(pending@ == before.push(&self.entries@[i as int]));
                assert(self@.entries.take(i + 1) =~= self@.entries.take(i as int).push(self@.entries[i as int]));
                assert(pending@.map_values(|e: &MempoolEntry| e@) =~= before.map_values(|e: &MempoolEntry| e@).push(self@.entries[i as int]));
            }
            i = i + 1;
        }
        assert(self@.entries.take(n as int) =~= self@.entries);
        let mut selected: Vec<&MempoolEntry> = Vec::new();
        let mut remaining = max_block_bytes;
        while pending.len() > 0 && remaining > 0
            invariant
                greedy(descending(self@.entries), max_block_bytes as nat) == selected@.map_values(
                    |e: &MempoolEntry| e@,
                ) + greedy(descending(pending@.map_values(|e: &MempoolEntry| e@)), remaining as nat),
            decreases pending@.len(),
        {
            let ghost pv = pending@.map_values(|e: &MempoolEntry| e@);
            let len = pending.len();
            let mut m: usize = 0;
            let mut j: usize = 1;
            while j < len
                invariant
                    len == pending@.len(),
                    pv == pending@.map_values(|e: &MempoolEntry| e@),
                    1 <= j <= len,
                    m == max_index(pv, j as int),
                decreases len - j,
            {
                proof {
                    lemma_index_range(pv, j as int);
                }
                let a = pending[m];
                let b = pending[j];
                if a.fee_rate < b.fee_rate || (a.fee_rate == b.fee_rate && hash_lt(&a.txid, &b.txid)) {
                    m = j;
                }
                j = j + 1;
            }
            proof {
                lemma_index_range(pv, len as int);
            }
            let e = pending.remove(m);
            proof {
                assert(pending@.map_values(|e: &MempoolEntry| e@) =~= pv.remove(m as int));
                assert(descending(pv) == seq![pv[m as int]] + descending(pv.remove(m as int)));
                assert((seq![pv[m as int]] + descending(pv.remove(m as int))).drop_first() =~= descending(pv.remove(m as int)));
            }
            if e.size <= remaining {
                selected.push(e);
                remaining = remaining - e.size;
                proof {
                    let sv = selected@.map_values(|e: &MempoolEntry| e@);
                    assert(sv =~= selected@.drop_last().map_values(|e: &MempoolEntry| e@).push(e@));
                }
            }
        }
        proof {
            lemma_greedy_within_budget(descending(self@.entries), max_block_bytes as nat);
            lemma_selection_maximal(self@.entries, max_block_bytes as nat);
            let sv = selected@.map_values(|e: &MempoolEntry| e@);
            assert forall|k: int| 0 <= k < selected@.len() implies self@.entries.contains(
                (#[trigger] selected@[k])@,
            ) by {
                assert(sv[k] == selected@[k]@);
            }
        }
        selected
    }

    /// Drop the transactions confirmed by a block, and those spending an
    /// outpoint that the block spends.
    pub fn remove_confirmed_block(&mut self, block: &Block)
        requires
            old(self).wf(),
        ensures
            final(self).wf(),
            final(self)@ == (PoolModel {
                entries: survivors(
                    old(self)@.entries,
                    confirmed_txids(block@.transactions),
                    block_spent(block@.transactions),
                ),
                total_bytes: sizes_sum(
                    survivors(
                        old(self)@.entries,
                        confirmed_txids(block@.transactions),
                        block_spent(block@.transactions),
                    ),
                ) as usize,
                ..old(self)@
            }),
    {
        let ghost confirmed = confirmed_txids(block@.transactions);
        let ghost spent_set = block_spent(block@.transactions);
        let mut ids: Vec<Hash256> = Vec::new();
        let nt = block.transactions.len();
        let mut t: usize = 0;
        while t < nt
            invariant
                nt == block@.transactions.len(),
                t <= nt,
                ids@.map_values(|h: Hash256| h@) == block@.transactions.take(t as int).map_values(
                    |x: TxModel| spec_txid(x),
                ),
            decreases nt - t,
        {
            let tx = &block.transactions[t];
            assert(block@.transactions[t as int] == tx@);
            let id = match tx.txid() {
                Ok(h) => h,
                Err(_) => Hash256::zero(),
            };
            let ghost before = ids@;
            ids.push(id);
            proof {
                assert(block@.transactions.take(t + 1) =~= block@.transactions.take(t as int).push(tx@));
                assert(block@.transactions.take(t + 1).map_values(|x: TxModel| spec_txid(x)) =~= block@.transactions.take(t as int).map_values(|x: TxModel| spec_txid(x)).push(spec_txid(tx@)));
                assert(ids@.map_values(|h: Hash256| h@) =~= before.map_values(|h: Hash256| h@).push(id@));
            }
            t = t + 1;
        }
        proof {
            assert(block@.transactions.take(nt as int) =~= block@.transactions);
        }
        let ghost orig = self@.entries;
        let ghost c: int = 0;
        let mut i: usize = 0;
        while i < self.entries.len()
            invariant
                self.wf(),
                self@.max_count == old(self)@.max_count,
                self@.max_bytes == old(self)@.max_bytes,
                orig == old(self)@.entries,
                0 <= c <= orig.len(),
                i as int == survivors(orig.take(c), confirmed, spent_set).len(),
                self@.entries == survivors(orig.take(c), confirmed, spent_set) + orig.skip(c),
                ids@.map_values(|h: Hash256| h@).to_set() == confirmed,
                spent_set == block_spent(block@.transactions),
            decreases self@.entries.len() - i,
        {
            proof {
                assert(self@.entries[i as int] == orig[c]);
                assert(orig.take(c + 1).drop_last() =~= orig.take(c));
                assert(orig.take(c + 1).last() == orig[c]);
            }
            let keep = self.entry_survives(i, &ids, block);
            if keep {
                i = i + 1;
                proof {
                    assert(self@.entries =~= survivors(orig.take(c + 1), confirmed, spent_set) + orig.skip(c + 1));
                    c = c + 1;
                }
            } else {
                self.remove_at(i);
                proof {
                    assert(self@.entries =~= survivors(orig.take(c + 1), confirmed, spent_set) + orig.skip(c + 1));
                    c = c + 1;
                }
            }
        }
        proof {
            assert(orig.skip(c).len() == 0);
            assert(orig.take(c) =~= orig);
            assert(self@.entries =~= survivors(orig, confirmed, spent_set));
        }
    }

    /// Whether the entry at index `i` survives a block whose txids are `ids`.
    fn entry_survives(&self, i: usize, ids: &Vec<Hash256>, block: &Block) -> (r: bool)
        requires
            i < self@.entries.len(),
        ensures
            r == survives(
                self@.entries[i as int],
                ids@.map_values(|h: Hash256| h@).to_set(),
                block_spent(block@.transactions),
            ),
    {
        let e = &self.entries[i];
        assert(self@.entries[i as int] == e@);
        let ghost idv = ids@.map_values(|h: Hash256| h@);
        let mut k: usize = 0;
        while k < ids.len()
            invariant
                k <= ids@.len(),
                i < self@.entries.len(),
                self@.entries[i as int] == e@,
                idv == ids@.map_values(|h: Hash256| h@),
                forall|q: int| 0 <= q < k ==> idv[q] != e@.txid,
            decreases ids@.len() - k,
        {
            if ids[k] == e.txid {
                assert(idv[k as int] == e@.txid);
                assert(idv.contains(e@.txid));
                assert(idv.to_set().contains(e@.txid));
                return false;
            }
            k = k + 1;
        }
        assert(!idv.contains(e@.txid));
        let ghost spent = block_spent(block@.transactions);
        let n = e.tx.inputs.len();
        let mut a: usize = 0;
        while a < n
            invariant
                n == e@.tx.inputs.len(),
                a <= n,
                i < self@.entries.len(),
                self@.entries[i as int] == e@,
                !idv.contains(e@.txid),
                idv == ids@.map_values(|h: Hash256| h@),
                spent == block_spent(block@.transactions),
                forall|b: int| 0 <= b < a ==> !spent.contains(#[trigger] e@.tx.inputs[b].previous_output),
            decreases n - a,
        {
            let op = e.tx.inputs[a].previous_output;
            assert(e@.tx.inputs[a as int].previous_output == op@);
            if !op.is_null() {
                let nt = block.transactions.len();
                let mut t: usize = 0;
                while t < nt
                    invariant
                        nt == block@.transactions.len(),
                        t <= nt,
                        !is_null_outpoint(op@),
                        spent == block_spent(block@.transactions),
                        i < self@.entries.len(),
                        self@.entries[i as int] == e@,
                        a < n,
                        n == e@.tx.inputs.len(),
                        e@.tx.inputs[a as int].previous_output == op@,
                        forall|u: int, w: int|
                            0 <= u < t && 0 <= w < block@.transactions[u].inputs.len() ==> #[trigger] block@.transactions[u].inputs[w].previous_output != op@,
                    decreases nt - t,
                {
                    let tx = &block.transactions[t];
                    assert(block@.transactions[t as int] == tx@);
                    let m = tx.inputs.len();
                    let mut w: usize = 0;
                    while w < m
                        invariant
                            m == tx@.inputs.len(),
                            w <= m,
                            t < nt,
                            nt == block@.transactions.len(),
                            !is_null_outpoint(op@),
                            spent == block_spent(block@.transactions),
                            block@.transactions[t as int] == tx@,
                            i < self@.entries.len(),
                            self@.entries[i as int] == e@,
                            a < n,
                            n == e@.tx.inputs.len(),
                            e@.tx.inputs[a as int].previous_output == op@,
                            forall|q: int| 0 <= q < w ==> #[trigger] tx@.inputs[q].previous_output != op@,
                        decreases m - w,
                    {
                        assert(tx@.inputs[w as int].previous_output == tx.inputs@[w as int].previous_output@);
                        if tx.inputs[w].previous_output == op {
                            assert(block@.transactions[t as int].inputs[w as int].previous_output == op@);
                            assert(spent.contains(op@));
                            return false;
                        }
                        w = w + 1;
                    }
                    t = t + 1;
                }
            }
            a = a + 1;
        }
        true
    }

    /// Total fees of the pool's transactions.
    pub fn total_fees(&self) -> (r: u64)
        requires
            fees_sum(self@.entries) <= u64::MAX,
        ensures
            r == fees_sum(self@.entries),
    {
        let n = self.entries.len();
        let mut total: u64 = 0;
        let mut i: usize = 0;
        while i < n
            invariant
                n == self@.entries.len(),
                i <= n,
                fees_sum(self@.entries) <= u64::MAX,
                total == fees_sum(self@.entries.take(i as int)),
            decreases n - i,
        {
            proof {
                assert(self@.entries.take(i + 1).drop_last() =~= self@.entries.take(i as int));
                assert(self@.entries[i as int] == self.entries@[i as int]@);
                lemma_fees_prefix(self@.entries, i + 1);
            }
            total = total + self.entries[i].fee;
            i = i + 1;
        }
        assert(self@.entries.take(n as int) =~= self@.entries);
        total
    }

    /// The pool's entries, in no particular order.
    pub fn iter(&self) -> (r: std::slice::Iter<'_, MempoolEntry>)
        ensures
            vstd::std_specs::slice::into_iter_elts(r).map_values(|e: MempoolEntry| e@) == self@.entries,
    {
        let it = self.entries.as_slice().iter();
        proof {
            broadcast use vstd::std_specs::slice::axiom_spec_slice_iter;
        }
        it
    }

    /// The txids of the pool's transactions, in the order of its entries.
    pub fn txids(&self) -> (r: Vec<Hash256>)
        ensures
            r@.map_values(|h: Hash256| h@) == self@.entries.map_values(|e: EntryModel| e.txid),
    {
        let n = self.entries.len();
        let mut out: Vec<Hash256> = Vec::new();
        let mut i: usize = 0;
        while i < n
            invariant
                n == self@.entries.len(),
                i <= n,
                out@.map_values(|h: Hash256| h@) == self@.entries.take(i as int).map_values(
                    |e: EntryModel| e.txid,
                ),
            decreases n - i,
        {
            let ghost before = out@;
            out.push(self.entries[i].txid);
            proof {
                assert(self@.entries[i as int] == self.entries@[i as int]@);
                assert(self@.entries.take(i + 1) =~= self@.entries.take(i as int).push(self@.entries[i as int]));
                assert(self@.entries.take(i + 1).map_values(|e: EntryModel| e.txid) =~= self@.entries.take(i as int).map_values(|e: EntryModel| e.txid).push(self@.entries[i as int].txid));
                assert(out@.map_values(|h: Hash256| h@) =~= before.map_values(|h: Hash256| h@).push(self.entries@[i as int].txid@));
            }
            i = i + 1;
        }
        assert(self@.entries.take(n as int) =~= self@.entries);
        out
    }
}

} // verus!
