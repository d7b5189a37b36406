//! Wallet-side computations of the command-line wallet and the faucet:
//! reading UTXOs reported by a node, the decay-adjusted balance, and the
//! payment transaction.

use vstd::prelude::*;

use crate::explorer::values_total;
use vstd::string::StringSliceAdditionalSpecFns;

use crate::address::Address;
use crate::constants::CONCENTRATION_PRECISION;
use crate::crypto::{
    array32_of, ed25519_public_key, lemma_sign_preserves_other_inputs, sign_transaction_input,
    spec_signed, spec_verify_input, KeyPair,
};
use crate::error::CryptoError;
use crate::hashing::blake3_digest;
use crate::decay::engine::{spec_compute_decay, DecayEngine};
use crate::hexcode::{hex_decode, hex_decoded, hex_ok};
use crate::traits::DecayCalculator;
use crate::types::{
    Hash256, InputModel, OutPoint, OutputModel, Transaction, TxInput, TxModel, TxOutput, UtxoEntry,
};

verus! {

/// Hex text that decodes to exactly 32 bytes.
pub open spec fn hex32(s: Seq<u8>) -> bool {
    hex_ok(s) && hex_decoded(s).len() == 32
}

/// 32 bytes from hex text, if it decodes to exactly 32 bytes.
fn decode_hash(s: &str) -> (r: Option<Hash256>)
    ensures
        hex32(s.spec_bytes()) ==> (r matches Some(h) && h@ == hex_decoded(s.spec_bytes())),
        !hex32(s.spec_bytes()) ==> r is None,
{
    match hex_decode(s.as_bytes()) {
        Some(v) => {
            if v.len() == 32 {
                Some(Hash256(array32_of(v.as_slice())))
            } else {
                None
            }
        },
        None => None,
    }
}

/// A UTXO as a node reports it: the transaction id, cluster id and pubkey
/// hash in hex, each of which must decode to 32 bytes.
pub fn parse_utxo_fields(
    txid_hex: &str,
    index: u64,
    value: u64,
    block_height: u64,
    is_coinbase: bool,
    cluster_hex: &str,
    pubkey_hash_hex: &str,
) -> (r: Option<(OutPoint, UtxoEntry)>)
    ensures
        r is Some <==> hex32(txid_hex.spec_bytes()) && hex32(cluster_hex.spec_bytes()) && hex32(
            pubkey_hash_hex.spec_bytes(),
        ),
        r matches Some((op, e)) ==> op.txid@ == hex_decoded(txid_hex.spec_bytes()) && op.index
            == index && e.output.value == value && e.output.pubkey_hash@ == hex_decoded(
            pubkey_hash_hex.spec_bytes(),
        ) && e.block_height == block_height && e.is_coinbase == is_coinbase && e.cluster_id@
            == hex_decoded(cluster_hex.spec_bytes()),
{
    let txid = decode_hash(txid_hex);
    let cluster = decode_hash(cluster_hex);
    let pkh = decode_hash(pubkey_hash_hex);
    match (txid, cluster, pkh) {
        (Some(t), Some(c), Some(p)) => Some(
            (
                OutPoint { txid: t, index },
                UtxoEntry {
                    output: TxOutput { value, pubkey_hash: p },
                    block_height,
                    is_coinbase,
                    cluster_id: c,
                },
            ),
        ),
        _ => None,
    }
}

/// The concentration of a cluster in parts per billion of the circulating
/// supply, truncated to 64 bits; zero without supply.
pub open spec fn spec_concentration_ppb(cluster_balance: u64, circulating_supply: u64) -> u64 {
    if circulating_supply == 0 {
        0
    } else {
        ((cluster_balance as int) * (CONCENTRATION_PRECISION as int) / (circulating_supply as int)) as u64
    }
}

/// The concentration of a cluster in parts per billion of the circulating
/// supply (truncated to 64 bits), zero when there is no supply.
pub fn concentration_ppb(cluster_balance: u64, circulating_supply: u64) -> (r: u64)
    ensures
        r == spec_concentration_ppb(cluster_balance, circulating_supply),
{
    if circulating_supply == 0 {
        0
    } else {
        assert((cluster_balance as u128) * (CONCENTRATION_PRECISION as u128) <= u128::MAX) by (nonlinear_arith)
            requires
                cluster_balance <= u64::MAX,
        ;
        (((cluster_balance as u128) * (CONCENTRATION_PRECISION as u128)) / (circulating_supply as u128)) as u64
    }
}


/// Total value of UTXOs.
pub open spec fn value_sum(u: Seq<(OutPoint, UtxoEntry)>) -> nat
    decreases u.len(),
{
    if u.len() == 0 {
        0
    } else {
        value_sum(u.drop_last()) + u.last().1.output.value as nat
    }
}

/// The balance a node reported for a cluster: the first entry for it, zero
/// when there is none.
pub open spec fn reported_balance(balances: Seq<(Hash256, u64)>, c: Seq<u8>) -> u64
    decreases balances.len(),
{
    if balances.len() == 0 {
        0
    } else if balances[0].0@ == c {
        balances[0].1
    } else {
        reported_balance(balances.drop_first(), c)
    }
}

/// The decay-adjusted value of a UTXO at `height` in a cluster of the given
/// concentration.
pub open spec fn effective_of(e: UtxoEntry, concentration: u64, height: u64) -> int {
    let held = if height >= e.block_height {
        (height - e.block_height) as u64
    } else {
        0u64
    };
    e.output.value - spec_compute_decay(e.output.value, concentration, held)
}

/// A UTXO's decay-adjusted value depends on the heights only through the
/// number of blocks it has been held: moving both its height and the current
/// height on by the same amount leaves it unchanged, and a UTXO received at
/// (or after) the current height keeps its nominal value.
pub proof fn lemma_effective_by_blocks_held(e: UtxoEntry, concentration: u64, height: u64, d: u64)
    requires
        height + d <= u64::MAX,
        e.block_height + d <= u64::MAX,
    ensures
        e.block_height <= height ==> effective_of(
            (UtxoEntry { block_height: (e.block_height + d) as u64, ..e }),
            concentration,
            (height + d) as u64,
        ) == effective_of(e, concentration, height),
        height <= e.block_height ==> effective_of(e, concentration, height) == e.output.value,
        effective_of((UtxoEntry { block_height: height, ..e }), concentration, height) == e.output.value,
{
}

/// Total decay-adjusted value of UTXOs, each at its cluster's concentration.
pub open spec fn effective_sum(
    u: Seq<(OutPoint, UtxoEntry)>,
    balances: Seq<(Hash256, u64)>,
    supply: u64,
    height: u64,
) -> int
    decreases u.len(),
{
    if u.len() == 0 {
        0
    } else {
        let e = u.last().1;
        effective_sum(u.drop_last(), balances, supply, height) + effective_of(
            e,
            spec_concentration_ppb(reported_balance(balances, e.cluster_id@), supply),
            height,
        )
    }
}

/// The UTXOs of one cluster, in order.
pub open spec fn in_cluster(u: Seq<(OutPoint, UtxoEntry)>, c: Seq<u8>) -> Seq<(OutPoint, UtxoEntry)>
    decreases u.len(),
{
    if u.len() == 0 {
        Seq::empty()
    } else {
        let p = in_cluster(u.drop_last(), c);
        if u.last().1.cluster_id@ == c {
            p.push(u.last())
        } else {
            p
        }
    }
}

/// The clusters of UTXOs, each once, in order of first appearance.
pub open spec fn clusters_of(u: Seq<(OutPoint, UtxoEntry)>) -> Seq<Seq<u8>>
    decreases u.len(),
{
    if u.len() == 0 {
        Seq::empty()
    } else {
        let prev = clusters_of(u.drop_last());
        let c = u.last().1.cluster_id@;
        if prev.contains(c) {
            prev
        } else {
            prev.push(c)
        }
    }
}

/// The clusters of UTXOs, each once, in order of first appearance.
pub fn distinct_clusters(utxos: &[(OutPoint, UtxoEntry)]) -> (r: Vec<Hash256>)
    ensures
        r@.map_values(|h: Hash256| h@) == clusters_of(utxos@),
{
    let mut out: Vec<Hash256> = Vec::new();
    let mut i: usize = 0;
    while i < utxos.len()
        invariant
            i <= utxos@.len(),
            out@.map_values(|h: Hash256| h@) == clusters_of(utxos@.take(i as int)),
        decreases utxos@.len() - i,
    {
        let c = utxos[i].1.cluster_id;
        let ghost prev = out@.map_values(|h: Hash256| h@);
        proof {
            assert(utxos@.take(i + 1).drop_last() =~= utxos@.take(i as int));
        }
        let mut found = false;
        let mut k: usize = 0;
        while k < out.len()
            invariant
                k <= out@.len(),
                prev == out@.map_values(|h: Hash256| h@),
                found == exists|m: int| 0 <= m < k && prev[m] == c@,
            decreases out@.len() - k,
        {
            assert(prev[k as int] == out@[k as int]@);
            if out[k] == c {
                found = true;
            }
            k = k + 1;
        }
        if !found {
            out.push(c);
            proof {
                assert(out@.map_values(|h: Hash256| h@) =~= prev.push(c@));
            }
        }
        proof {
            if found {
                let m = choose|m: int| 0 <= m < out@.len() && prev[m] == c@;
                assert(prev.contains(c@));
            } else {
                assert(!prev.contains(c@));
            }
        }
        i = i + 1;
    }
    proof {
        assert(utxos@.take(utxos@.len() as int) =~= utxos@);
    }
    out
}


/// A cluster's totals: its nominal and decay-adjusted values.
#[derive(Clone, Copy, Debug, PartialEq, Eq)]
pub struct ClusterBalance {
    pub cluster_id: Hash256,
    pub nominal: u64,
    pub effective: u64,
}

/// A wallet balance: nominal and decay-adjusted totals, the decay between
/// them, and the totals of each cluster in order of first appearance.
#[derive(Clone, Debug, PartialEq, Eq)]
pub struct BalanceSummary {
    pub nominal: u64,
    pub effective: u64,
    pub decay: u64,
    pub clusters: Vec<ClusterBalance>,
}

proof fn lemma_value_sum_prefix(u: Seq<(OutPoint, UtxoEntry)>, j: int)
    requires
        0 <= j <= u.len(),
    ensures
        value_sum(u.take(j)) <= value_sum(u),
    decreases u.len(),
{
    if j < u.len() {
        assert(u.drop_last().take(j) =~= u.take(j));
        lemma_value_sum_prefix(u.drop_last(), j);
    } else {
        assert(u.take(j) =~= u);
    }
}

proof fn lemma_in_cluster_le(u: Seq<(OutPoint, UtxoEntry)>, c: Seq<u8>)
    ensures
        value_sum(in_cluster(u, c)) <= value_sum(u),
    decreases u.len(),
{
    if u.len() > 0 {
        lemma_in_cluster_le(u.drop_last(), c);
        let p = in_cluster(u.drop_last(), c);
        if u.last().1.cluster_id@ == c {
            assert(p.push(u.last()).drop_last() =~= p);
        }
    }
}

/// The reported balance of a cluster.
fn reported(balances: &[(Hash256, u64)], c: &Hash256) -> (r: u64)
    ensures
        r == reported_balance(balances@, c@),
{
    let mut i: usize = 0;
    assert(balances@.skip(0) =~= balances@);
    while i < balances.len()
        invariant
            i <= balances@.len(),
            reported_balance(balances@, c@) == reported_balance(balances@.skip(i as int), c@),
        decreases balances@.len() - i,
    {
        assert(balances@.skip(i as int)[0] == balances@[i as int]);
        assert(balances@.skip(i as int).drop_first() =~= balances@.skip(i + 1));
        if balances[i].0 == *c {
            return balances[i].1;
        }
        i = i + 1;
    }
    assert(balances@.skip(i as int) =~= Seq::<(Hash256, u64)>::empty());
    0
}

/// The decay-adjusted value of one UTXO.
fn effective_value_of(engine: &DecayEngine, e: &UtxoEntry, concentration: u64, height: u64) -> (r: u64)
    ensures
        r == effective_of(*e, concentration, height),
        r <= e.output.value,
{
    let held = height.saturating_sub(e.block_height);
    match engine.effective_value(e.output.value, concentration, held) {
        Ok(v) => v,
        Err(_) => e.output.value,
    }
}

/// Nominal and decay-adjusted totals of the UTXOs of cluster `c` (or of all
/// UTXOs when `c` is `None`).
fn cluster_totals(
    engine: &DecayEngine,
    utxos: &[(OutPoint, UtxoEntry)],
    balances: &[(Hash256, u64)],
    c: Option<Hash256>,
    supply: u64,
    height: u64,
) -> (r: (u64, u64))
    requires
        value_sum(utxos@) <= u64::MAX,
    ensures
        c matches Some(h) ==> r.0 == value_sum(in_cluster(utxos@, h@)) && r.1 == effective_sum(
            in_cluster(utxos@, h@),
            balances@,
            supply,
            height,
        ),
        c is None ==> r.0 == value_sum(utxos@) && r.1 == effective_sum(utxos@, balances@, supply, height),
        r.1 <= r.0,
{
    let mut nominal: u64 = 0;
    let mut effective: u64 = 0;
    let mut j: usize = 0;
    while j < utxos.len()
        invariant
            j <= utxos@.len(),
            value_sum(utxos@) <= u64::MAX,
            c matches Some(h) ==> nominal == value_sum(in_cluster(utxos@.take(j as int), h@))
                && effective == effective_sum(
                in_cluster(utxos@.take(j as int), h@),
                balances@,
                supply,
                height,
            ),
            c is None ==> nominal == value_sum(utxos@.take(j as int)) && effective == effective_sum(
                utxos@.take(j as int),
                balances@,
                supply,
                height,
            ),
            effective <= nominal,
        decreases utxos@.len() - j,
    {
        let e = utxos[j].1;
        let ghost pre = utxos@.take(j as int);
        let ghost next = utxos@.take(j + 1);
        proof {
            assert(next.drop_last() =~= pre);
            assert(next.last() == utxos@[j as int]);
            lemma_value_sum_prefix(utxos@, j + 1);
            if let Some(h) = c {
                lemma_in_cluster_le(next, h@);
                let p = in_cluster(pre, h@);
                assert(p.push(utxos@[j as int]).drop_last() =~= p);
            }
        }
        let counts = match c {
            Some(h) => e.cluster_id == h,
            None => true,
        };
        if counts {
            let conc = concentration_ppb(reported(balances, &e.cluster_id), supply);
            let v = effective_value_of(engine, &e, conc, height);
            nominal = nominal + e.output.value;
            effective = effective + v;
        }
        j = j + 1;
    }
    proof {
        assert(utxos@.take(utxos@.len() as int) =~= utxos@);
    }
    (nominal, effective)
}

/// The balance of UTXOs at `height`: each UTXO's value after the decay of a
/// cluster whose balance the node reported in `balances` (zero when absent),
/// against `circulating_supply`.
pub fn balance_summary(
    utxos: &[(OutPoint, UtxoEntry)],
    balances: &[(Hash256, u64)],
    circulating_supply: u64,
    height: u64,
) -> (r: BalanceSummary)
    requires
        value_sum(utxos@) <= u64::MAX,
    ensures
        r.nominal == value_sum(utxos@),
        r.effective == effective_sum(utxos@, balances@, circulating_supply, height),
        r.decay == r.nominal - r.effective,
        r.clusters@.len() == clusters_of(utxos@).len(),
        forall|i: int|
            #![trigger r.clusters@[i]]
            0 <= i < r.clusters@.len() ==> {
                let c = clusters_of(utxos@)[i];
                &&& r.clusters@[i].cluster_id@ == c
                &&& r.clusters@[i].nominal == value_sum(in_cluster(utxos@, c))
                &&& r.clusters@[i].effective == effective_sum(
                    in_cluster(utxos@, c),
                    balances@,
                    circulating_supply,
                    height,
                )
            },
{
    let engine = DecayEngine::new();
    let ids = distinct_clusters(utxos);
    let (nominal, effective) = cluster_totals(&engine, utxos, balances, None, circulating_supply, height);
    let mut clusters: Vec<ClusterBalance> = Vec::new();
    let mut k: usize = 0;
    while k < ids.len()
        invariant
            k <= ids@.len(),
            ids@.map_values(|h: Hash256| h@) == clusters_of(utxos@),
            value_sum(utxos@) <= u64::MAX,
            clusters@.len() == k,
            forall|i: int|
                #![trigger clusters@[i]]
                0 <= i < k ==> {
                    let c = clusters_of(utxos@)[i];
                    &&& clusters@[i].cluster_id@ == c
                    &&& clusters@[i].nominal == value_sum(in_cluster(utxos@, c))
                    &&& clusters@[i].effective == effective_sum(
                        in_cluster(utxos@, c),
                        balances@,
                        circulating_supply,
                        height,
                    )
                },
        decreases ids@.len() - k,
    {
        let c = ids[k];
        assert(ids@.map_values(|h: Hash256| h@)[k as int] == c@);
        let (n, e) = cluster_totals(&engine, utxos, balances, Some(c), circulating_supply, height);
        clusters.push(ClusterBalance { cluster_id: c, nominal: n, effective: e });
        k = k + 1;
    }
    BalanceSummary { nominal, effective, decay: nominal - effective, clusters }
}


/// The outputs of a payment: `amount` to the recipient, then `change` to the
/// change address when it is not zero.
pub open spec fn payment_outputs(recipient: Seq<u8>, amount: u64, change_to: Seq<u8>, change: u64) -> Seq<OutputModel> {
    if change > 0 {
        seq![
            OutputModel { value: amount, pubkey_hash: recipient },
            OutputModel { value: change, pubkey_hash: change_to },
        ]
    } else {
        seq![OutputModel { value: amount, pubkey_hash: recipient }]
    }
}

/// The unsigned payment spending `selected`: version 1, no lock time, one
/// input per selected UTXO with an empty signature and key, and the outputs
/// of [`payment_outputs`].
pub fn build_payment(
    selected: &[(OutPoint, UtxoEntry)],
    recipient: &Address,
    amount: u64,
    change: u64,
    change_address: &Address,
) -> (r: Transaction)
    ensures
        r@.version == 1,
        r@.lock_time == 0,
        r@.inputs.len() == selected@.len(),
        forall|i: int|
            0 <= i < selected@.len() ==> #[trigger] r@.inputs[i] == (InputModel {
                previous_output: selected@[i].0@,
                signature: Seq::empty(),
                public_key: Seq::empty(),
            }),
        r@.outputs == payment_outputs(recipient@.pubkey_hash, amount, change_address@.pubkey_hash, change),
{
    let mut inputs: Vec<TxInput> = Vec::new();
    let mut i: usize = 0;
    while i < selected.len()
        invariant
            i <= selected@.len(),
            inputs@.len() == i,
            forall|j: int|
                0 <= j < i ==> #[trigger] inputs@[j]@ == (InputModel {
                    previous_output: selected@[j].0@,
                    signature: Seq::empty(),
                    public_key: Seq::empty(),
                }),
        decreases selected@.len() - i,
    {
        inputs.push(TxInput { previous_output: selected[i].0, signature: Vec::new(), public_key: Vec::new() });
        i = i + 1;
    }
    let mut outputs: Vec<TxOutput> = Vec::new();
    outputs.push(TxOutput { value: amount, pubkey_hash: recipient.pubkey_hash() });
    if change > 0 {
        outputs.push(TxOutput { value: change, pubkey_hash: change_address.pubkey_hash() });
    }
    let r = Transaction { version: 1, inputs, outputs, lock_time: 0 };
    assert(r@.outputs =~= payment_outputs(recipient@.pubkey_hash, amount, change_address@.pubkey_hash, change));
    r
}

/// The pubkey hash that input `i` must be signed for by `keys[i]`.
pub open spec fn key_hash(keys: Seq<KeyPair>, i: int) -> Seq<u8> {
    blake3_digest(ed25519_public_key(keys[i]@))
}

/// `tx` with its first `k` inputs signed, input `i` with `keys[i]`, in order.
pub open spec fn signed_upto(tx: TxModel, keys: Seq<KeyPair>, k: nat) -> TxModel
    decreases k,
{
    if k == 0 {
        tx
    } else {
        spec_signed(signed_upto(tx, keys, (k - 1) as nat), k - 1, keys[k - 1]@)
    }
}

/// Sign every input of `tx` in order, input `i` with `keys[i]`. Afterwards
/// every input verifies against the pubkey hash of its key: signing an input
/// leaves the others' signatures valid.
pub fn sign_inputs(tx: &mut Transaction, keys: &[KeyPair])
    requires
        keys@.len() == old(tx).inputs@.len(),
    ensures
        final(tx)@ == signed_upto(old(tx)@, keys@, keys@.len()),
        final(tx)@.inputs.len() == old(tx)@.inputs.len(),
        forall|i: int|
            0 <= i < final(tx)@.inputs.len() ==> #[trigger] spec_verify_input(final(tx)@, i, key_hash(keys@, i))
                == Ok::<(), CryptoError>(()),
{
    let n = tx.inputs.len();
    let mut i: usize = 0;
    while i < n
        invariant
            i <= n,
            n == tx@.inputs.len(),
            n == keys@.len(),
            tx@ == signed_upto(old(tx)@, keys@, i as nat),
            forall|j: int|
                0 <= j < i ==> #[trigger] spec_verify_input(tx@, j, key_hash(keys@, j)) == Ok::<(), CryptoError>(()),
        decreases n - i,
    {
        let ghost before = tx@;
        let _ = sign_transaction_input(tx, i, &keys[i]);
        proof {
            assert forall|j: int| 0 <= j < i + 1 implies #[trigger] spec_verify_input(tx@, j, key_hash(keys@, j))
                == Ok::<(), CryptoError>(()) by {
                if j < i {
                    lemma_sign_preserves_other_inputs(before, i as int, j, keys@[i as int]@, key_hash(keys@, j));
                }
            }
        }
        i = i + 1;
    }
}

/// The total of reported UTXO values, stopping at the largest 64-bit value
/// instead of overflowing.
pub fn saturating_total(values: &[u64]) -> (r: u64)
    ensures
        r == if values_total(values@) <= u64::MAX {
            values_total(values@)
        } else {
            u64::MAX as nat
        },
{
    let mut acc: u64 = 0;
    let mut i: usize = 0;
    while i < values.len()
        invariant
            i <= values@.len(),
            acc == if values_total(values@.subrange(0, i as int)) <= u64::MAX {
                values_total(values@.subrange(0, i as int))
            } else {
                u64::MAX as nat
            },
        decreases values@.len() - i,
    {
        proof {
            let t = values@.subrange(0, i + 1);
            assert(t.drop_last() =~= values@.subrange(0, i as int));
        }
        acc = acc.saturating_add(values[i]);
        i = i + 1;
    }
    assert(values@.subrange(0, values@.len() as int) =~= values@);
    acc
}

/// Addresses in a row that must come back empty before a scan of derived
/// addresses stops.
pub const SCAN_GAP_LIMIT: u32 = 2;

/// One step of scanning derived addresses: the run of empty addresses so far
/// is reset by an address with UTXOs and grows by an empty one; the scan
/// stops once the run reaches two.
pub fn gap_scan_step(empty_run: u32, found: bool) -> (r: (u32, bool))
    requires
        empty_run < u32::MAX,
    ensures
        r.0 == if found {
            0
        } else {
            empty_run + 1
        },
        r.1 == (r.0 >= SCAN_GAP_LIMIT),
{
    let run = if found {
        0
    } else {
        empty_run + 1
    };
    (run, run >= SCAN_GAP_LIMIT)
}

} // verus!
