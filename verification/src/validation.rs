//! Transaction validation.
//!
//! - Structural validation ([`validate_transaction_structure`]) checks the
//!   format of a transaction on its own.
//! - Contextual validation ([`validate_transaction`]) adds the UTXO-aware
//!   checks: every input spends a known output, coinbase outputs have
//!   matured, every signature verifies, and inputs cover outputs.
//!
//! A coinbase is only checked structurally here; its reward is checked with
//! the block that carries it.

use vstd::prelude::*;

use crate::constants::{COINBASE_MATURITY, MAX_COINBASE_DATA, MAX_TX_SIZE};
use crate::crypto::{spec_verify_input, verify_transaction_input};
use crate::error::{push_str, push_u64, TransactionError, TxErr};
use crate::types::{
    decimal_chars, encode_transaction, enc_tx, hex_chars, is_null_outpoint, outputs_sum,
    spec_is_coinbase, InputModel, OutPoint, OutPointModel, OutputModel, Transaction, TxInput, TxModel,
    UtxoEntry,
};

verus! {

/// Summary of a transaction that passed contextual validation.
#[derive(Debug, Clone, Copy, PartialEq, Eq, Structural)]
pub struct ValidatedTransaction {
    /// Total value of the spent outputs, in rills.
    pub total_input: u64,
    /// Total value of the created outputs, in rills.
    pub total_output: u64,
    /// The fee, `total_input - total_output`, in rills.
    pub fee: u64,
}

/// `txid:index` of an outpoint: the txid in lower-case hex, the index in decimal.
pub open spec fn outpoint_text(op: OutPointModel) -> Seq<char> {
    hex_chars(op.txid) + seq![':'] + decimal_chars(op.index as nat)
}

/// The first of the first `n` outputs with value zero, if any.
pub open spec fn first_zero_output(outs: Seq<OutputModel>, n: int) -> Option<int>
    decreases n,
{
    if n <= 0 {
        None
    } else {
        match first_zero_output(outs, n - 1) {
            Some(i) => Some(i),
            None => if outs[n - 1].value == 0 {
                Some(n - 1)
            } else {
                None
            },
        }
    }
}

/// What is wrong with input `i` of a non-coinbase transaction, given the
/// inputs before it: a null outpoint, an outpoint spent by an earlier input,
/// or a signature or public key of the wrong length.
pub open spec fn regular_input_error(inputs: Seq<InputModel>, i: int) -> Option<TxErr> {
    let input = inputs[i];
    if is_null_outpoint(input.previous_output) {
        Some(TxErr::NullOutpointInRegularTx(i as usize))
    } else if exists|j: int| 0 <= j < i && #[trigger] inputs[j].previous_output == input.previous_output {
        Some(TxErr::DuplicateInput(outpoint_text(input.previous_output)))
    } else if input.signature.len() != 64 || input.public_key.len() != 32 {
        Some(TxErr::InvalidSignature { index: i as usize })
    } else {
        None
    }
}

/// The error of the first faulty input among the first `n`, if any.
pub open spec fn first_regular_error(inputs: Seq<InputModel>, n: int) -> Option<TxErr>
    decreases n,
{
    if n <= 0 {
        None
    } else {
        match first_regular_error(inputs, n - 1) {
            Some(e) => Some(e),
            None => regular_input_error(inputs, n - 1),
        }
    }
}

/// The message of a coinbase whose data is too large.
pub open spec fn coinbase_data_message(len: nat) -> Seq<char> {
    "data too large: "@ + decimal_chars(len) + " > "@ + decimal_chars(MAX_COINBASE_DATA as nat)
}

/// The outcome of structural validation.
pub open spec fn spec_structure(tx: TxModel) -> Result<(), TxErr> {
    if tx.inputs.len() == 0 || tx.outputs.len() == 0 {
        Err(TxErr::EmptyInputsOrOutputs)
    } else if let Some(i) = first_zero_output(tx.outputs, tx.outputs.len() as int) {
        Err(TxErr::ZeroValueOutput(i as usize))
    } else if outputs_sum(tx.outputs) > u64::MAX {
        Err(TxErr::ValueOverflow)
    } else if enc_tx(tx).len() > MAX_TX_SIZE {
        Err(TxErr::OversizedTransaction { size: enc_tx(tx).len() as usize, max: MAX_TX_SIZE })
    } else if spec_is_coinbase(tx) {
        if tx.inputs[0].signature.len() > MAX_COINBASE_DATA {
            Err(TxErr::InvalidCoinbase(coinbase_data_message(tx.inputs[0].signature.len())))
        } else {
            Ok(())
        }
    } else {
        match first_regular_error(tx.inputs, tx.inputs.len() as int) {
            Some(e) => Err(e),
            None => Ok(()),
        }
    }
}

/// Once a prefix has a zero output, longer prefixes report the same one.
proof fn lemma_first_zero_stable(outs: Seq<OutputModel>, k: int, n: int)
    requires
        0 <= k <= n,
        first_zero_output(outs, k) is Some,
    ensures
        first_zero_output(outs, n) == first_zero_output(outs, k),
    decreases n - k,
{
    if n > k {
        lemma_first_zero_stable(outs, k, n - 1);
    }
}

/// Once a prefix has a faulty input, longer prefixes report the same one.
proof fn lemma_first_regular_stable(inputs: Seq<InputModel>, k: int, n: int)
    requires
        0 <= k <= n,
        first_regular_error(inputs, k) is Some,
    ensures
        first_regular_error(inputs, n) == first_regular_error(inputs, k),
    decreases n - k,
{
    if n > k {
        lemma_first_regular_stable(inputs, k, n - 1);
    }
}

/// Validate the format of a transaction on its own: inputs and outputs
/// present, no zero output, no overflowing total, within the size limit;
/// a coinbase carries at most `MAX_COINBASE_DATA` bytes of data; a regular
/// transaction spends distinct non-null outpoints, each with a 64-byte
/// signature and a 32-byte public key.
pub fn validate_transaction_structure(tx: &Transaction) -> (r: Result<(), TransactionError>)
    ensures
        match r {
            Ok(()) => spec_structure(tx@) == Ok::<(), TxErr>(()),
            Err(e) => spec_structure(tx@) == Err::<(), TxErr>(e@),
        },
{
    if tx.inputs.len() == 0 || tx.outputs.len() == 0 {
        return Err(TransactionError::EmptyInputsOrOutputs);
    }
    let n_out = tx.outputs.len();
    let mut i: usize = 0;
    while i < n_out
        invariant
            n_out == tx@.outputs.len(),
            tx@.inputs.len() > 0,
            i <= n_out,
            first_zero_output(tx@.outputs, i as int) is None,
        decreases n_out - i,
    {
        assert(tx@.outputs[i as int] == tx.outputs@[i as int]@);
        if tx.outputs[i].value == 0 {
            proof {
                assert(first_zero_output(tx@.outputs, i + 1) == Some(i as int));
                lemma_first_zero_stable(tx@.outputs, i + 1, n_out as int);
            }
            return Err(TransactionError::ZeroValueOutput(i));
        }
        i = i + 1;
    }
    if tx.total_output_value().is_none() {
        return Err(TransactionError::ValueOverflow);
    }
    let encoded = encode_transaction(tx);
    if encoded.len() > MAX_TX_SIZE {
        return Err(TransactionError::OversizedTransaction { size: encoded.len(), max: MAX_TX_SIZE });
    }
    if tx.is_coinbase() {
        let data_len = tx.inputs[0].signature.len();
        assert(tx@.inputs[0] == tx.inputs@[0]@);
        if data_len > MAX_COINBASE_DATA {
            let mut msg = String::new();
            push_str(&mut msg, "data too large: ");
            push_u64(&mut msg, data_len as u64);
            push_str(&mut msg, " > ");
            push_u64(&mut msg, MAX_COINBASE_DATA as u64);
            return Err(TransactionError::InvalidCoinbase(msg));
        }
        return Ok(());
    }
    validate_regular_structure(tx)
}

/// The per-input checks of a non-coinbase transaction, first failure first.
fn validate_regular_structure(tx: &Transaction) -> (r: Result<(), TransactionError>)
    ensures
        match r {
            Ok(()) => first_regular_error(tx@.inputs, tx@.inputs.len() as int) is None,
            Err(e) => first_regular_error(tx@.inputs, tx@.inputs.len() as int) == Some(e@),
        },
{
    let n = tx.inputs.len();
    let ghost inputs = tx@.inputs;
    let mut i: usize = 0;
    while i < n
        invariant
            n == tx.inputs@.len(),
            inputs == tx@.inputs,
            i <= n,
            first_regular_error(inputs, i as int) is None,
        decreases n - i,
    {
        let input = &tx.inputs[i];
        assert(inputs[i as int] == input@);
        let op = input.previous_output;
        let err: Option<TransactionError> = if op.is_null() {
            Some(TransactionError::NullOutpointInRegularTx(i))
        } else {
            let mut dup = false;
            let mut j: usize = 0;
            while j < i && !dup
                invariant
                    n == tx.inputs@.len(),
                    inputs == tx@.inputs,
                    i < n,
                    j <= i,
                    op@ == inputs[i as int].previous_output,
                    !dup ==> forall|k: int| 0 <= k < j ==> #[trigger] inputs[k].previous_output != op@,
                    dup ==> exists|k: int| 0 <= k < i && #[trigger] inputs[k].previous_output == op@,
                decreases i - j + (if dup { 0int } else { 1int }),
            {
                assert(inputs[j as int] == tx.inputs@[j as int]@);
                if tx.inputs[j].previous_output == op {
                    dup = true;
                    assert(inputs[j as int].previous_output == op@);
                } else {
                    j = j + 1;
                }
            }
            if dup {
                Some(TransactionError::DuplicateInput(op.to_text()))
            } else if input.signature.len() != 64 || input.public_key.len() != 32 {
                Some(TransactionError::InvalidSignature { index: i })
            } else {
                None
            }
        };
        match err {
            Some(e) => {
                proof {
                    assert(first_regular_error(inputs, i + 1) == Some(e@));
                    lemma_first_regular_stable(inputs, i + 1, n as int);
                }
                return Err(e);
            },
            None => {},
        }
        i = i + 1;
    }
    Ok(())
}

/// The output an input spends, as looked up: `None` past the end of the lookups.
pub open spec fn looked_up(looked: Seq<Option<UtxoEntry>>, i: int) -> Option<UtxoEntry> {
    if 0 <= i < looked.len() {
        looked[i]
    } else {
        None
    }
}

/// Whether a coinbase output is too young to spend at `height`.
pub open spec fn immature(u: UtxoEntry, height: u64) -> bool {
    u.is_coinbase && (if height >= u.block_height {
        height - u.block_height
    } else {
        0
    }) < COINBASE_MATURITY
}

/// The contextual checks of the first `n` inputs in order, with the running
/// total of their values: each must spend a looked-up output, a coinbase
/// output must have matured, its signature must verify against the output's
/// pubkey hash, and the total must fit in a `u64`.
pub open spec fn spend_checks(tx: TxModel, looked: Seq<Option<UtxoEntry>>, height: u64, n: int) -> Result<
    int,
    TxErr,
>
    decreases n,
{
    if n <= 0 {
        Ok(0)
    } else {
        match spend_checks(tx, looked, height, n - 1) {
            Err(e) => Err(e),
            Ok(total) => {
                let i = n - 1;
                match looked_up(looked, i) {
                    None => Err(TxErr::UnknownUtxo(outpoint_text(tx.inputs[i].previous_output))),
                    Some(u) => if immature(u, height) {
                        Err(TxErr::ImmatureCoinbase { index: i as usize })
                    } else if spec_verify_input(tx, i, u.output.pubkey_hash@) is Err {
                        Err(TxErr::InvalidSignature { index: i as usize })
                    } else if total + u.output.value > u64::MAX {
                        Err(TxErr::ValueOverflow)
                    } else {
                        Ok(total + u.output.value)
                    },
                }
            },
        }
    }
}

/// The message for a coinbase given to contextual validation.
pub open spec fn standalone_coinbase_message() -> Seq<char> {
    "coinbase cannot be contextually validated standalone"@
}

/// The outcome of contextual validation, given the output each input spends.
pub open spec fn spec_validate_transaction(tx: TxModel, looked: Seq<Option<UtxoEntry>>, height: u64) -> Result<
    ValidatedTransaction,
    TxErr,
> {
    if spec_is_coinbase(tx) {
        Err(TxErr::InvalidCoinbase(standalone_coinbase_message()))
    } else {
        match spec_structure(tx) {
            Err(e) => Err(e),
            Ok(()) => match spend_checks(tx, looked, height, tx.inputs.len() as int) {
                Err(e) => Err(e),
                Ok(total_input) => {
                    let total_output = outputs_sum(tx.outputs);
                    if total_input < total_output {
                        Err(
                            TxErr::InsufficientFunds {
                                have: total_input as u64,
                                need: total_output as u64,
                            },
                        )
                    } else {
                        Ok(
                            ValidatedTransaction {
                                total_input: total_input as u64,
                                total_output: total_output as u64,
                                fee: (total_input - total_output) as u64,
                            },
                        )
                    }
                },
            },
        }
    }
}

/// A validation result as a mathematical value.
pub open spec fn tx_result_view(r: Result<ValidatedTransaction, TransactionError>) -> Result<
    ValidatedTransaction,
    TxErr,
> {
    match r {
        Ok(v) => Ok(v),
        Err(e) => Err(e@),
    }
}

/// Once a prefix of the inputs fails, longer prefixes fail the same way.
proof fn lemma_spend_checks_stable(
    tx: TxModel,
    looked: Seq<Option<UtxoEntry>>,
    height: u64,
    k: int,
    n: int,
)
    requires
        0 <= k <= n,
        spend_checks(tx, looked, height, k) is Err,
    ensures
        spend_checks(tx, looked, height, n) == spend_checks(tx, looked, height, k),
    decreases n - k,
{
    if n > k {
        lemma_spend_checks_stable(tx, looked, height, k, n - 1);
    }
}

/// Validate a transaction against the outputs its inputs spend, given as
/// `utxos[i]` for input `i` (`None`, or a missing entry: the output is unknown).
pub fn validate_transaction_with_utxos(
    tx: &Transaction,
    utxos: &[Option<UtxoEntry>],
    current_height: u64,
) -> (r: Result<ValidatedTransaction, TransactionError>)
    ensures
        tx_result_view(r) == spec_validate_transaction(tx@, utxos@, current_height),
{
    if tx.is_coinbase() {
        return Err(
            TransactionError::InvalidCoinbase(
                String::from_str("coinbase cannot be contextually validated standalone"),
            ),
        );
    }
    match validate_transaction_structure(tx) {
        Ok(()) => {},
        Err(e) => {
            return Err(e);
        },
    }
    assert(spec_structure(tx@) == Ok::<(), TxErr>(()));
    let n = tx.inputs.len();
    let mut total_input: u64 = 0;
    let mut i: usize = 0;
    while i < n
        invariant
            n == tx.inputs@.len(),
            i <= n,
            !spec_is_coinbase(tx@),
            spec_structure(tx@) == Ok::<(), TxErr>(()),
            spend_checks(tx@, utxos@, current_height, i as int) == Ok::<int, TxErr>(
                total_input as int,
            ),
        decreases n - i,
    {
        let op = tx.inputs[i].previous_output;
        assert(tx@.inputs[i as int].previous_output == op@);
        let looked: Option<UtxoEntry> = if i < utxos.len() {
            utxos[i]
        } else {
            None
        };
        let step: Result<u64, TransactionError> = match looked {
            None => Err(TransactionError::UnknownUtxo(op.to_text())),
            Some(u) => {
                let age = current_height.saturating_sub(u.block_height);
                if u.is_coinbase && age < COINBASE_MATURITY {
                    Err(TransactionError::ImmatureCoinbase { index: i })
                } else if verify_transaction_input(tx, i, &u.output.pubkey_hash).is_err() {
                    Err(TransactionError::InvalidSignature { index: i })
                } else {
                    match total_input.checked_add(u.output.value) {
                        Some(t) => Ok(t),
                        None => Err(TransactionError::ValueOverflow),
                    }
                }
            },
        };
        match step {
            Ok(t) => {
                total_input = t;
            },
            Err(e) => {
                proof {
                    assert(spend_checks(tx@, utxos@, current_height, i + 1) == Err::<int, TxErr>(e@));
                    lemma_spend_checks_stable(tx@, utxos@, current_height, i + 1, n as int);
                }
                return Err(e);
            },
        }
        i = i + 1;
    }
    let total_output = match tx.total_output_value() {
        Some(v) => v,
        None => {
            return Err(TransactionError::ValueOverflow);
        },
    };
    if total_input < total_output {
        return Err(TransactionError::InsufficientFunds { have: total_input, need: total_output });
    }
    Ok(ValidatedTransaction { total_input, total_output, fee: total_input - total_output })
}

/// `looked` holds, for each of `inputs`, an answer of `get_utxo` for the
/// outpoint that the input spends.
pub open spec fn lookups_agree<F: Fn(&OutPoint) -> Option<UtxoEntry>>(
    get_utxo: F,
    inputs: Seq<TxInput>,
    looked: Seq<Option<UtxoEntry>>,
) -> bool {
    &&& looked.len() == inputs.len()
    &&& forall|k: int|
        0 <= k < looked.len() ==> get_utxo.ensures((&inputs[k].previous_output,), #[trigger] looked[k])
}

/// Look up the output spent by each input of a transaction.
pub fn lookup_inputs<F>(tx: &Transaction, get_utxo: &F) -> (r: Vec<Option<UtxoEntry>>) where
    F: Fn(&OutPoint) -> Option<UtxoEntry>,

    requires
        forall|op: &OutPoint| get_utxo.requires((op,)),
    ensures
        lookups_agree(*get_utxo, tx.inputs@, r@),
{
    let n = tx.inputs.len();
    let mut utxos: Vec<Option<UtxoEntry>> = Vec::new();
    let mut i: usize = 0;
    while i < n
        invariant
            n == tx.inputs@.len(),
            i <= n,
            utxos@.len() == i,
            forall|op: &OutPoint| get_utxo.requires((op,)),
            forall|k: int|
                0 <= k < i ==> get_utxo.ensures(
                    (&tx.inputs@[k].previous_output,),
                    #[trigger] utxos@[k],
                ),
        decreases n - i,
    {
        let u = get_utxo(&tx.inputs[i].previous_output);
        utxos.push(u);
        i = i + 1;
    }
    utxos
}

/// Validate a transaction against the UTXO set, looking up the output each
/// input spends with `get_utxo` (which may read any store). The result is
/// that of [`validate_transaction_with_utxos`] on what the lookups returned.
pub fn validate_transaction<F>(tx: &Transaction, get_utxo: F, current_height: u64) -> (r: Result<
    ValidatedTransaction,
    TransactionError,
>) where F: Fn(&OutPoint) -> Option<UtxoEntry>
    requires
        forall|op: &OutPoint| get_utxo.requires((op,)),
    ensures
        exists|looked: Seq<Option<UtxoEntry>>|
            #[trigger] lookups_agree(get_utxo, tx.inputs@, looked) && tx_result_view(r)
                == spec_validate_transaction(tx@, looked, current_height),
{
    let utxos = lookup_inputs(tx, &get_utxo);
    let r = validate_transaction_with_utxos(tx, utxos.as_slice(), current_height);
    assert(lookups_agree(get_utxo, tx.inputs@, utxos@));
    r
}

} // verus!
