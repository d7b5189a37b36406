//! Ed25519 keys, transaction signing and signature verification.
//!
//! A transaction input is signed over a signing hash that commits to the
//! version, every input outpoint, every output, the lock time and the index
//! of the input being signed. Signatures and public keys are left out, so
//! inputs can be signed independently and in any order.
//!
//! The Ed25519 arithmetic itself is done by `ed25519-dalek`; this module
//! holds keys as plain bytes and names what that crate computes from them.

use vstd::prelude::*;

use ed25519_dalek::{Signer, Verifier};

use crate::error::CryptoError;
use crate::hashing::{blake3_digest, blake3_hash};
use crate::types::{
    bytes_to_hex, hex_chars, le_bytes, string_from_chars, write_le, write_raw, Hash256,
    InputModel, OutPointModel, OutputModel, Transaction, TxInput, TxModel,
};

verus! {

/// The Ed25519 public key (compressed point) derived from a 32-byte secret.
pub uninterp spec fn ed25519_public_key(secret: Seq<u8>) -> Seq<u8>;

/// The deterministic Ed25519 signature of a message under a 32-byte secret.
pub uninterp spec fn ed25519_signature(secret: Seq<u8>, message: Seq<u8>) -> Seq<u8>;

/// Whether 32 bytes decompress to a point accepted as a verifying key.
pub uninterp spec fn ed25519_valid_point(bytes: Seq<u8>) -> bool;

/// Whether a 64-byte signature verifies for a message under a public key.
pub uninterp spec fn ed25519_verifies(public_key: Seq<u8>, message: Seq<u8>, signature: Seq<u8>) -> bool;

/// Calls `SigningKey::generate` with the operating system's RNG and returns
/// the secret bytes; nothing is claimed of them.
#[verifier::external_body]
fn random_secret_key() -> (r: [u8; 32]) {
    ed25519_dalek::SigningKey::generate(&mut rand::rngs::OsRng).to_bytes()
}

/// Calls `SigningKey::from_bytes(..).verifying_key().to_bytes()`: the claim
/// is that the result is the public key named for the secret, and that it is
/// a valid point (dalek stores the compression of a curve point).
#[verifier::external_body]
fn derive_public_key(secret: &[u8; 32]) -> (r: [u8; 32])
    ensures
        r@ == ed25519_public_key(secret@),
        ed25519_valid_point(r@),
{
    ed25519_dalek::SigningKey::from_bytes(secret).verifying_key().to_bytes()
}

/// Calls `SigningKey::from_bytes(..).sign(message)`: the claim is that the
/// signature is the one named for secret and message, and that it verifies
/// under the matching public key, as the crate documents.
#[verifier::external_body]
fn sign_message(secret: &[u8; 32], message: &[u8]) -> (r: [u8; 64])
    ensures
        r@ == ed25519_signature(secret@, message@),
        ed25519_verifies(ed25519_public_key(secret@), message@, r@),
{
    ed25519_dalek::SigningKey::from_bytes(secret).sign(message).to_bytes()
}

/// Calls `VerifyingKey::from_bytes`; the claim is that it succeeds exactly
/// on the bytes named valid points.
#[verifier::external_body]
pub(crate) fn point_is_valid(bytes: &[u8; 32]) -> (r: bool)
    ensures
        r == ed25519_valid_point(bytes@),
{
    ed25519_dalek::VerifyingKey::from_bytes(bytes).is_ok()
}

/// Calls `VerifyingKey::from_bytes` and `Verifier::verify` (a key that does
/// not decode verifies nothing); the claim is that the result is the one
/// named for key, message and signature.
#[verifier::external_body]
pub(crate) fn signature_verifies(public_key: &[u8; 32], message: &[u8], signature: &[u8; 64]) -> (r: bool)
    ensures
        r == ed25519_verifies(public_key@, message@, signature@),
{
    match ed25519_dalek::VerifyingKey::from_bytes(public_key) {
        Ok(vk) => vk.verify(message, &ed25519_dalek::Signature::from_bytes(signature)).is_ok(),
        Err(_) => false,
    }
}

/// An Ed25519 keypair, held as its 32 secret bytes.
#[derive(Clone)]
pub struct KeyPair {
    secret: [u8; 32],
}

impl View for KeyPair {
    type V = Seq<u8>;

    /// The secret bytes.
    closed spec fn view(&self) -> Seq<u8> {
        self.secret@
    }
}

impl KeyPair {
    /// Generate a random keypair from the operating system's RNG.
    pub fn generate() -> (r: Self)
        ensures
            r@.len() == 32,
    {
        KeyPair { secret: random_secret_key() }
    }

    /// A keypair from 32 bytes of secret key material.
    pub fn from_secret_bytes(bytes: [u8; 32]) -> (r: Self)
        ensures
            r@ == bytes@,
    {
        KeyPair { secret: bytes }
    }

    /// The public key of this keypair.
    pub fn public_key(&self) -> (r: PublicKey)
        ensures
            r@ == ed25519_public_key(self@),
            ed25519_valid_point(r@),
    {
        let bytes = derive_public_key(&self.secret);
        PublicKey { bytes }
    }

    /// The raw secret key bytes.
    pub fn secret_bytes(&self) -> (r: [u8; 32])
        ensures
            r@ == self@,
    {
        self.secret
    }

    /// Sign a message, returning the 64-byte Ed25519 signature.
    pub fn sign(&self, message: &[u8]) -> (r: [u8; 64])
        ensures
            r@ == ed25519_signature(self@, message@),
            ed25519_verifies(ed25519_public_key(self@), message@, r@),
    {
        sign_message(&self.secret, message)
    }
}

/// An Ed25519 public key: 32 bytes that decode to a valid point.
#[derive(Clone, Copy, Debug, Eq, Hash)]
pub struct PublicKey {
    bytes: [u8; 32],
}

impl View for PublicKey {
    type V = Seq<u8>;

    closed spec fn view(&self) -> Seq<u8> {
        self.bytes@
    }
}

impl PublicKey {
    /// The bytes always decode to a point.
    #[verifier::type_invariant]
    spec fn valid(self) -> bool {
        ed25519_valid_point(self.bytes@)
    }

    /// A public key from its 32 bytes; an invalid point is refused.
    pub fn from_bytes(bytes: &[u8; 32]) -> (r: Result<Self, CryptoError>)
        ensures
            ed25519_valid_point(bytes@) <==> r is Ok,
            r matches Ok(pk) ==> pk@ == bytes@,
            r matches Err(e) ==> e == CryptoError::InvalidPublicKey,
    {
        if point_is_valid(bytes) {
            Ok(PublicKey { bytes: *bytes })
        } else {
            Err(CryptoError::InvalidPublicKey)
        }
    }

    /// The raw 32 bytes.
    pub fn to_bytes(&self) -> (r: [u8; 32])
        ensures
            r@ == self@,
    {
        self.bytes
    }

    /// The BLAKE3 pubkey hash used in transaction outputs.
    pub fn pubkey_hash(&self) -> (r: Hash256)
        ensures
            r@ == blake3_digest(self@),
    {
        pubkey_hash(&self.bytes)
    }

    /// Verify an Ed25519 signature on a message.
    pub fn verify(&self, message: &[u8], signature: &[u8; 64]) -> (r: Result<(), CryptoError>)
        ensures
            ed25519_verifies(self@, message@, signature@) <==> r is Ok,
            r matches Err(e) ==> e == CryptoError::VerificationFailed,
    {
        if signature_verifies(&self.bytes, message, signature) {
            Ok(())
        } else {
            Err(CryptoError::VerificationFailed)
        }
    }

    /// Lower-case hexadecimal rendering of the key (64 characters).
    pub fn to_hex(&self) -> (r: String)
        ensures
            r@ == hex_chars(self@),
    {
        string_from_chars(bytes_to_hex(self.bytes.as_slice()))
    }
}

impl PartialEq for PublicKey {
    fn eq(&self, other: &Self) -> (r: bool) {
        Hash256(self.bytes) == Hash256(other.bytes)
    }
}

impl vstd::std_specs::cmp::PartialEqSpecImpl for PublicKey {
    open spec fn obeys_eq_spec() -> bool {
        true
    }

    open spec fn eq_spec(&self, other: &Self) -> bool {
        self@ == other@
    }
}

/// The BLAKE3 pubkey hash of raw public key bytes.
pub fn pubkey_hash(pubkey_bytes: &[u8; 32]) -> (r: Hash256)
    ensures
        r@ == blake3_digest(pubkey_bytes@),
{
    Hash256(blake3_hash(pubkey_bytes.as_slice()))
}

/// The signed bytes of the input outpoints: each txid, then its index.
pub open spec fn sighash_outpoints(s: Seq<OutPointModel>) -> Seq<u8>
    decreases s.len(),
{
    if s.len() == 0 {
        Seq::empty()
    } else {
        sighash_outpoints(s.drop_last()) + s.last().txid + le_bytes(s.last().index, 8)
    }
}

/// The signed bytes of the outputs: each value, then its pubkey hash.
pub open spec fn sighash_outputs(s: Seq<OutputModel>) -> Seq<u8>
    decreases s.len(),
{
    if s.len() == 0 {
        Seq::empty()
    } else {
        sighash_outputs(s.drop_last()) + le_bytes(s.last().value, 8) + s.last().pubkey_hash
    }
}

/// The outpoints that a transaction's inputs spend.
pub open spec fn input_outpoints(inputs: Seq<InputModel>) -> Seq<OutPointModel> {
    inputs.map_values(|i: InputModel| i.previous_output)
}

/// The bytes hashed to sign input `input_index` of a transaction (all
/// integers as 8 little-endian bytes).
pub open spec fn sighash_preimage(tx: TxModel, input_index: int) -> Seq<u8> {
    le_bytes(tx.version, 8) + le_bytes(tx.inputs.len() as u64, 8) + sighash_outpoints(
        input_outpoints(tx.inputs),
    ) + le_bytes(tx.outputs.len() as u64, 8) + sighash_outputs(tx.outputs) + le_bytes(
        tx.lock_time,
        8,
    ) + le_bytes(input_index as u64, 8)
}

/// The signing hash of input `input_index`.
pub open spec fn spec_signing_hash(tx: TxModel, input_index: int) -> Seq<u8> {
    blake3_digest(sighash_preimage(tx, input_index))
}

/// Compute the signing hash for a transaction input; an index past the
/// inputs is an error.
pub fn signing_hash(tx: &Transaction, input_index: usize) -> (r: Result<Hash256, CryptoError>)
    ensures
        input_index < tx.inputs@.len() ==> (r matches Ok(h) && h@ == spec_signing_hash(
            tx@,
            input_index as int,
        )),
        input_index >= tx.inputs@.len() ==> r == Err::<Hash256, CryptoError>(
            CryptoError::InputIndexOutOfBounds { index: input_index, len: tx.inputs@.len() as usize },
        ),
{
    let n_in = tx.inputs.len();
    if input_index >= n_in {
        return Err(CryptoError::InputIndexOutOfBounds { index: input_index, len: n_in });
    }
    let mut data: Vec<u8> = Vec::new();
    write_le(&mut data, tx.version, 8);
    write_le(&mut data, n_in as u64, 8);
    let ghost ops = input_outpoints(tx@.inputs);
    let ghost base = data@;
    let mut i: usize = 0;
    while i < n_in
        invariant
            n_in == tx.inputs@.len(),
            ops == input_outpoints(tx@.inputs),
            i <= n_in,
            data@ == base + sighash_outpoints(ops.take(i as int)),
        decreases n_in - i,
    {
        let op = tx.inputs[i].previous_output;
        write_raw(&mut data, op.txid.0.as_slice());
        write_le(&mut data, op.index, 8);
        proof {
            assert(ops.take(i + 1).drop_last() =~= ops.take(i as int));
            assert(ops[i as int] == op@);
            assert(data@ =~= base + sighash_outpoints(ops.take(i + 1)));
        }
        i = i + 1;
    }
    proof {
        assert(ops.take(n_in as int) =~= ops);
    }
    let n_out = tx.outputs.len();
    write_le(&mut data, n_out as u64, 8);
    let ghost outs = tx@.outputs;
    let ghost base2 = data@;
    let mut j: usize = 0;
    while j < n_out
        invariant
            n_out == tx.outputs@.len(),
            outs == tx@.outputs,
            j <= n_out,
            data@ == base2 + sighash_outputs(outs.take(j as int)),
        decreases n_out - j,
    {
        let out = tx.outputs[j];
        write_le(&mut data, out.value, 8);
        write_raw(&mut data, out.pubkey_hash.0.as_slice());
        proof {
            assert(outs.take(j + 1).drop_last() =~= outs.take(j as int));
            assert(outs[j as int] == out@);
            assert(data@ =~= base2 + sighash_outputs(outs.take(j + 1)));
        }
        j = j + 1;
    }
    proof {
        assert(outs.take(n_out as int) =~= outs);
    }
    write_le(&mut data, tx.lock_time, 8);
    write_le(&mut data, input_index as u64, 8);
    proof {
        assert(data@ =~= sighash_preimage(tx@, input_index as int));
    }
    Ok(Hash256(blake3_hash(data.as_slice())))
}

/// The transaction after input `index` is given `signature` and `public_key`.
pub open spec fn with_witness(tx: TxModel, index: int, signature: Seq<u8>, public_key: Seq<u8>) -> TxModel {
    TxModel {
        inputs: tx.inputs.update(
            index,
            InputModel {
                previous_output: tx.inputs[index].previous_output,
                signature,
                public_key,
            },
        ),
        ..tx
    }
}

/// Input `index` of `tx` signed with the secret key `secret`.
pub open spec fn spec_signed(tx: TxModel, index: int, secret: Seq<u8>) -> TxModel {
    with_witness(
        tx,
        index,
        ed25519_signature(secret, spec_signing_hash(tx, index)),
        ed25519_public_key(secret),
    )
}

fn bytes_to_vec(b: &[u8]) -> (r: Vec<u8>)
    ensures
        r@ == b@,
{
    let mut v: Vec<u8> = Vec::new();
    write_raw(&mut v, b);
    v
}

/// Sign input `input_index` in place: write the signature over its signing
/// hash and the public key into the input. An index past the inputs is an
/// error and leaves the transaction unchanged.
pub fn sign_transaction_input(tx: &mut Transaction, input_index: usize, keypair: &KeyPair) -> (r:
    Result<(), CryptoError>)
    ensures
        input_index < old(tx).inputs@.len() ==> r is Ok && final(tx)@ == spec_signed(
            old(tx)@,
            input_index as int,
            keypair@,
        ),
        input_index < old(tx).inputs@.len() ==> spec_verify_input(
            final(tx)@,
            input_index as int,
            blake3_digest(ed25519_public_key(keypair@)),
        ) == Ok::<(), CryptoError>(()),
        input_index >= old(tx).inputs@.len() ==> r == Err::<(), CryptoError>(
            CryptoError::InputIndexOutOfBounds {
                index: input_index,
                len: old(tx).inputs@.len() as usize,
            },
        ) && *final(tx) == *old(tx),
{
    let sighash = match signing_hash(tx, input_index) {
        Ok(h) => h,
        Err(e) => {
            return Err(e);
        },
    };
    let signature = keypair.sign(sighash.0.as_slice());
    let pubkey = keypair.public_key().to_bytes();
    let previous_output = tx.inputs[input_index].previous_output;
    let input = TxInput {
        previous_output,
        signature: bytes_to_vec(signature.as_slice()),
        public_key: bytes_to_vec(pubkey.as_slice()),
    };
    let ghost old_tx = tx@;
    tx.inputs.set(input_index, input);
    proof {
        assert(tx@.inputs =~= spec_signed(old_tx, input_index as int, keypair@).inputs);
        assert(tx@.inputs[input_index as int] == input@);
        lemma_signed_outpoints(old_tx, input_index as int, keypair@);
        lemma_signing_hash_ignores_witness(old_tx, tx@, input_index as int);
    }
    Ok(())
}

/// What verifying input `index` against `expected` yields, check by check:
/// the index, the key's length and point, the key's hash, the signature's
/// length, then the signature itself.
pub open spec fn spec_verify_input(tx: TxModel, index: int, expected: Seq<u8>) -> Result<
    (),
    CryptoError,
> {
    if !(0 <= index < tx.inputs.len()) {
        Err(CryptoError::InputIndexOutOfBounds { index: index as usize, len: tx.inputs.len() as usize })
    } else {
        let input = tx.inputs[index];
        if input.public_key.len() != 32 || !ed25519_valid_point(input.public_key) {
            Err(CryptoError::InvalidPublicKey)
        } else if blake3_digest(input.public_key) != expected {
            Err(CryptoError::PubkeyHashMismatch)
        } else if input.signature.len() != 64 {
            Err(CryptoError::InvalidSignature)
        } else if !ed25519_verifies(
            input.public_key,
            spec_signing_hash(tx, index),
            input.signature,
        ) {
            Err(CryptoError::VerificationFailed)
        } else {
            Ok(())
        }
    }
}

/// The 32 bytes of a 32-byte slice, as an array.
pub fn array32_of(v: &[u8]) -> (r: [u8; 32])
    requires
        v@.len() == 32,
    ensures
        r@ == v@,
{
    let mut a = [0u8; 32];
    let mut i: usize = 0;
    while i < 32
        invariant
            i <= 32,
            v@.len() == 32,
            forall|j: int| 0 <= j < i ==> a@[j] == v@[j],
        decreases 32 - i,
    {
        a[i] = v[i];
        i = i + 1;
    }
    assert(a@ =~= v@);
    a
}

pub(crate) fn array64(v: &[u8]) -> (r: [u8; 64])
    requires
        v@.len() == 64,
    ensures
        r@ == v@,
{
    let mut a = [0u8; 64];
    let mut i: usize = 0;
    while i < 64
        invariant
            i <= 64,
            v@.len() == 64,
            forall|j: int| 0 <= j < i ==> a@[j] == v@[j],
        decreases 64 - i,
    {
        a[i] = v[i];
        i = i + 1;
    }
    assert(a@ =~= v@);
    a
}

/// Verify input `input_index` against the pubkey hash of the output it
/// spends: the public key must be 32 bytes and a valid point, hash to
/// `expected_pubkey_hash`, and the 64-byte signature must verify over the
/// signing hash.
pub fn verify_transaction_input(tx: &Transaction, input_index: usize, expected_pubkey_hash: &Hash256) -> (r:
    Result<(), CryptoError>)
    ensures
        r == spec_verify_input(tx@, input_index as int, expected_pubkey_hash@),
{
    if input_index >= tx.inputs.len() {
        return Err(CryptoError::InputIndexOutOfBounds { index: input_index, len: tx.inputs.len() });
    }
    let input = &tx.inputs[input_index];
    assert(tx@.inputs[input_index as int] == input@);
    if input.public_key.len() != 32 {
        return Err(CryptoError::InvalidPublicKey);
    }
    let pk_bytes = array32_of(input.public_key.as_slice());
    let pk = match PublicKey::from_bytes(&pk_bytes) {
        Ok(pk) => pk,
        Err(e) => {
            return Err(e);
        },
    };
    if !(pk.pubkey_hash() == *expected_pubkey_hash) {
        return Err(CryptoError::PubkeyHashMismatch);
    }
    if input.signature.len() != 64 {
        return Err(CryptoError::InvalidSignature);
    }
    let sig_bytes = array64(input.signature.as_slice());
    let sighash = match signing_hash(tx, input_index) {
        Ok(h) => h,
        Err(e) => {
            return Err(e);
        },
    };
    let r = pk.verify(sighash.0.as_slice(), &sig_bytes);
    assert(pk@ == input.public_key@);
    assert(sighash@ == spec_signing_hash(tx@, input_index as int));
    assert(sig_bytes@ == input.signature@);
    match r {
        Ok(()) => Ok(()),
        Err(e) => Err(e),
    }
}

/// The signing hash ignores signatures and public keys: transactions that
/// agree on version, lock time, outputs and spent outpoints have the same
/// signing hash at every index.
pub proof fn lemma_signing_hash_ignores_witness(t1: TxModel, t2: TxModel, index: int)
    requires
        t1.version == t2.version,
        t1.lock_time == t2.lock_time,
        t1.outputs == t2.outputs,
        input_outpoints(t1.inputs) == input_outpoints(t2.inputs),
    ensures
        spec_signing_hash(t1, index) == spec_signing_hash(t2, index),
{
    assert(t1.inputs.len() == input_outpoints(t1.inputs).len());
    assert(t2.inputs.len() == input_outpoints(t2.inputs).len());
}

/// Signing an input leaves what every input spends unchanged.
proof fn lemma_signed_outpoints(tx: TxModel, index: int, secret: Seq<u8>)
    requires
        0 <= index < tx.inputs.len(),
    ensures
        input_outpoints(spec_signed(tx, index, secret).inputs) == input_outpoints(tx.inputs),
{
    assert(input_outpoints(spec_signed(tx, index, secret).inputs) =~= input_outpoints(tx.inputs));
}

/// Signing one input leaves the verification of every other input as it was.
pub proof fn lemma_sign_preserves_other_inputs(
    tx: TxModel,
    signed_index: int,
    other: int,
    secret: Seq<u8>,
    expected: Seq<u8>,
)
    requires
        0 <= signed_index < tx.inputs.len(),
        other != signed_index,
    ensures
        spec_verify_input(spec_signed(tx, signed_index, secret), other, expected) == spec_verify_input(
            tx,
            other,
            expected,
        ),
{
    let signed = spec_signed(tx, signed_index, secret);
    lemma_signed_outpoints(tx, signed_index, secret);
    lemma_signing_hash_ignores_witness(tx, signed, other);
}

} // verus!
