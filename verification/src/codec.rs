//! Decoding of the canonical byte encoding.
//!
//! A decoder reads from a position in a byte string and gives back the value
//! and the position just after it, or nothing when the bytes do not hold a
//! value of that shape there. Trailing bytes are left unread. Variable-length
//! integers need not be minimal: any of the four widths is accepted for any
//! value that fits it.

use vstd::prelude::*;

use crate::agent::AgentWalletState;
use crate::crypto::array32_of;
use crate::merkle::{MerkleProof, ProofStep, Side};
use crate::types::{
    enc_block, enc_bytes, enc_header, enc_input, enc_inputs, enc_output, enc_outputs, enc_tx, enc_txs, le_bytes, varint,
    write_raw, write_tx, write_varint, Block, BlockHeader, Hash256, InputModel, OutPoint, OutPointModel,
    OutputModel, Transaction, TxInput, TxModel, TxOutput, UtxoEntry, UtxoModel,
};

verus! {

// ---------------------------------------------------------------------------
// What a well-formed value reads as
// ---------------------------------------------------------------------------

/// Little-endian value of the `n` bytes of `s` that start at `p`.
pub open spec fn le_num(s: Seq<u8>, p: int, n: nat) -> int
    decreases n,
{
    if n == 0 {
        0
    } else {
        s[p] + 256 * le_num(s, p + 1, (n - 1) as nat)
    }
}

/// A variable-length integer at `p`: one byte up to 250, or the marker
/// 251, 252 or 253 followed by 2, 4 or 8 little-endian bytes.
#[verifier::opaque]
pub open spec fn read_varint(s: Seq<u8>, p: int) -> Option<(u64, int)> {
    if p < 0 || p >= s.len() {
        None
    } else if s[p] <= 250 {
        Some((s[p] as u64, p + 1))
    } else if s[p] == 251 && p + 3 <= s.len() {
        Some((le_num(s, p + 1, 2) as u64, p + 3))
    } else if s[p] == 252 && p + 5 <= s.len() {
        Some((le_num(s, p + 1, 4) as u64, p + 5))
    } else if s[p] == 253 && p + 9 <= s.len() {
        Some((le_num(s, p + 1, 8) as u64, p + 9))
    } else {
        None
    }
}

/// `n` raw bytes at `p`.
#[verifier::opaque]
pub open spec fn read_raw(s: Seq<u8>, p: int, n: nat) -> Option<(Seq<u8>, int)> {
    if 0 <= p && p + n <= s.len() {
        Some((s.subrange(p, p + n), p + n))
    } else {
        None
    }
}

/// A length-prefixed byte string at `p`.
#[verifier::opaque]
pub open spec fn read_bytes(s: Seq<u8>, p: int) -> Option<(Seq<u8>, int)> {
    match read_varint(s, p) {
        Some((len, q)) => read_raw(s, q, len as nat),
        None => None,
    }
}

/// An input at `p`: raw txid, index, signature, public key.
#[verifier::opaque]
pub open spec fn read_input(s: Seq<u8>, p: int) -> Option<(InputModel, int)> {
    match read_raw(s, p, 32) {
        None => None,
        Some((txid, p1)) => match read_varint(s, p1) {
            None => None,
            Some((index, p2)) => match read_bytes(s, p2) {
                None => None,
                Some((signature, p3)) => match read_bytes(s, p3) {
                    None => None,
                    Some((public_key, p4)) => Some(
                        (
                            InputModel {
                                previous_output: OutPointModel { txid, index },
                                signature,
                                public_key,
                            },
                            p4,
                        ),
                    ),
                },
            },
        },
    }
}

/// An output at `p`: value, raw pubkey hash.
#[verifier::opaque]
pub open spec fn read_output(s: Seq<u8>, p: int) -> Option<(OutputModel, int)> {
    match read_varint(s, p) {
        None => None,
        Some((value, p1)) => match read_raw(s, p1, 32) {
            None => None,
            Some((pubkey_hash, p2)) => Some((OutputModel { value, pubkey_hash }, p2)),
        },
    }
}

/// `n` inputs one after another from `p`.
#[verifier::opaque]
pub open spec fn read_inputs(s: Seq<u8>, p: int, n: nat) -> Option<(Seq<InputModel>, int)>
    decreases n,
{
    if n == 0 {
        Some((Seq::empty(), p))
    } else {
        match read_inputs(s, p, (n - 1) as nat) {
            None => None,
            Some((xs, q)) => match read_input(s, q) {
                None => None,
                Some((x, q2)) => Some((xs.push(x), q2)),
            },
        }
    }
}

/// `n` outputs one after another from `p`.
#[verifier::opaque]
pub open spec fn read_outputs(s: Seq<u8>, p: int, n: nat) -> Option<(Seq<OutputModel>, int)>
    decreases n,
{
    if n == 0 {
        Some((Seq::empty(), p))
    } else {
        match read_outputs(s, p, (n - 1) as nat) {
            None => None,
            Some((xs, q)) => match read_output(s, q) {
                None => None,
                Some((x, q2)) => Some((xs.push(x), q2)),
            },
        }
    }
}

/// A transaction at `p`: version, counted inputs, counted outputs, lock time.
#[verifier::opaque]
pub open spec fn read_tx(s: Seq<u8>, p: int) -> Option<(TxModel, int)> {
    match read_varint(s, p) {
        None => None,
        Some((version, p1)) => match read_varint(s, p1) {
            None => None,
            Some((n_in, p2)) => match read_inputs(s, p2, n_in as nat) {
                None => None,
                Some((inputs, p3)) => match read_varint(s, p3) {
                    None => None,
                    Some((n_out, p4)) => match read_outputs(s, p4, n_out as nat) {
                        None => None,
                        Some((outputs, p5)) => match read_varint(s, p5) {
                            None => None,
                            Some((lock_time, p6)) => Some(
                                (TxModel { version, inputs, outputs, lock_time }, p6),
                            ),
                        },
                    },
                },
            },
        },
    }
}

/// `n` transactions one after another from `p`.
#[verifier::opaque]
pub open spec fn read_txs(s: Seq<u8>, p: int, n: nat) -> Option<(Seq<TxModel>, int)>
    decreases n,
{
    if n == 0 {
        Some((Seq::empty(), p))
    } else {
        match read_txs(s, p, (n - 1) as nat) {
            None => None,
            Some((xs, q)) => match read_tx(s, q) {
                None => None,
                Some((x, q2)) => Some((xs.push(x), q2)),
            },
        }
    }
}

/// A counted list of transactions at `p`.
pub open spec fn read_tx_list(s: Seq<u8>, p: int) -> Option<(Seq<TxModel>, int)> {
    match read_varint(s, p) {
        None => None,
        Some((n, q)) => read_txs(s, q, n as nat),
    }
}

/// The fields of a block header as values.
pub ghost struct HeaderModel {
    pub version: u64,
    pub prev_hash: Seq<u8>,
    pub merkle_root: Seq<u8>,
    pub timestamp: u64,
    pub difficulty_target: u64,
    pub nonce: u64,
}

/// The value of a header.
pub open spec fn header_model(h: BlockHeader) -> HeaderModel {
    HeaderModel {
        version: h.version,
        prev_hash: h.prev_hash@,
        merkle_root: h.merkle_root@,
        timestamp: h.timestamp,
        difficulty_target: h.difficulty_target,
        nonce: h.nonce,
    }
}

/// A block header at `p`.
#[verifier::opaque]
pub open spec fn read_header(s: Seq<u8>, p: int) -> Option<(HeaderModel, int)> {
    match read_varint(s, p) {
        None => None,
        Some((version, p1)) => match read_raw(s, p1, 32) {
            None => None,
            Some((prev_hash, p2)) => match read_raw(s, p2, 32) {
                None => None,
                Some((merkle_root, p3)) => match read_varint(s, p3) {
                    None => None,
                    Some((timestamp, p4)) => match read_varint(s, p4) {
                        None => None,
                        Some((difficulty_target, p5)) => match read_varint(s, p5) {
                            None => None,
                            Some((nonce, p6)) => Some(
                                (
                                    HeaderModel {
                                        version,
                                        prev_hash,
                                        merkle_root,
                                        timestamp,
                                        difficulty_target,
                                        nonce,
                                    },
                                    p6,
                                ),
                            ),
                        },
                    },
                },
            },
        },
    }
}

/// A block at `p`: its header, then a counted list of transactions.
pub open spec fn read_block(s: Seq<u8>, p: int) -> Option<((HeaderModel, Seq<TxModel>), int)> {
    match read_header(s, p) {
        None => None,
        Some((h, q)) => match read_tx_list(s, q) {
            None => None,
            Some((txs, q2)) => Some(((h, txs), q2)),
        },
    }
}

/// Encoding of a UTXO entry: its output, height, a coinbase flag byte
/// (0 or 1) and the raw cluster id.
pub open spec fn enc_utxo(e: UtxoModel) -> Seq<u8> {
    enc_output(e.output) + varint(e.block_height) + seq![if e.is_coinbase { 1u8 } else { 0u8 }]
        + e.cluster_id
}

/// A flag byte at `p`: 0 is false, 1 is true, anything else is refused.
pub open spec fn read_flag(s: Seq<u8>, p: int) -> Option<(bool, int)> {
    if 0 <= p < s.len() && s[p] == 0 {
        Some((false, p + 1))
    } else if 0 <= p < s.len() && s[p] == 1 {
        Some((true, p + 1))
    } else {
        None
    }
}

/// A UTXO entry at `p`.
pub open spec fn read_utxo(s: Seq<u8>, p: int) -> Option<(UtxoModel, int)> {
    match read_output(s, p) {
        None => None,
        Some((output, p1)) => match read_varint(s, p1) {
            None => None,
            Some((block_height, p2)) => match read_flag(s, p2) {
                None => None,
                Some((is_coinbase, p3)) => match read_raw(s, p3, 32) {
                    None => None,
                    Some((cluster_id, p4)) => Some(
                        (UtxoModel { output, block_height, is_coinbase, cluster_id }, p4),
                    ),
                },
            },
        },
    }
}

// ---------------------------------------------------------------------------
// Reading back what was written
// ---------------------------------------------------------------------------

/// The little-endian digits of a value recombine to it.
proof fn lemma_le_digits(v: u64)
    by (bit_vector)
    ensures
        v <= 0xFFFF ==> v == ((v >> 0u64) as u8) as u64 + ((v >> 8u64) as u8) as u64 * 256,
        v <= 0xFFFF_FFFF ==> v == ((v >> 0u64) as u8) as u64 + ((v >> 8u64) as u8) as u64 * 256
            + ((v >> 16u64) as u8) as u64 * 65536 + ((v >> 24u64) as u8) as u64 * 16777216,
        v == ((v >> 0u64) as u8) as u64 + ((v >> 8u64) as u8) as u64 * 256 + ((v >> 16u64) as u8)
            as u64 * 65536 + ((v >> 24u64) as u8) as u64 * 16777216 + ((v >> 32u64) as u8) as u64
            * 4294967296 + ((v >> 40u64) as u8) as u64 * 1099511627776 + ((v >> 48u64) as u8)
            as u64 * 281474976710656 + ((v >> 56u64) as u8) as u64 * 72057594037927936,
{
}

/// A varint written at `p` reads back as its value.
pub proof fn lemma_read_varint(pre: Seq<u8>, v: u64, post: Seq<u8>)
    ensures
        read_varint(pre + varint(v) + post, pre.len() as int) == Some(
            (v, pre.len() + varint(v).len() as int),
        ),
{
    reveal(read_varint);
    let s = pre + varint(v) + post;
    let p = pre.len() as int;
    lemma_le_digits(v);
    if v <= 250 {
        assert(s[p] == v as u8);
    } else if v <= 0xFFFF {
        let b = le_bytes(v, 2);
        assert(s[p] == 251u8);
        assert(s[p + 1] == b[0] && s[p + 2] == b[1]);
        reveal_with_fuel(le_num, 3);
    } else if v <= 0xFFFF_FFFF {
        let b = le_bytes(v, 4);
        assert(s[p] == 252u8);
        assert(s[p + 1] == b[0] && s[p + 2] == b[1] && s[p + 3] == b[2] && s[p + 4] == b[3]);
        reveal_with_fuel(le_num, 5);
    } else {
        let b = le_bytes(v, 8);
        assert(s[p] == 253u8);
        assert(s[p + 1] == b[0] && s[p + 2] == b[1] && s[p + 3] == b[2] && s[p + 4] == b[3]);
        assert(s[p + 5] == b[4] && s[p + 6] == b[5] && s[p + 7] == b[6] && s[p + 8] == b[7]);
        reveal_with_fuel(le_num, 9);
    }
}

/// Raw bytes written at `p` read back as themselves.
pub proof fn lemma_read_raw(pre: Seq<u8>, b: Seq<u8>, post: Seq<u8>)
    ensures
        read_raw(pre + b + post, pre.len() as int, b.len()) == Some(
            (b, pre.len() + b.len() as int),
        ),
{
    reveal(read_raw);
    let s = pre + b + post;
    assert(s.subrange(pre.len() as int, pre.len() + b.len() as int) =~= b);
}

/// A length-prefixed byte string written at `p` reads back as itself.
pub proof fn lemma_read_bytes(pre: Seq<u8>, b: Seq<u8>, post: Seq<u8>)
    requires
        b.len() <= u64::MAX,
    ensures
        read_bytes(pre + enc_bytes(b) + post, pre.len() as int) == Some(
            (b, pre.len() + enc_bytes(b).len() as int),
        ),
{
    reveal(read_bytes);
    let len = b.len() as u64;
    let s = pre + enc_bytes(b) + post;
    assert(s =~= pre + varint(len) + (b + post));
    lemma_read_varint(pre, len, b + post);
    assert(s =~= (pre + varint(len)) + b + post);
    lemma_read_raw(pre + varint(len), b, post);
}

/// An input whose fields fit the encoding.
pub open spec fn input_encodable(i: InputModel) -> bool {
    &&& i.previous_output.txid.len() == 32
    &&& i.signature.len() <= u64::MAX
    &&& i.public_key.len() <= u64::MAX
}

/// An output whose fields fit the encoding.
pub open spec fn output_encodable(o: OutputModel) -> bool {
    o.pubkey_hash.len() == 32
}

/// A transaction whose fields fit the encoding.
pub open spec fn tx_encodable(t: TxModel) -> bool {
    &&& t.inputs.len() <= u64::MAX
    &&& t.outputs.len() <= u64::MAX
    &&& forall|k: int| 0 <= k < t.inputs.len() ==> input_encodable(#[trigger] t.inputs[k])
    &&& forall|k: int| 0 <= k < t.outputs.len() ==> output_encodable(#[trigger] t.outputs[k])
}

/// An input written at `p` reads back as itself.
pub proof fn lemma_read_input(pre: Seq<u8>, i: InputModel, post: Seq<u8>)
    requires
        input_encodable(i),
    ensures
        read_input(pre + enc_input(i) + post, pre.len() as int) == Some(
            (i, pre.len() + enc_input(i).len() as int),
        ),
{
    reveal(read_input);
    let s = pre + enc_input(i) + post;
    let txid = i.previous_output.txid;
    let iv = varint(i.previous_output.index);
    let sig = enc_bytes(i.signature);
    let pk = enc_bytes(i.public_key);
    assert(s =~= pre + txid + (iv + sig + pk + post));
    lemma_read_raw(pre, txid, iv + sig + pk + post);
    assert(s =~= (pre + txid) + iv + (sig + pk + post));
    lemma_read_varint(pre + txid, i.previous_output.index, sig + pk + post);
    assert(s =~= (pre + txid + iv) + sig + (pk + post));
    lemma_read_bytes(pre + txid + iv, i.signature, pk + post);
    assert(s =~= (pre + txid + iv + sig) + pk + post);
    lemma_read_bytes(pre + txid + iv + sig, i.public_key, post);
}

/// An output written at `p` reads back as itself.
pub proof fn lemma_read_output(pre: Seq<u8>, o: OutputModel, post: Seq<u8>)
    requires
        output_encodable(o),
    ensures
        read_output(pre + enc_output(o) + post, pre.len() as int) == Some(
            (o, pre.len() + enc_output(o).len() as int),
        ),
{
    reveal(read_output);
    let s = pre + enc_output(o) + post;
    let vv = varint(o.value);
    assert(s =~= pre + vv + (o.pubkey_hash + post));
    lemma_read_varint(pre, o.value, o.pubkey_hash + post);
    assert(s =~= (pre + vv) + o.pubkey_hash + post);
    lemma_read_raw(pre + vv, o.pubkey_hash, post);
}

/// Inputs written one after another read back as themselves.
pub proof fn lemma_read_inputs(pre: Seq<u8>, xs: Seq<InputModel>, post: Seq<u8>)
    requires
        forall|k: int| 0 <= k < xs.len() ==> input_encodable(#[trigger] xs[k]),
    ensures
        read_inputs(pre + enc_inputs(xs) + post, pre.len() as int, xs.len()) == Some(
            (xs, pre.len() + enc_inputs(xs).len() as int),
        ),
    decreases xs.len(),
{
    reveal(read_inputs);
    if xs.len() > 0 {
        let init = xs.drop_last();
        let last = xs.last();
        let s = pre + enc_inputs(xs) + post;
        assert(s =~= pre + enc_inputs(init) + (enc_input(last) + post));
        lemma_read_inputs(pre, init, enc_input(last) + post);
        assert(s =~= (pre + enc_inputs(init)) + enc_input(last) + post);
        assert(input_encodable(xs[xs.len() - 1]));
        lemma_read_input(pre + enc_inputs(init), last, post);
        assert(init.push(last) =~= xs);
    }
}

/// Outputs written one after another read back as themselves.
pub proof fn lemma_read_outputs(pre: Seq<u8>, xs: Seq<OutputModel>, post: Seq<u8>)
    requires
        forall|k: int| 0 <= k < xs.len() ==> output_encodable(#[trigger] xs[k]),
    ensures
        read_outputs(pre + enc_outputs(xs) + post, pre.len() as int, xs.len()) == Some(
            (xs, pre.len() + enc_outputs(xs).len() as int),
        ),
    decreases xs.len(),
{
    reveal(read_outputs);
    if xs.len() > 0 {
        let init = xs.drop_last();
        let last = xs.last();
        let s = pre + enc_outputs(xs) + post;
        assert(s =~= pre + enc_outputs(init) + (enc_output(last) + post));
        lemma_read_outputs(pre, init, enc_output(last) + post);
        assert(s =~= (pre + enc_outputs(init)) + enc_output(last) + post);
        assert(output_encodable(xs[xs.len() - 1]));
        lemma_read_output(pre + enc_outputs(init), last, post);
        assert(init.push(last) =~= xs);
    }
}

/// The ways of grouping six parts between a prefix and a suffix.
proof fn lemma_regroup(
    pre: Seq<u8>,
    a: Seq<u8>,
    b: Seq<u8>,
    c: Seq<u8>,
    d: Seq<u8>,
    e: Seq<u8>,
    f: Seq<u8>,
    post: Seq<u8>,
)
    ensures
        pre + (a + b + c + d + e + f) + post == pre + a + (b + c + d + e + f + post),
        pre + (a + b + c + d + e + f) + post == (pre + a) + b + (c + d + e + f + post),
        pre + (a + b + c + d + e + f) + post == (pre + a + b) + c + (d + e + f + post),
        pre + (a + b + c + d + e + f) + post == (pre + a + b + c) + d + (e + f + post),
        pre + (a + b + c + d + e + f) + post == (pre + a + b + c + d) + e + (f + post),
        pre + (a + b + c + d + e + f) + post == (pre + a + b + c + d + e) + f + post,
{
    let s = pre + (a + b + c + d + e + f) + post;
    assert(s =~= pre + a + (b + c + d + e + f + post));
    assert(s =~= (pre + a) + b + (c + d + e + f + post));
    assert(s =~= (pre + a + b) + c + (d + e + f + post));
    assert(s =~= (pre + a + b + c) + d + (e + f + post));
    assert(s =~= (pre + a + b + c + d) + e + (f + post));
    assert(s =~= (pre + a + b + c + d + e) + f + post);
}

/// A transaction reads as its parts read one after another.
proof fn lemma_read_tx_parts(
    s: Seq<u8>,
    t: TxModel,
    p0: int,
    p1: int,
    p2: int,
    p3: int,
    p4: int,
    p5: int,
    p6: int,
)
    requires
        read_varint(s, p0) == Some((t.version, p1)),
        read_varint(s, p1) == Some((t.inputs.len() as u64, p2)),
        t.inputs.len() <= u64::MAX,
        t.outputs.len() <= u64::MAX,
        read_inputs(s, p2, t.inputs.len()) == Some((t.inputs, p3)),
        read_varint(s, p3) == Some((t.outputs.len() as u64, p4)),
        read_outputs(s, p4, t.outputs.len()) == Some((t.outputs, p5)),
        read_varint(s, p5) == Some((t.lock_time, p6)),
    ensures
        read_tx(s, p0) == Some((t, p6)),
{
    reveal(read_tx);
}

/// A transaction written at `p` reads back as itself.
pub proof fn lemma_read_tx(pre: Seq<u8>, t: TxModel, post: Seq<u8>)
    requires
        tx_encodable(t),
    ensures
        read_tx(pre + enc_tx(t) + post, pre.len() as int) == Some(
            (t, pre.len() + enc_tx(t).len() as int),
        ),
{
    let s = pre + enc_tx(t) + post;
    let a = varint(t.version);
    let b = varint(t.inputs.len() as u64);
    let c = enc_inputs(t.inputs);
    let d = varint(t.outputs.len() as u64);
    let e = enc_outputs(t.outputs);
    let f = varint(t.lock_time);
    let p0 = pre.len() as int;
    let p1 = p0 + a.len();
    let p2 = p1 + b.len();
    let p3 = p2 + c.len();
    let p4 = p3 + d.len();
    let p5 = p4 + e.len();
    let p6 = p5 + f.len();
    lemma_regroup(pre, a, b, c, d, e, f, post);
    lemma_read_varint(pre, t.version, b + c + d + e + f + post);
    lemma_read_varint(pre + a, t.inputs.len() as u64, c + d + e + f + post);
    lemma_read_inputs(pre + a + b, t.inputs, d + e + f + post);
    lemma_read_varint(pre + a + b + c, t.outputs.len() as u64, e + f + post);
    lemma_read_outputs(pre + a + b + c + d, t.outputs, f + post);
    lemma_read_varint(pre + a + b + c + d + e, t.lock_time, post);
    lemma_read_tx_parts(s, t, p0, p1, p2, p3, p4, p5, p6);
}

/// Transactions written one after another read back as themselves.
pub proof fn lemma_read_txs(pre: Seq<u8>, xs: Seq<TxModel>, post: Seq<u8>)
    requires
        forall|k: int| 0 <= k < xs.len() ==> tx_encodable(#[trigger] xs[k]),
    ensures
        read_txs(pre + enc_txs(xs) + post, pre.len() as int, xs.len()) == Some(
            (xs, pre.len() + enc_txs(xs).len() as int),
        ),
    decreases xs.len(),
{
    reveal(read_txs);
    if xs.len() > 0 {
        let init = xs.drop_last();
        let last = xs.last();
        let s = pre + enc_txs(xs) + post;
        assert(s =~= pre + enc_txs(init) + (enc_tx(last) + post));
        lemma_read_txs(pre, init, enc_tx(last) + post);
        assert(s =~= (pre + enc_txs(init)) + enc_tx(last) + post);
        assert(tx_encodable(xs[xs.len() - 1]));
        lemma_read_tx(pre + enc_txs(init), last, post);
        assert(init.push(last) =~= xs);
    }
}

/// A header reads as its parts read one after another.
proof fn lemma_read_header_parts(
    s: Seq<u8>,
    h: HeaderModel,
    p0: int,
    p1: int,
    p2: int,
    p3: int,
    p4: int,
    p5: int,
    p6: int,
)
    requires
        read_varint(s, p0) == Some((h.version, p1)),
        read_raw(s, p1, 32) == Some((h.prev_hash, p2)),
        read_raw(s, p2, 32) == Some((h.merkle_root, p3)),
        read_varint(s, p3) == Some((h.timestamp, p4)),
        read_varint(s, p4) == Some((h.difficulty_target, p5)),
        read_varint(s, p5) == Some((h.nonce, p6)),
    ensures
        read_header(s, p0) == Some((h, p6)),
{
    reveal(read_header);
}

/// A header written at `p` reads back as itself.
pub proof fn lemma_read_header(pre: Seq<u8>, h: BlockHeader, post: Seq<u8>)
    ensures
        read_header(pre + enc_header(h) + post, pre.len() as int) == Some(
            (header_model(h), pre.len() + enc_header(h).len() as int),
        ),
{
    let s = pre + enc_header(h) + post;
    let a = varint(h.version);
    let b = h.prev_hash@;
    let c = h.merkle_root@;
    let d = varint(h.timestamp);
    let e = varint(h.difficulty_target);
    let f = varint(h.nonce);
    let p0 = pre.len() as int;
    let p1 = p0 + a.len();
    let p2 = p1 + b.len();
    let p3 = p2 + c.len();
    let p4 = p3 + d.len();
    let p5 = p4 + e.len();
    let p6 = p5 + f.len();
    lemma_regroup(pre, a, b, c, d, e, f, post);
    lemma_read_varint(pre, h.version, b + c + d + e + f + post);
    lemma_read_raw(pre + a, b, c + d + e + f + post);
    lemma_read_raw(pre + a + b, c, d + e + f + post);
    lemma_read_varint(pre + a + b + c, h.timestamp, e + f + post);
    lemma_read_varint(pre + a + b + c + d, h.difficulty_target, f + post);
    lemma_read_varint(pre + a + b + c + d + e, h.nonce, post);
    lemma_read_header_parts(s, header_model(h), p0, p1, p2, p3, p4, p5, p6);
}

/// A counted list of transactions written at `p` reads back as itself.
pub proof fn lemma_read_tx_list(pre: Seq<u8>, xs: Seq<TxModel>, post: Seq<u8>)
    requires
        xs.len() <= u64::MAX,
        forall|k: int| 0 <= k < xs.len() ==> tx_encodable(#[trigger] xs[k]),
    ensures
        read_tx_list(pre + (varint(xs.len() as u64) + enc_txs(xs)) + post, pre.len() as int)
            == Some((xs, (pre.len() + varint(xs.len() as u64).len() + enc_txs(xs).len()) as int)),
{
    let n = varint(xs.len() as u64);
    let s = pre + (n + enc_txs(xs)) + post;
    assert(s =~= pre + n + (enc_txs(xs) + post));
    lemma_read_varint(pre, xs.len() as u64, enc_txs(xs) + post);
    assert(s =~= (pre + n) + enc_txs(xs) + post);
    lemma_read_txs(pre + n, xs, post);
}

/// A UTXO entry written at `p` reads back as itself.
pub proof fn lemma_read_utxo(pre: Seq<u8>, e: UtxoModel, post: Seq<u8>)
    requires
        output_encodable(e.output),
        e.cluster_id.len() == 32,
    ensures
        read_utxo(pre + enc_utxo(e) + post, pre.len() as int) == Some(
            (e, pre.len() + enc_utxo(e).len() as int),
        ),
{
    let a = enc_output(e.output);
    let b = varint(e.block_height);
    let c = seq![if e.is_coinbase { 1u8 } else { 0u8 }];
    let d = e.cluster_id;
    let s = pre + enc_utxo(e) + post;
    assert(s =~= pre + a + (b + c + d + post));
    lemma_read_output(pre, e.output, b + c + d + post);
    assert(s =~= (pre + a) + b + (c + d + post));
    lemma_read_varint(pre + a, e.block_height, c + d + post);
    assert(s =~= (pre + a + b) + c + (d + post));
    assert(s[(pre.len() + a.len() + b.len()) as int] == c[0]);
    assert(s =~= (pre + a + b + c) + d + post);
    lemma_read_raw(pre + a + b + c, d, post);
}

// ---------------------------------------------------------------------------
// Readers
// ---------------------------------------------------------------------------

/// Reading `n` inputs fails once reading fewer of them has failed.
proof fn lemma_inputs_fail(s: Seq<u8>, p: int, m: nat, n: nat)
    requires
        read_inputs(s, p, m) is None,
        m <= n,
    ensures
        read_inputs(s, p, n) is None,
    decreases n,
{
    if n > m {
        lemma_inputs_fail(s, p, m, (n - 1) as nat);
        reveal(read_inputs);
    }
}

/// Reading `n` outputs fails once reading fewer of them has failed.
proof fn lemma_outputs_fail(s: Seq<u8>, p: int, m: nat, n: nat)
    requires
        read_outputs(s, p, m) is None,
        m <= n,
    ensures
        read_outputs(s, p, n) is None,
    decreases n,
{
    if n > m {
        lemma_outputs_fail(s, p, m, (n - 1) as nat);
        reveal(read_outputs);
    }
}

/// Reading `n` transactions fails once reading fewer of them has failed.
proof fn lemma_txs_fail(s: Seq<u8>, p: int, m: nat, n: nat)
    requires
        read_txs(s, p, m) is None,
        m <= n,
    ensures
        read_txs(s, p, n) is None,
    decreases n,
{
    if n > m {
        lemma_txs_fail(s, p, m, (n - 1) as nat);
        reveal(read_txs);
    }
}

/// Read a variable-length integer at `p`.
pub fn get_varint(s: &[u8], p: usize) -> (r: Option<(u64, usize)>)
    ensures
        match r {
            Some((v, q)) => read_varint(s@, p as int) == Some((v, q as int)),
            None => read_varint(s@, p as int) is None,
        },
{
    reveal(read_varint);
    if p >= s.len() {
        return None;
    }
    let m = s[p];
    if m <= 250 {
        return Some((m as u64, p + 1));
    }
    let rem = s.len() - p;
    if m == 251 && rem >= 3 {
        proof {
            reveal_with_fuel(le_num, 3);
        }
        let v = s[p + 1] as u64 + (s[p + 2] as u64) * 256;
        Some((v, p + 3))
    } else if m == 252 && rem >= 5 {
        proof {
            reveal_with_fuel(le_num, 5);
        }
        let v = s[p + 1] as u64 + (s[p + 2] as u64) * 256 + (s[p + 3] as u64) * 65536 + (s[p
            + 4] as u64) * 16777216;
        Some((v, p + 5))
    } else if m == 253 && rem >= 9 {
        proof {
            reveal_with_fuel(le_num, 9);
        }
        let v = s[p + 1] as u64 + (s[p + 2] as u64) * 256 + (s[p + 3] as u64) * 65536 + (s[p
            + 4] as u64) * 16777216 + (s[p + 5] as u64) * 4294967296 + (s[p + 6] as u64)
            * 1099511627776 + (s[p + 7] as u64) * 281474976710656 + (s[p + 8] as u64)
            * 72057594037927936;
        Some((v, p + 9))
    } else {
        None
    }
}

/// Read 32 raw bytes at `p` as a hash.
pub fn get_hash(s: &[u8], p: usize) -> (r: Option<(Hash256, usize)>)
    ensures
        match r {
            Some((h, q)) => read_raw(s@, p as int, 32) == Some((h@, q as int)),
            None => read_raw(s@, p as int, 32) is None,
        },
{
    reveal(read_raw);
    if p > s.len() || s.len() - p < 32 {
        return None;
    }
    let mut a = [0u8; 32];
    let mut i: usize = 0;
    while i < 32
        invariant
            i <= 32,
            p + 32 <= s.len(),
            forall|j: int| 0 <= j < i ==> a@[j] == s@[p + j],
        decreases 32 - i,
    {
        a[i] = s[p + i];
        i = i + 1;
    }
    assert(a@ =~= s@.subrange(p as int, p + 32));
    Some((Hash256(a), p + 32))
}

/// Read a length-prefixed byte string at `p`.
pub fn get_bytes(s: &[u8], p: usize) -> (r: Option<(Vec<u8>, usize)>)
    ensures
        match r {
            Some((b, q)) => read_bytes(s@, p as int) == Some((b@, q as int)),
            None => read_bytes(s@, p as int) is None,
        },
{
    reveal(read_bytes);
    reveal(read_raw);
    let (len, q) = match get_varint(s, p) {
        Some(x) => x,
        None => return None,
    };
    assert(q <= s@.len()) by {
        reveal(read_varint);
    }
    if len > (s.len() - q) as u64 {
        return None;
    }
    let n = len as usize;
    let mut b: Vec<u8> = Vec::new();
    let mut i: usize = 0;
    while i < n
        invariant
            i <= n,
            n == len,
            q + n <= s.len(),
            b@ =~= s@.subrange(q as int, q + i),
        decreases n - i,
    {
        b.push(s[q + i]);
        i = i + 1;
    }
    Some((b, q + n))
}

/// Read an input at `p`.
pub fn get_input(s: &[u8], p: usize) -> (r: Option<(TxInput, usize)>)
    ensures
        match r {
            Some((x, q)) => read_input(s@, p as int) == Some((x@, q as int)),
            None => read_input(s@, p as int) is None,
        },
{
    reveal(read_input);
    let (txid, p1) = match get_hash(s, p) {
        Some(x) => x,
        None => return None,
    };
    let (index, p2) = match get_varint(s, p1) {
        Some(x) => x,
        None => return None,
    };
    let (signature, p3) = match get_bytes(s, p2) {
        Some(x) => x,
        None => return None,
    };
    let (public_key, p4) = match get_bytes(s, p3) {
        Some(x) => x,
        None => return None,
    };
    Some((TxInput { previous_output: OutPoint { txid, index }, signature, public_key }, p4))
}

/// Read an output at `p`.
pub fn get_output(s: &[u8], p: usize) -> (r: Option<(TxOutput, usize)>)
    ensures
        match r {
            Some((x, q)) => read_output(s@, p as int) == Some((x@, q as int)),
            None => read_output(s@, p as int) is None,
        },
{
    reveal(read_output);
    let (value, p1) = match get_varint(s, p) {
        Some(x) => x,
        None => return None,
    };
    let (pubkey_hash, p2) = match get_hash(s, p1) {
        Some(x) => x,
        None => return None,
    };
    Some((TxOutput { value, pubkey_hash }, p2))
}

/// Read `n` inputs from `p`.
fn get_inputs(s: &[u8], p: usize, n: u64) -> (r: Option<(Vec<TxInput>, usize)>)
    ensures
        match r {
            Some((xs, q)) => read_inputs(s@, p as int, n as nat) == Some(
                (xs@.map_values(|x: TxInput| x@), q as int),
            ),
            None => read_inputs(s@, p as int, n as nat) is None,
        },
{
    let mut xs: Vec<TxInput> = Vec::new();
    let mut q = p;
    let mut i: u64 = 0;
    assert(read_inputs(s@, p as int, 0) == Some((xs@.map_values(|x: TxInput| x@), q as int)))
        by {
        reveal(read_inputs);
        assert(xs@.map_values(|x: TxInput| x@) =~= Seq::<InputModel>::empty());
    }
    while i < n
        invariant
            i <= n,
            read_inputs(s@, p as int, i as nat) == Some(
                (xs@.map_values(|x: TxInput| x@), q as int),
            ),
        decreases n - i,
    {
        match get_input(s, q) {
            None => {
                proof {
                    reveal(read_inputs);
                    assert(read_inputs(s@, p as int, (i + 1) as nat) is None);
                    lemma_inputs_fail(s@, p as int, (i + 1) as nat, n as nat);
                }
                return None;
            },
            Some((x, q2)) => {
                let ghost before = xs@;
                xs.push(x);
                proof {
                    reveal(read_inputs);
                    assert(xs@.map_values(|x: TxInput| x@) =~= before.map_values(
                        |x: TxInput| x@,
                    ).push(x@));
                }
                q = q2;
                i = i + 1;
            },
        }
    }
    Some((xs, q))
}

/// Read `n` outputs from `p`.
fn get_outputs(s: &[u8], p: usize, n: u64) -> (r: Option<(Vec<TxOutput>, usize)>)
    ensures
        match r {
            Some((xs, q)) => read_outputs(s@, p as int, n as nat) == Some(
                (xs@.map_values(|x: TxOutput| x@), q as int),
            ),
            None => read_outputs(s@, p as int, n as nat) is None,
        },
{
    let mut xs: Vec<TxOutput> = Vec::new();
    let mut q = p;
    let mut i: u64 = 0;
    assert(read_outputs(s@, p as int, 0) == Some((xs@.map_values(|x: TxOutput| x@), q as int)))
        by {
        reveal(read_outputs);
        assert(xs@.map_values(|x: TxOutput| x@) =~= Seq::<OutputModel>::empty());
    }
    while i < n
        invariant
            i <= n,
            read_outputs(s@, p as int, i as nat) == Some(
                (xs@.map_values(|x: TxOutput| x@), q as int),
            ),
        decreases n - i,
    {
        match get_output(s, q) {
            None => {
                proof {
                    reveal(read_outputs);
                    assert(read_outputs(s@, p as int, (i + 1) as nat) is None);
                    lemma_outputs_fail(s@, p as int, (i + 1) as nat, n as nat);
                }
                return None;
            },
            Some((x, q2)) => {
                let ghost before = xs@;
                xs.push(x);
                proof {
                    reveal(read_outputs);
                    assert(xs@.map_values(|x: TxOutput| x@) =~= before.map_values(
                        |x: TxOutput| x@,
                    ).push(x@));
                }
                q = q2;
                i = i + 1;
            },
        }
    }
    Some((xs, q))
}

/// Read a transaction at `p`.
pub fn get_tx(s: &[u8], p: usize) -> (r: Option<(Transaction, usize)>)
    ensures
        match r {
            Some((t, q)) => read_tx(s@, p as int) == Some((t@, q as int)),
            None => read_tx(s@, p as int) is None,
        },
{
    reveal(read_tx);
    let (version, p1) = match get_varint(s, p) {
        Some(x) => x,
        None => return None,
    };
    let (n_in, p2) = match get_varint(s, p1) {
        Some(x) => x,
        None => return None,
    };
    let (inputs, p3) = match get_inputs(s, p2, n_in) {
        Some(x) => x,
        None => return None,
    };
    let (n_out, p4) = match get_varint(s, p3) {
        Some(x) => x,
        None => return None,
    };
    let (outputs, p5) = match get_outputs(s, p4, n_out) {
        Some(x) => x,
        None => return None,
    };
    let (lock_time, p6) = match get_varint(s, p5) {
        Some(x) => x,
        None => return None,
    };
    let t = Transaction { version, inputs, outputs, lock_time };
    Some((t, p6))
}

/// Read `n` transactions from `p`.
fn get_txs(s: &[u8], p: usize, n: u64) -> (r: Option<(Vec<Transaction>, usize)>)
    ensures
        match r {
            Some((xs, q)) => read_txs(s@, p as int, n as nat) == Some(
                (xs@.map_values(|x: Transaction| x@), q as int),
            ),
            None => read_txs(s@, p as int, n as nat) is None,
        },
{
    let mut xs: Vec<Transaction> = Vec::new();
    let mut q = p;
    let mut i: u64 = 0;
    assert(read_txs(s@, p as int, 0) == Some((xs@.map_values(|x: Transaction| x@), q as int)))
        by {
        reveal(read_txs);
        assert(xs@.map_values(|x: Transaction| x@) =~= Seq::<TxModel>::empty());
    }
    while i < n
        invariant
            i <= n,
            read_txs(s@, p as int, i as nat) == Some(
                (xs@.map_values(|x: Transaction| x@), q as int),
            ),
        decreases n - i,
    {
        match get_tx(s, q) {
            None => {
                proof {
                    reveal(read_txs);
                    assert(read_txs(s@, p as int, (i + 1) as nat) is None);
                    lemma_txs_fail(s@, p as int, (i + 1) as nat, n as nat);
                }
                return None;
            },
            Some((x, q2)) => {
                let ghost before = xs@;
                xs.push(x);
                proof {
                    reveal(read_txs);
                    assert(xs@.map_values(|x: Transaction| x@) =~= before.map_values(
                        |x: Transaction| x@,
                    ).push(x@));
                }
                q = q2;
                i = i + 1;
            },
        }
    }
    Some((xs, q))
}

/// Read a counted list of transactions at `p`.
pub fn get_tx_list(s: &[u8], p: usize) -> (r: Option<(Vec<Transaction>, usize)>)
    ensures
        match r {
            Some((xs, q)) => read_tx_list(s@, p as int) == Some(
                (xs@.map_values(|x: Transaction| x@), q as int),
            ),
            None => read_tx_list(s@, p as int) is None,
        },
{
    let (n, q) = match get_varint(s, p) {
        Some(x) => x,
        None => return None,
    };
    get_txs(s, q, n)
}

/// Read a block header at `p`.
pub fn get_header(s: &[u8], p: usize) -> (r: Option<(BlockHeader, usize)>)
    ensures
        match r {
            Some((h, q)) => read_header(s@, p as int) == Some((header_model(h), q as int)),
            None => read_header(s@, p as int) is None,
        },
{
    reveal(read_header);
    let (version, p1) = match get_varint(s, p) {
        Some(x) => x,
        None => return None,
    };
    let (prev_hash, p2) = match get_hash(s, p1) {
        Some(x) => x,
        None => return None,
    };
    let (merkle_root, p3) = match get_hash(s, p2) {
        Some(x) => x,
        None => return None,
    };
    let (timestamp, p4) = match get_varint(s, p3) {
        Some(x) => x,
        None => return None,
    };
    let (difficulty_target, p5) = match get_varint(s, p4) {
        Some(x) => x,
        None => return None,
    };
    let (nonce, p6) = match get_varint(s, p5) {
        Some(x) => x,
        None => return None,
    };
    Some((BlockHeader { version, prev_hash, merkle_root, timestamp, difficulty_target, nonce }, p6))
}

/// Read a UTXO entry at `p`.
pub fn get_utxo(s: &[u8], p: usize) -> (r: Option<(UtxoEntry, usize)>)
    ensures
        match r {
            Some((e, q)) => read_utxo(s@, p as int) == Some((e@, q as int)),
            None => read_utxo(s@, p as int) is None,
        },
{
    let (output, p1) = match get_output(s, p) {
        Some(x) => x,
        None => return None,
    };
    let (block_height, p2) = match get_varint(s, p1) {
        Some(x) => x,
        None => return None,
    };
    assert(p2 <= s@.len()) by {
        reveal(read_varint);
    }
    if p2 >= s.len() {
        return None;
    }
    let is_coinbase = if s[p2] == 0 {
        false
    } else if s[p2] == 1 {
        true
    } else {
        return None;
    };
    let (cluster_id, p4) = match get_hash(s, p2 + 1) {
        Some(x) => x,
        None => return None,
    };
    Some((UtxoEntry { output, block_height, is_coinbase, cluster_id }, p4))
}

/// Decode a transaction from the start of `bytes`; gives the transaction
/// and the number of bytes it took.
pub fn decode_transaction(bytes: &[u8]) -> (r: Option<(Transaction, usize)>)
    ensures
        match r {
            Some((t, n)) => read_tx(bytes@, 0) == Some((t@, n as int)),
            None => read_tx(bytes@, 0) is None,
        },
{
    get_tx(bytes, 0)
}

/// Decode a counted list of transactions from the start of `bytes`.
pub fn decode_transactions(bytes: &[u8]) -> (r: Option<(Vec<Transaction>, usize)>)
    ensures
        match r {
            Some((xs, n)) => read_tx_list(bytes@, 0) == Some(
                (xs@.map_values(|x: Transaction| x@), n as int),
            ),
            None => read_tx_list(bytes@, 0) is None,
        },
{
    get_tx_list(bytes, 0)
}

/// Decode a block header from the start of `bytes`.
pub fn decode_header(bytes: &[u8]) -> (r: Option<(BlockHeader, usize)>)
    ensures
        match r {
            Some((h, n)) => read_header(bytes@, 0) == Some((header_model(h), n as int)),
            None => read_header(bytes@, 0) is None,
        },
{
    get_header(bytes, 0)
}

/// Decode a block from the start of `bytes`.
pub fn decode_block(bytes: &[u8]) -> (r: Option<(Block, usize)>)
    ensures
        match r {
            Some((b, n)) => read_block(bytes@, 0) == Some(
                ((header_model(b.header), b@.transactions), n as int),
            ),
            None => read_block(bytes@, 0) is None,
        },
{
    let (header, p) = match get_header(bytes, 0) {
        Some(x) => x,
        None => return None,
    };
    let (transactions, q) = match get_tx_list(bytes, p) {
        Some(x) => x,
        None => return None,
    };
    Some((Block { header, transactions }, q))
}

/// Decode a UTXO entry from the start of `bytes`.
pub fn decode_utxo_entry(bytes: &[u8]) -> (r: Option<(UtxoEntry, usize)>)
    ensures
        match r {
            Some((e, n)) => read_utxo(bytes@, 0) == Some((e@, n as int)),
            None => read_utxo(bytes@, 0) is None,
        },
{
    get_utxo(bytes, 0)
}

// ---------------------------------------------------------------------------
// Writers for the remaining records
// ---------------------------------------------------------------------------

/// The canonical encoding of a block header.
pub fn encode_header(h: &BlockHeader) -> (r: Vec<u8>)
    ensures
        r@ == enc_header(*h),
{
    let mut out: Vec<u8> = Vec::new();
    write_varint(&mut out, h.version);
    write_raw(&mut out, h.prev_hash.0.as_slice());
    write_raw(&mut out, h.merkle_root.0.as_slice());
    write_varint(&mut out, h.timestamp);
    write_varint(&mut out, h.difficulty_target);
    write_varint(&mut out, h.nonce);
    assert(out@ =~= enc_header(*h));
    out
}

/// The canonical encoding of a counted list of transactions.
pub fn encode_transactions(txs: &Vec<Transaction>) -> (r: Vec<u8>)
    ensures
        r@ == varint(txs@.len() as u64) + enc_txs(txs@.map_values(|t: Transaction| t@)),
{
    let mut out: Vec<u8> = Vec::new();
    write_varint(&mut out, txs.len() as u64);
    let ghost base = out@;
    let ghost all = txs@.map_values(|t: Transaction| t@);
    let mut i: usize = 0;
    while i < txs.len()
        invariant
            i <= txs@.len(),
            all == txs@.map_values(|t: Transaction| t@),
            out@ == base + enc_txs(all.subrange(0, i as int)),
        decreases txs@.len() - i,
    {
        write_tx(&mut out, &txs[i]);
        proof {
            let s = all.subrange(0, i + 1);
            assert(s.drop_last() =~= all.subrange(0, i as int));
        }
        i = i + 1;
        assert(out@ =~= base + enc_txs(all.subrange(0, i as int)));
    }
    assert(all.subrange(0, txs@.len() as int) =~= all);
    out
}

/// The canonical encoding of a UTXO entry.
pub fn encode_utxo_entry(e: &UtxoEntry) -> (r: Vec<u8>)
    ensures
        r@ == enc_utxo(e@),
{
    let mut out: Vec<u8> = Vec::new();
    write_varint(&mut out, e.output.value);
    write_raw(&mut out, e.output.pubkey_hash.0.as_slice());
    write_varint(&mut out, e.block_height);
    if e.is_coinbase {
        out.push(1u8);
    } else {
        out.push(0u8);
    }
    write_raw(&mut out, e.cluster_id.0.as_slice());
    assert(out@ =~= enc_utxo(e@));
    out
}

/// Every transaction value fits the encoding.
pub proof fn lemma_tx_encodable(t: Transaction)
    ensures
        tx_encodable(t@),
{
    assert(t.inputs.len() == t.inputs@.len());
    assert(t.outputs.len() == t.outputs@.len());
    assert forall|k: int| 0 <= k < t@.inputs.len() implies input_encodable(
        #[trigger] t@.inputs[k],
    ) by {
        let i = t.inputs@[k];
        assert(i.previous_output.txid.0@.len() == 32);
        assert(i.signature.len() == i.signature@.len());
        assert(i.public_key.len() == i.public_key@.len());
    }
    assert forall|k: int| 0 <= k < t@.outputs.len() implies output_encodable(
        #[trigger] t@.outputs[k],
    ) by {
        assert(t.outputs@[k].pubkey_hash.0@.len() == 32);
    }
}

// ---------------------------------------------------------------------------
// Round trips
// ---------------------------------------------------------------------------

/// Decoding the encoding of a transaction gives the transaction back and
/// takes exactly the encoded bytes, whatever follows them.
pub proof fn lemma_transaction_roundtrip(t: Transaction, rest: Seq<u8>)
    ensures
        read_tx(enc_tx(t@) + rest, 0) == Some((t@, enc_tx(t@).len() as int)),
{
    lemma_tx_encodable(t);
    lemma_read_tx(Seq::empty(), t@, rest);
    assert(Seq::<u8>::empty() + enc_tx(t@) + rest =~= enc_tx(t@) + rest);
}

/// Decoding the encoding of a header gives the header back.
pub proof fn lemma_header_roundtrip(h: BlockHeader, rest: Seq<u8>)
    ensures
        read_header(enc_header(h) + rest, 0) == Some(
            (header_model(h), enc_header(h).len() as int),
        ),
{
    lemma_read_header(Seq::empty(), h, rest);
    assert(Seq::<u8>::empty() + enc_header(h) + rest =~= enc_header(h) + rest);
}

/// Decoding the encoding of a block gives its header and transactions back.
pub proof fn lemma_block_roundtrip(b: Block, rest: Seq<u8>)
    ensures
        read_block(enc_block(b@) + rest, 0) == Some(
            ((header_model(b.header), b@.transactions), enc_block(b@).len() as int),
        ),
{
    let txs = b@.transactions;
    assert(b.transactions.len() == b.transactions@.len());
    assert forall|k: int| 0 <= k < txs.len() implies tx_encodable(#[trigger] txs[k]) by {
        lemma_tx_encodable(b.transactions@[k]);
    }
    let h = enc_header(b.header);
    let l = varint(txs.len() as u64) + enc_txs(txs);
    let s = enc_block(b@) + rest;
    assert(s =~= Seq::<u8>::empty() + h + (l + rest));
    lemma_read_header(Seq::empty(), b.header, l + rest);
    assert(s =~= h + l + rest);
    lemma_read_tx_list(h, txs, rest);
}

/// Decoding the encoding of a UTXO entry gives the entry back.
pub proof fn lemma_utxo_roundtrip(e: UtxoEntry, rest: Seq<u8>)
    ensures
        read_utxo(enc_utxo(e@) + rest, 0) == Some((e@, enc_utxo(e@).len() as int)),
{
    assert(e.output.pubkey_hash.0@.len() == 32);
    assert(e.cluster_id.0@.len() == 32);
    lemma_read_utxo(Seq::empty(), e@, rest);
    assert(Seq::<u8>::empty() + enc_utxo(e@) + rest =~= enc_utxo(e@) + rest);
}

// ---------------------------------------------------------------------------
// Merkle proofs
// ---------------------------------------------------------------------------

/// A proof step as values: the sibling hash and its side.
pub open spec fn step_model(st: ProofStep) -> (Seq<u8>, Side) {
    (st.hash@, st.side)
}

/// A Merkle proof as values.
pub ghost struct ProofModel {
    pub leaf_index: usize,
    pub leaf: Seq<u8>,
    pub path: Seq<(Seq<u8>, Side)>,
}

/// The value of a proof.
pub open spec fn proof_model(p: MerkleProof) -> ProofModel {
    ProofModel {
        leaf_index: p.leaf_index,
        leaf: p.leaf@,
        path: p.path@.map_values(|st: ProofStep| step_model(st)),
    }
}

/// The index of a side as written: left 0, right 1.
pub open spec fn side_index(side: Side) -> u64 {
    match side {
        Side::Left => 0,
        Side::Right => 1,
    }
}

/// Encoding of a proof step: the raw sibling hash, then the side's index.
pub open spec fn enc_step(st: (Seq<u8>, Side)) -> Seq<u8> {
    st.0 + varint(side_index(st.1))
}

/// Concatenated encodings of proof steps.
pub open spec fn enc_steps(s: Seq<(Seq<u8>, Side)>) -> Seq<u8>
    decreases s.len(),
{
    if s.len() == 0 {
        Seq::empty()
    } else {
        enc_steps(s.drop_last()) + enc_step(s.last())
    }
}

/// Encoding of a proof: leaf index, raw leaf, counted steps.
pub open spec fn enc_proof(p: ProofModel) -> Seq<u8> {
    varint(p.leaf_index as u64) + p.leaf + varint(p.path.len() as u64) + enc_steps(p.path)
}

/// A side at `p`: a 32-bit variable-length index (the 8-byte form is
/// refused), 0 for left and 1 for right.
pub open spec fn read_side(s: Seq<u8>, p: int) -> Option<(Side, int)> {
    if 0 <= p < s.len() && s[p] == 253 {
        None
    } else {
        match read_varint(s, p) {
            Some((0, q)) => Some((Side::Left, q)),
            Some((1, q)) => Some((Side::Right, q)),
            _ => None,
        }
    }
}

/// A proof step at `p`.
pub open spec fn read_step(s: Seq<u8>, p: int) -> Option<((Seq<u8>, Side), int)> {
    match read_raw(s, p, 32) {
        None => None,
        Some((h, p1)) => match read_side(s, p1) {
            None => None,
            Some((side, p2)) => Some(((h, side), p2)),
        },
    }
}

/// `n` proof steps from `p`.
#[verifier::opaque]
pub open spec fn read_steps(s: Seq<u8>, p: int, n: nat) -> Option<(Seq<(Seq<u8>, Side)>, int)>
    decreases n,
{
    if n == 0 {
        Some((Seq::empty(), p))
    } else {
        match read_steps(s, p, (n - 1) as nat) {
            None => None,
            Some((xs, q)) => match read_step(s, q) {
                None => None,
                Some((x, q2)) => Some((xs.push(x), q2)),
            },
        }
    }
}

/// A proof at `p`: a leaf index that fits `usize`, the raw leaf, and a
/// counted list of steps.
pub open spec fn read_proof(s: Seq<u8>, p: int) -> Option<(ProofModel, int)> {
    match read_varint(s, p) {
        None => None,
        Some((index, p1)) => if index > usize::MAX {
            None
        } else {
            match read_raw(s, p1, 32) {
                None => None,
                Some((leaf, p2)) => match read_varint(s, p2) {
                    None => None,
                    Some((n, p3)) => match read_steps(s, p3, n as nat) {
                        None => None,
                        Some((path, p4)) => Some(
                            (ProofModel { leaf_index: index as usize, leaf, path }, p4),
                        ),
                    },
                },
            }
        },
    }
}

/// A proof step written at `p` reads back as itself.
proof fn lemma_read_step(pre: Seq<u8>, st: (Seq<u8>, Side), post: Seq<u8>)
    requires
        st.0.len() == 32,
    ensures
        read_step(pre + enc_step(st) + post, pre.len() as int) == Some(
            (st, pre.len() + enc_step(st).len() as int),
        ),
{
    let s = pre + enc_step(st) + post;
    let v = varint(side_index(st.1));
    assert(s =~= pre + st.0 + (v + post));
    lemma_read_raw(pre, st.0, v + post);
    assert(s =~= (pre + st.0) + v + post);
    lemma_read_varint(pre + st.0, side_index(st.1), post);
    assert(s[(pre.len() + st.0.len()) as int] == v[0]);
}

/// Proof steps written one after another read back as themselves.
proof fn lemma_read_steps(pre: Seq<u8>, xs: Seq<(Seq<u8>, Side)>, post: Seq<u8>)
    requires
        forall|k: int| 0 <= k < xs.len() ==> (#[trigger] xs[k]).0.len() == 32,
    ensures
        read_steps(pre + enc_steps(xs) + post, pre.len() as int, xs.len()) == Some(
            (xs, pre.len() + enc_steps(xs).len() as int),
        ),
    decreases xs.len(),
{
    reveal(read_steps);
    if xs.len() > 0 {
        let init = xs.drop_last();
        let last = xs.last();
        let s = pre + enc_steps(xs) + post;
        assert(s =~= pre + enc_steps(init) + (enc_step(last) + post));
        lemma_read_steps(pre, init, enc_step(last) + post);
        assert(s =~= (pre + enc_steps(init)) + enc_step(last) + post);
        assert(xs[xs.len() - 1].0.len() == 32);
        lemma_read_step(pre + enc_steps(init), last, post);
        assert(init.push(last) =~= xs);
    }
}

/// Decoding the encoding of a Merkle proof gives the proof back.
pub proof fn lemma_proof_roundtrip(p: MerkleProof, rest: Seq<u8>)
    ensures
        read_proof(enc_proof(proof_model(p)) + rest, 0) == Some(
            (proof_model(p), enc_proof(proof_model(p)).len() as int),
        ),
{
    let m = proof_model(p);
    assert(p.leaf.0@.len() == 32);
    assert(p.path.len() == p.path@.len());
    assert forall|k: int| 0 <= k < m.path.len() implies (#[trigger] m.path[k]).0.len() == 32 by {
        assert(p.path@[k].hash.0@.len() == 32);
    }
    let a = varint(m.leaf_index as u64);
    let b = m.leaf;
    let c = varint(m.path.len() as u64);
    let d = enc_steps(m.path);
    let s = enc_proof(m) + rest;
    assert(s =~= Seq::<u8>::empty() + a + (b + c + d + rest));
    lemma_read_varint(Seq::empty(), m.leaf_index as u64, b + c + d + rest);
    assert(s =~= a + b + (c + d + rest));
    lemma_read_raw(a, b, c + d + rest);
    assert(s =~= (a + b) + c + (d + rest));
    lemma_read_varint(a + b, m.path.len() as u64, d + rest);
    assert(s =~= (a + b + c) + d + rest);
    lemma_read_steps(a + b + c, m.path, rest);
}

/// Reading `n` steps fails once reading fewer of them has failed.
proof fn lemma_steps_fail(s: Seq<u8>, p: int, m: nat, n: nat)
    requires
        read_steps(s, p, m) is None,
        m <= n,
    ensures
        read_steps(s, p, n) is None,
    decreases n,
{
    if n > m {
        lemma_steps_fail(s, p, m, (n - 1) as nat);
        reveal(read_steps);
    }
}

fn get_side(s: &[u8], p: usize) -> (r: Option<(Side, usize)>)
    ensures
        match r {
            Some((side, q)) => read_side(s@, p as int) == Some((side, q as int)),
            None => read_side(s@, p as int) is None,
        },
{
    if p < s.len() && s[p] == 253 {
        return None;
    }
    match get_varint(s, p) {
        Some((0, q)) => Some((Side::Left, q)),
        Some((1, q)) => Some((Side::Right, q)),
        _ => None,
    }
}

fn get_step(s: &[u8], p: usize) -> (r: Option<(ProofStep, usize)>)
    ensures
        match r {
            Some((st, q)) => read_step(s@, p as int) == Some((step_model(st), q as int)),
            None => read_step(s@, p as int) is None,
        },
{
    let (hash, p1) = match get_hash(s, p) {
        Some(x) => x,
        None => return None,
    };
    let (side, p2) = match get_side(s, p1) {
        Some(x) => x,
        None => return None,
    };
    Some((ProofStep { hash, side }, p2))
}

/// Decode a Merkle proof from the start of `bytes`.
pub fn decode_proof(bytes: &[u8]) -> (r: Option<(MerkleProof, usize)>)
    ensures
        match r {
            Some((pf, n)) => read_proof(bytes@, 0) == Some((proof_model(pf), n as int)),
            None => read_proof(bytes@, 0) is None,
        },
{
    let (index, p1) = match get_varint(bytes, 0) {
        Some(x) => x,
        None => return None,
    };
    if index > usize::MAX as u64 {
        return None;
    }
    let (leaf, p2) = match get_hash(bytes, p1) {
        Some(x) => x,
        None => return None,
    };
    let (n, p3) = match get_varint(bytes, p2) {
        Some(x) => x,
        None => return None,
    };
    let mut path: Vec<ProofStep> = Vec::new();
    let mut q = p3;
    let mut i: u64 = 0;
    assert(read_steps(bytes@, p3 as int, 0) == Some(
        (path@.map_values(|st: ProofStep| step_model(st)), q as int),
    )) by {
        reveal(read_steps);
        assert(path@.map_values(|st: ProofStep| step_model(st)) =~= Seq::<(Seq<u8>, Side)>::empty());
    }
    while i < n
        invariant
            i <= n,
            read_varint(bytes@, 0) == Some((index, p1 as int)),
            index <= usize::MAX,
            read_raw(bytes@, p1 as int, 32) == Some((leaf@, p2 as int)),
            read_varint(bytes@, p2 as int) == Some((n, p3 as int)),
            read_steps(bytes@, p3 as int, i as nat) == Some(
                (path@.map_values(|st: ProofStep| step_model(st)), q as int),
            ),
        decreases n - i,
    {
        match get_step(bytes, q) {
            None => {
                proof {
                    reveal(read_steps);
                    assert(read_steps(bytes@, p3 as int, (i + 1) as nat) is None);
                    lemma_steps_fail(bytes@, p3 as int, (i + 1) as nat, n as nat);
                }
                return None;
            },
            Some((st, q2)) => {
                let ghost before = path@;
                path.push(st);
                proof {
                    reveal(read_steps);
                    assert(path@.map_values(|st: ProofStep| step_model(st)) =~= before.map_values(
                        |st: ProofStep| step_model(st),
                    ).push(step_model(st)));
                }
                q = q2;
                i = i + 1;
            },
        }
    }
    Some((MerkleProof { leaf_index: index as usize, leaf, path }, q))
}

/// The canonical encoding of a Merkle proof.
pub fn encode_proof(pf: &MerkleProof) -> (r: Vec<u8>)
    ensures
        r@ == enc_proof(proof_model(*pf)),
{
    let mut out: Vec<u8> = Vec::new();
    write_varint(&mut out, pf.leaf_index as u64);
    write_raw(&mut out, pf.leaf.0.as_slice());
    write_varint(&mut out, pf.path.len() as u64);
    let ghost base = out@;
    let ghost all = pf.path@.map_values(|st: ProofStep| step_model(st));
    let mut i: usize = 0;
    while i < pf.path.len()
        invariant
            i <= pf.path@.len(),
            all == pf.path@.map_values(|st: ProofStep| step_model(st)),
            out@ == base + enc_steps(all.subrange(0, i as int)),
        decreases pf.path@.len() - i,
    {
        let st = pf.path[i];
        write_raw(&mut out, st.hash.0.as_slice());
        match st.side {
            Side::Left => write_varint(&mut out, 0),
            Side::Right => write_varint(&mut out, 1),
        }
        proof {
            let sub = all.subrange(0, i + 1);
            assert(sub.drop_last() =~= all.subrange(0, i as int));
            assert(sub.last() == step_model(st));
        }
        i = i + 1;
        assert(out@ =~= base + enc_steps(all.subrange(0, i as int)));
    }
    assert(all.subrange(0, pf.path@.len() as int) =~= all);
    assert(out@ =~= enc_proof(proof_model(*pf)));
    out
}

// ---------------------------------------------------------------------------
// Agent wallet state
// ---------------------------------------------------------------------------

/// The fields of an agent wallet state as values.
pub ghost struct AgentModel {
    pub pubkey_hash: Seq<u8>,
    pub registered_at_block: u64,
    pub stake_balance: u64,
    pub stake_locked_until: u64,
    pub conduct_score: u16,
    pub conduct_multiplier_bps: u64,
    pub undertow_active: bool,
    pub undertow_expires_at: u64,
}

/// The value of an agent wallet state.
pub open spec fn agent_model(a: AgentWalletState) -> AgentModel {
    AgentModel {
        pubkey_hash: a.pubkey_hash@,
        registered_at_block: a.registered_at_block,
        stake_balance: a.stake_balance,
        stake_locked_until: a.stake_locked_until,
        conduct_score: a.conduct_score,
        conduct_multiplier_bps: a.conduct_multiplier_bps,
        undertow_active: a.undertow_active,
        undertow_expires_at: a.undertow_expires_at,
    }
}

/// The flag byte of a boolean.
pub open spec fn flag_byte(b: bool) -> Seq<u8> {
    seq![if b { 1u8 } else { 0u8 }]
}

/// Encoding of an agent wallet state, its fields in order.
pub open spec fn enc_agent(a: AgentModel) -> Seq<u8> {
    a.pubkey_hash + varint(a.registered_at_block) + varint(a.stake_balance) + varint(
        a.stake_locked_until,
    ) + varint(a.conduct_score as u64) + varint(a.conduct_multiplier_bps) + flag_byte(
        a.undertow_active,
    ) + varint(a.undertow_expires_at)
}

/// A 16-bit variable-length integer at `p`: one byte up to 250, or 251
/// and two little-endian bytes; the wider forms are refused.
pub open spec fn read_varint16(s: Seq<u8>, p: int) -> Option<(u16, int)> {
    if 0 <= p < s.len() && (s[p] <= 250 || s[p] == 251) {
        match read_varint(s, p) {
            Some((v, q)) => Some((v as u16, q)),
            None => None,
        }
    } else {
        None
    }
}

/// An agent wallet state at `p`.
#[verifier::opaque]
pub open spec fn read_agent(s: Seq<u8>, p: int) -> Option<(AgentModel, int)> {
    match read_raw(s, p, 32) {
        None => None,
        Some((pubkey_hash, p1)) => match read_varint(s, p1) {
            None => None,
            Some((registered_at_block, p2)) => match read_varint(s, p2) {
                None => None,
                Some((stake_balance, p3)) => match read_varint(s, p3) {
                    None => None,
                    Some((stake_locked_until, p4)) => match read_varint16(s, p4) {
                        None => None,
                        Some((conduct_score, p5)) => match read_varint(s, p5) {
                            None => None,
                            Some((conduct_multiplier_bps, p6)) => match read_flag(s, p6) {
                                None => None,
                                Some((undertow_active, p7)) => match read_varint(s, p7) {
                                    None => None,
                                    Some((undertow_expires_at, p8)) => Some(
                                        (
                                            AgentModel {
                                                pubkey_hash,
                                                registered_at_block,
                                                stake_balance,
                                                stake_locked_until,
                                                conduct_score,
                                                conduct_multiplier_bps,
                                                undertow_active,
                                                undertow_expires_at,
                                            },
                                            p8,
                                        ),
                                    ),
                                },
                            },
                        },
                    },
                },
            },
        },
    }
}

/// An agent wallet state reads as its fields read one after another.
proof fn lemma_read_agent_parts(s: Seq<u8>, a: AgentModel, ps: Seq<int>)
    requires
        ps.len() == 9,
        read_raw(s, ps[0], 32) == Some((a.pubkey_hash, ps[1])),
        read_varint(s, ps[1]) == Some((a.registered_at_block, ps[2])),
        read_varint(s, ps[2]) == Some((a.stake_balance, ps[3])),
        read_varint(s, ps[3]) == Some((a.stake_locked_until, ps[4])),
        read_varint16(s, ps[4]) == Some((a.conduct_score, ps[5])),
        read_varint(s, ps[5]) == Some((a.conduct_multiplier_bps, ps[6])),
        read_flag(s, ps[6]) == Some((a.undertow_active, ps[7])),
        read_varint(s, ps[7]) == Some((a.undertow_expires_at, ps[8])),
    ensures
        read_agent(s, ps[0]) == Some((a, ps[8])),
{
    reveal(read_agent);
}

/// A 16-bit value written as a varint reads back.
proof fn lemma_read_varint16(pre: Seq<u8>, v: u16, post: Seq<u8>)
    ensures
        read_varint16(pre + varint(v as u64) + post, pre.len() as int) == Some(
            (v, pre.len() + varint(v as u64).len() as int),
        ),
{
    lemma_read_varint(pre, v as u64, post);
    let s = pre + varint(v as u64) + post;
    assert(s[pre.len() as int] == varint(v as u64)[0]);
}

/// A flag byte written at `p` reads back as its value.
proof fn lemma_read_flag(pre: Seq<u8>, b: bool, post: Seq<u8>)
    ensures
        read_flag(pre + flag_byte(b) + post, pre.len() as int) == Some((b, pre.len() + 1int)),
{
    let s = pre + flag_byte(b) + post;
    assert(s[pre.len() as int] == flag_byte(b)[0]);
}

/// The ways of reading eight parts followed by a suffix.
proof fn lemma_regroup8(
    f0: Seq<u8>,
    f1: Seq<u8>,
    f2: Seq<u8>,
    f3: Seq<u8>,
    f4: Seq<u8>,
    f5: Seq<u8>,
    f6: Seq<u8>,
    f7: Seq<u8>,
    rest: Seq<u8>,
)
    ensures
        ({
            let s = f0 + f1 + f2 + f3 + f4 + f5 + f6 + f7 + rest;
            &&& s == Seq::<u8>::empty() + f0 + (f1 + f2 + f3 + f4 + f5 + f6 + f7 + rest)
            &&& s == f0 + f1 + (f2 + f3 + f4 + f5 + f6 + f7 + rest)
            &&& s == (f0 + f1) + f2 + (f3 + f4 + f5 + f6 + f7 + rest)
            &&& s == (f0 + f1 + f2) + f3 + (f4 + f5 + f6 + f7 + rest)
            &&& s == (f0 + f1 + f2 + f3) + f4 + (f5 + f6 + f7 + rest)
            &&& s == (f0 + f1 + f2 + f3 + f4) + f5 + (f6 + f7 + rest)
            &&& s == (f0 + f1 + f2 + f3 + f4 + f5) + f6 + (f7 + rest)
            &&& s == (f0 + f1 + f2 + f3 + f4 + f5 + f6) + f7 + rest
        }),
{
    let s = f0 + f1 + f2 + f3 + f4 + f5 + f6 + f7 + rest;
    assert(s =~= Seq::<u8>::empty() + f0 + (f1 + f2 + f3 + f4 + f5 + f6 + f7 + rest));
    assert(s =~= f0 + f1 + (f2 + f3 + f4 + f5 + f6 + f7 + rest));
    assert(s =~= (f0 + f1) + f2 + (f3 + f4 + f5 + f6 + f7 + rest));
    assert(s =~= (f0 + f1 + f2) + f3 + (f4 + f5 + f6 + f7 + rest));
    assert(s =~= (f0 + f1 + f2 + f3) + f4 + (f5 + f6 + f7 + rest));
    assert(s =~= (f0 + f1 + f2 + f3 + f4) + f5 + (f6 + f7 + rest));
    assert(s =~= (f0 + f1 + f2 + f3 + f4 + f5) + f6 + (f7 + rest));
}

/// Decoding the encoding of an agent wallet state gives it back.
pub proof fn lemma_agent_roundtrip(a: AgentWalletState, rest: Seq<u8>)
    ensures
        read_agent(enc_agent(agent_model(a)) + rest, 0) == Some(
            (agent_model(a), enc_agent(agent_model(a)).len() as int),
        ),
{
    let m = agent_model(a);
    let f0 = m.pubkey_hash;
    let f1 = varint(m.registered_at_block);
    let f2 = varint(m.stake_balance);
    let f3 = varint(m.stake_locked_until);
    let f4 = varint(m.conduct_score as u64);
    let f5 = varint(m.conduct_multiplier_bps);
    let f6 = flag_byte(m.undertow_active);
    let f7 = varint(m.undertow_expires_at);
    let s = enc_agent(m) + rest;
    assert(a.pubkey_hash.0@.len() == 32);
    let q1 = f0;
    let q2 = q1 + f1;
    let q3 = q2 + f2;
    let q4 = q3 + f3;
    let q5 = q4 + f4;
    let q6 = q5 + f5;
    let q7 = q6 + f6;
    let q8 = q7 + f7;
    lemma_regroup8(f0, f1, f2, f3, f4, f5, f6, f7, rest);
    assert(s == f0 + f1 + f2 + f3 + f4 + f5 + f6 + f7 + rest);
    lemma_read_raw(Seq::empty(), f0, f1 + f2 + f3 + f4 + f5 + f6 + f7 + rest);
    lemma_read_varint(q1, m.registered_at_block, f2 + f3 + f4 + f5 + f6 + f7 + rest);
    lemma_read_varint(q2, m.stake_balance, f3 + f4 + f5 + f6 + f7 + rest);
    lemma_read_varint(q3, m.stake_locked_until, f4 + f5 + f6 + f7 + rest);
    lemma_read_varint16(q4, m.conduct_score, f5 + f6 + f7 + rest);
    lemma_read_varint(q5, m.conduct_multiplier_bps, f6 + f7 + rest);
    lemma_read_flag(q6, m.undertow_active, f7 + rest);
    lemma_read_varint(q7, m.undertow_expires_at, rest);
    let ps = seq![
        0int,
        q1.len() as int,
        q2.len() as int,
        q3.len() as int,
        q4.len() as int,
        q5.len() as int,
        q6.len() as int,
        q7.len() as int,
        q8.len() as int,
    ];
    lemma_read_agent_parts(s, m, ps);
}

fn get_varint16(s: &[u8], p: usize) -> (r: Option<(u16, usize)>)
    ensures
        match r {
            Some((v, q)) => read_varint16(s@, p as int) == Some((v, q as int)),
            None => read_varint16(s@, p as int) is None,
        },
{
    if p >= s.len() || !(s[p] <= 250 || s[p] == 251) {
        return None;
    }
    match get_varint(s, p) {
        Some((v, q)) => {
            proof {
                reveal(read_varint);
                reveal_with_fuel(le_num, 3);
            }
            Some((v as u16, q))
        },
        None => None,
    }
}

fn get_flag(s: &[u8], p: usize) -> (r: Option<(bool, usize)>)
    ensures
        match r {
            Some((b, q)) => read_flag(s@, p as int) == Some((b, q as int)),
            None => read_flag(s@, p as int) is None,
        },
{
    if p >= s.len() {
        None
    } else if s[p] == 0 {
        Some((false, p + 1))
    } else if s[p] == 1 {
        Some((true, p + 1))
    } else {
        None
    }
}

/// Decode an agent wallet state from the start of `bytes`.
pub fn decode_agent_state(bytes: &[u8]) -> (r: Option<(AgentWalletState, usize)>)
    ensures
        match r {
            Some((a, n)) => read_agent(bytes@, 0) == Some((agent_model(a), n as int)),
            None => read_agent(bytes@, 0) is None,
        },
{
    reveal(read_agent);
    let (pubkey_hash, p1) = match get_hash(bytes, 0) {
        Some(x) => x,
        None => return None,
    };
    let (registered_at_block, p2) = match get_varint(bytes, p1) {
        Some(x) => x,
        None => return None,
    };
    let (stake_balance, p3) = match get_varint(bytes, p2) {
        Some(x) => x,
        None => return None,
    };
    let (stake_locked_until, p4) = match get_varint(bytes, p3) {
        Some(x) => x,
        None => return None,
    };
    let (conduct_score, p5) = match get_varint16(bytes, p4) {
        Some(x) => x,
        None => return None,
    };
    let (conduct_multiplier_bps, p6) = match get_varint(bytes, p5) {
        Some(x) => x,
        None => return None,
    };
    let (undertow_active, p7) = match get_flag(bytes, p6) {
        Some(x) => x,
        None => return None,
    };
    let (undertow_expires_at, p8) = match get_varint(bytes, p7) {
        Some(x) => x,
        None => return None,
    };
    Some(
        (
            AgentWalletState {
                pubkey_hash,
                registered_at_block,
                stake_balance,
                stake_locked_until,
                conduct_score,
                conduct_multiplier_bps,
                undertow_active,
                undertow_expires_at,
            },
            p8,
        ),
    )
}

/// The canonical encoding of an agent wallet state.
pub fn encode_agent_state(a: &AgentWalletState) -> (r: Vec<u8>)
    ensures
        r@ == enc_agent(agent_model(*a)),
{
    let mut out: Vec<u8> = Vec::new();
    write_raw(&mut out, a.pubkey_hash.0.as_slice());
    write_varint(&mut out, a.registered_at_block);
    write_varint(&mut out, a.stake_balance);
    write_varint(&mut out, a.stake_locked_until);
    write_varint(&mut out, a.conduct_score as u64);
    write_varint(&mut out, a.conduct_multiplier_bps);
    if a.undertow_active {
        out.push(1u8);
    } else {
        out.push(0u8);
    }
    write_varint(&mut out, a.undertow_expires_at);
    assert(out@ =~= enc_agent(agent_model(*a)));
    out
}

} // verus!
