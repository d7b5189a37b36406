//! Addresses: Bech32m (BIP-350) encodings of a version byte and a 32-byte
//! pubkey hash, with the prefix `rill` on mainnet and `trill` on testnet.

pub mod roundtrip;

use vstd::prelude::*;
use vstd::string::{StrSliceExecFns, StringSliceAdditionalSpecFns};
use vstd::utf8::{
    encode_scalar, encode_utf8, has_width_1_encoding, has_width_2_encoding, has_width_3_encoding,
};

use crate::crypto::PublicKey;
use crate::error::{AddrErr, AddressError};
use crate::hashing::blake3_digest;
use crate::types::{string_from_chars, Hash256};

verus! {

/// The Bech32m checksum constant.
pub const BECH32M_CONST: u32 = 0x2bc830a3;

/// The Bech32 alphabet: the character for each 5-bit value.
pub const CHARSET: [u8; 32] = [
    113, 112, 122, 114, 121, 57, 120, 56, 103, 102, 50, 116, 118, 100, 119, 48, 115, 51, 106, 110,
    53, 52, 107, 104, 99, 101, 54, 109, 117, 97, 55, 108,
];

/// The current address version.
pub const ADDRESS_VERSION: u8 = 0;

/// The network an address belongs to, which fixes its prefix.
#[derive(Clone, Copy, Debug, PartialEq, Eq, Hash, Structural)]
pub enum Network {
    /// Mainnet: addresses start with `rill1`.
    Mainnet,
    /// Testnet: addresses start with `trill1`.
    Testnet,
}

/// The human-readable prefix of a network.
pub open spec fn spec_hrp(n: Network) -> Seq<char> {
    match n {
        Network::Mainnet => "rill"@,
        Network::Testnet => "trill"@,
    }
}

/// The network named by a prefix, if any.
pub open spec fn spec_network_of(hrp: Seq<char>) -> Option<Network> {
    if hrp == spec_hrp(Network::Mainnet) {
        Some(Network::Mainnet)
    } else if hrp == spec_hrp(Network::Testnet) {
        Some(Network::Testnet)
    } else {
        None
    }
}

/// Whether two string slices hold the same characters.
fn str_eq(a: &str, b: &str) -> (r: bool)
    ensures
        r == (a@ == b@),
{
    let n = a.unicode_len();
    if n != b.unicode_len() {
        return false;
    }
    let mut i: usize = 0;
    while i < n
        invariant
            n == a@.len(),
            n == b@.len(),
            i <= n,
            forall|j: int| 0 <= j < i ==> a@[j] == b@[j],
        decreases n - i,
    {
        if a.get_char(i) != b.get_char(i) {
            return false;
        }
        i = i + 1;
    }
    assert(a@ =~= b@);
    true
}

impl Network {
    /// The human-readable prefix of this network.
    pub fn hrp(&self) -> (r: &'static str)
        ensures
            r@ == spec_hrp(*self),
    {
        match self {
            Network::Mainnet => "rill",
            Network::Testnet => "trill",
        }
    }

    /// The network named by a human-readable prefix.
    pub fn from_hrp(hrp: &str) -> (r: Result<Self, AddressError>)
        ensures
            spec_network_of(hrp@) matches Some(n) ==> r == Ok::<Network, AddressError>(n),
            spec_network_of(hrp@) is None ==> (r matches Err(AddressError::UnknownNetwork(s)) && s@
                == hrp@),
    {
        if str_eq(hrp, "rill") {
            Ok(Network::Mainnet)
        } else if str_eq(hrp, "trill") {
            Ok(Network::Testnet)
        } else {
            Err(AddressError::UnknownNetwork(hrp.to_owned()))
        }
    }
}

/// One step of the Bech32 checksum: shift in a 5-bit value and reduce by
/// the generator.
pub open spec fn polymod_step(chk: u32, v: u8) -> u32 {
    let b = chk >> 25u32;
    let c0 = ((chk & 0x1ffffffu32) << 5u32) ^ (v as u32);
    let c1 = if b & 1u32 != 0 { c0 ^ 0x3b6a57b2u32 } else { c0 };
    let c2 = if (b >> 1u32) & 1u32 != 0 { c1 ^ 0x26508e6du32 } else { c1 };
    let c3 = if (b >> 2u32) & 1u32 != 0 { c2 ^ 0x1ea119fau32 } else { c2 };
    let c4 = if (b >> 3u32) & 1u32 != 0 { c3 ^ 0x3d4233ddu32 } else { c3 };
    if (b >> 4u32) & 1u32 != 0 {
        c4 ^ 0x2a1462b3u32
    } else {
        c4
    }
}

/// The Bech32 checksum polynomial of a sequence of 5-bit values.
pub open spec fn polymod(values: Seq<u8>) -> u32
    decreases values.len(),
{
    if values.len() == 0 {
        1
    } else {
        polymod_step(polymod(values.drop_last()), values.last())
    }
}

/// The prefix bytes expanded for the checksum: high bits, a zero, low bits.
pub open spec fn hrp_expand(h: Seq<u8>) -> Seq<u8> {
    h.map_values(|c: u8| c >> 5u8) + seq![0u8] + h.map_values(|c: u8| c & 31u8)
}

/// The expansion splits each prefix byte in two: it holds `2 * len + 1`
/// values; value `i` and value `len + 1 + i` are the high part (below 8) and
/// the low five bits of byte `i` (`high * 32 + low == byte`), and a zero
/// separates the two halves.
pub proof fn lemma_hrp_expand_splits(h: Seq<u8>)
    ensures
        hrp_expand(h).len() == 2 * h.len() + 1,
        hrp_expand(h)[h.len() as int] == 0,
        forall|i: int|
            0 <= i < h.len() ==> {
                &&& #[trigger] hrp_expand(h)[i] < 8
                &&& hrp_expand(h)[h.len() + 1 + i] < 32
                &&& hrp_expand(h)[i] * 32 + hrp_expand(h)[h.len() + 1 + i] == h[i]
            },
{
    vstd::arithmetic::power2::lemma2_to64();
    vstd::bits::lemma_low_bits_mask_values();
    let n = h.len() as int;
    assert forall|i: int| 0 <= i < n implies {
        &&& #[trigger] hrp_expand(h)[i] < 8
        &&& hrp_expand(h)[n + 1 + i] < 32
        &&& hrp_expand(h)[i] * 32 + hrp_expand(h)[n + 1 + i] == h[i]
    } by {
        let c = h[i];
        vstd::bits::lemma_u8_shr_is_div(c, 5u8);
        vstd::bits::lemma_u8_low_bits_mask_is_mod(c, 5);
        assert(hrp_expand(h)[i] == c >> 5u8);
        assert(hrp_expand(h)[n + 1 + i] == c & 31u8);
    }
}

/// The six checksum values of `data` under the prefix bytes `h`.
pub open spec fn checksum_values(h: Seq<u8>, data: Seq<u8>) -> Seq<u8> {
    let pm = polymod(hrp_expand(h) + data + seq![0u8, 0u8, 0u8, 0u8, 0u8, 0u8]) ^ BECH32M_CONST;
    Seq::new(6, |i: int| ((pm >> ((5 * (5 - i)) as u32)) & 31u32) as u8)
}

/// Whether `data` (ending in its checksum) carries a valid checksum under `h`.
pub open spec fn checksum_ok(h: Seq<u8>, data: Seq<u8>) -> bool {
    polymod(hrp_expand(h) + data) == BECH32M_CONST
}

/// One step of one checksum update.
fn polymod_update(chk: u32, v: u8) -> (r: u32)
    ensures
        r == polymod_step(chk, v),
{
    let b = chk >> 25u32;
    let mut c = ((chk & 0x1ffffffu32) << 5u32) ^ (v as u32);
    if b & 1u32 != 0 {
        c = c ^ 0x3b6a57b2u32;
    }
    if (b >> 1u32) & 1u32 != 0 {
        c = c ^ 0x26508e6du32;
    }
    if (b >> 2u32) & 1u32 != 0 {
        c = c ^ 0x1ea119fau32;
    }
    if (b >> 3u32) & 1u32 != 0 {
        c = c ^ 0x3d4233ddu32;
    }
    if (b >> 4u32) & 1u32 != 0 {
        c = c ^ 0x2a1462b3u32;
    }
    c
}

/// The Bech32 checksum polynomial of `values`.
pub fn bech32m_polymod(values: &[u8]) -> (r: u32)
    ensures
        r == polymod(values@),
{
    let mut chk: u32 = 1;
    let mut i: usize = 0;
    while i < values.len()
        invariant
            i <= values@.len(),
            chk == polymod(values@.take(i as int)),
        decreases values@.len() - i,
    {
        proof {
            assert(values@.take(i + 1).drop_last() =~= values@.take(i as int));
        }
        chk = polymod_update(chk, values[i]);
        i = i + 1;
    }
    assert(values@.take(values@.len() as int) =~= values@);
    chk
}

/// The prefix bytes expanded for the checksum.
pub fn bech32m_hrp_expand(hrp: &[u8]) -> (r: Vec<u8>)
    ensures
        r@ == hrp_expand(hrp@),
        r@.len() == 2 * hrp@.len() + 1,
        r@[hrp@.len() as int] == 0,
        forall|i: int|
            0 <= i < hrp@.len() ==> #[trigger] r@[i] < 8 && r@[hrp@.len() + 1 + i] < 32 && r@[i] * 32
                + r@[hrp@.len() + 1 + i] == hrp@[i],
{
    proof {
        lemma_hrp_expand_splits(hrp@);
    }
    let mut ret: Vec<u8> = Vec::new();
    let n = hrp.len();
    let mut i: usize = 0;
    while i < n
        invariant
            n == hrp@.len(),
            i <= n,
            ret@ == hrp@.take(i as int).map_values(|c: u8| c >> 5u8),
        decreases n - i,
    {
        ret.push(hrp[i] >> 5u8);
        proof {
            assert(ret@ =~= hrp@.take(i + 1).map_values(|c: u8| c >> 5u8));
        }
        i = i + 1;
    }
    ret.push(0);
    let ghost base = ret@;
    let mut j: usize = 0;
    while j < n
        invariant
            n == hrp@.len(),
            j <= n,
            ret@ == base + hrp@.take(j as int).map_values(|c: u8| c & 31u8),
        decreases n - j,
    {
        ret.push(hrp[j] & 31u8);
        proof {
            assert(ret@ =~= base + hrp@.take(j + 1).map_values(|c: u8| c & 31u8));
        }
        j = j + 1;
    }
    proof {
        assert(hrp@.take(n as int) =~= hrp@);
        assert(ret@ =~= hrp_expand(hrp@));
    }
    ret
}

fn extend(out: &mut Vec<u8>, b: &[u8])
    ensures
        final(out)@ == old(out)@ + b@,
{
    let mut i: usize = 0;
    while i < b.len()
        invariant
            i <= b@.len(),
            out@ == old(out)@ + b@.take(i as int),
        decreases b@.len() - i,
    {
        out.push(b[i]);
        proof {
            assert(out@ =~= old(out)@ + b@.take(i + 1));
        }
        i = i + 1;
    }
    assert(b@.take(b@.len() as int) =~= b@);
}

/// The six checksum values of `data` under the prefix bytes `hrp`.
fn create_checksum(hrp: &[u8], data: &[u8]) -> (r: Vec<u8>)
    ensures
        r@ == checksum_values(hrp@, data@),
{
    let mut values = bech32m_hrp_expand(hrp);
    extend(&mut values, data);
    let zeros: [u8; 6] = [0, 0, 0, 0, 0, 0];
    extend(&mut values, zeros.as_slice());
    proof {
        assert(zeros@ =~= seq![0u8, 0u8, 0u8, 0u8, 0u8, 0u8]);
    }
    let pm = bech32m_polymod(values.as_slice()) ^ BECH32M_CONST;
    let mut r: Vec<u8> = Vec::new();
    let mut i: u32 = 0;
    while i < 6
        invariant
            i <= 6,
            pm == polymod(hrp_expand(hrp@) + data@ + seq![0u8, 0u8, 0u8, 0u8, 0u8, 0u8]) ^ BECH32M_CONST,
            r@ == checksum_values(hrp@, data@).take(i as int),
        decreases 6 - i,
    {
        r.push(((pm >> (5 * (5 - i))) & 31u32) as u8);
        proof {
            assert(r@ =~= checksum_values(hrp@, data@).take(i + 1));
        }
        i = i + 1;
    }
    assert(checksum_values(hrp@, data@).take(6) =~= checksum_values(hrp@, data@));
    r
}

/// The six Bech32m checksum values of `data` under the prefix `hrp`.
pub fn bech32m_create_checksum(hrp: &str, data: &[u8]) -> (r: Vec<u8>)
    ensures
        r@ == checksum_values(hrp.spec_bytes(), data@),
{
    create_checksum(hrp.as_bytes(), data)
}

/// Whether `data`, ending in its checksum, carries a valid Bech32m checksum
/// under the prefix `hrp`.
pub fn bech32m_verify_checksum(hrp: &str, data: &[u8]) -> (r: bool)
    ensures
        r == checksum_ok(hrp.spec_bytes(), data@),
{
    verify_checksum(hrp.as_bytes(), data)
}

fn verify_checksum(hrp: &[u8], data: &[u8]) -> (r: bool)
    ensures
        r == checksum_ok(hrp@, data@),
{
    let mut values = bech32m_hrp_expand(hrp);
    extend(&mut values, data);
    bech32m_polymod(values.as_slice()) == BECH32M_CONST
}

/// The state of bit regrouping after some input: the accumulator, the
/// number of pending bits, the groups produced, and whether an input value
/// was too wide.
pub ghost struct Regroup {
    pub acc: u32,
    pub bits: u32,
    pub out: Seq<u8>,
    pub bad: bool,
}

/// Drain whole groups of `to` bits from the state.
pub open spec fn drain(st: Regroup, to: u32) -> Regroup
    decreases st.bits,
    when to >= 1
{
    if st.bits >= to {
        let bits = (st.bits - to) as u32;
        let maxv = ((1u32 << to) - 1) as u32;
        drain(Regroup { bits, out: st.out.push(((st.acc >> bits) & maxv) as u8), ..st }, to)
    } else {
        st
    }
}

/// Regroup the first `n` input values of `from` bits into groups of `to` bits.
pub open spec fn regroup(data: Seq<u8>, from: u32, to: u32, n: int) -> Regroup
    decreases n,
{
    if n <= 0 {
        Regroup { acc: 0, bits: 0, out: Seq::empty(), bad: false }
    } else {
        let st = regroup(data, from, to, n - 1);
        if st.bad {
            st
        } else {
            let v = data[n - 1] as u32;
            if v >> from != 0 {
                Regroup { bad: true, ..st }
            } else {
                drain(
                    Regroup { acc: (st.acc << from) | v, bits: (st.bits + from) as u32, ..st },
                    to,
                )
            }
        }
    }
}

/// Bit regrouping: `None` when a value is wider than `from` bits, or, without
/// padding, when a whole input value or nonzero bits are left over.
pub open spec fn spec_convert_bits(data: Seq<u8>, from: u32, to: u32, pad: bool) -> Option<Seq<u8>> {
    let st = regroup(data, from, to, data.len() as int);
    let maxv = ((1u32 << to) - 1) as u32;
    if st.bad {
        None
    } else if pad {
        if st.bits > 0 {
            Some(st.out.push(((st.acc << ((to - st.bits) as u32)) & maxv) as u8))
        } else {
            Some(st.out)
        }
    } else if st.bits >= from || ((st.acc << ((to - st.bits) as u32)) & maxv) != 0 {
        None
    } else {
        Some(st.out)
    }
}

proof fn lemma_drain_bits(st: Regroup, to: u32)
    requires
        to >= 1,
    ensures
        drain(st, to).bits < to || (st.bits < to && drain(st, to) == st),
        st.bits >= to ==> drain(st, to).bits < to,
        st.bits < to ==> drain(st, to) == st,
        drain(st, to).acc == st.acc,
        drain(st, to).bad == st.bad,
    decreases st.bits,
{
    if st.bits >= to {
        let bits = (st.bits - to) as u32;
        let maxv = ((1u32 << to) - 1) as u32;
        lemma_drain_bits(Regroup { bits, out: st.out.push(((st.acc >> bits) & maxv) as u8), ..st }, to);
    }
}

proof fn lemma_regroup_bits(data: Seq<u8>, from: u32, to: u32, n: int)
    requires
        1 <= to < 32,
        from < 32,
        0 <= n,
    ensures
        regroup(data, from, to, n).bits < to,
    decreases n,
{
    if n > 0 {
        lemma_regroup_bits(data, from, to, n - 1);
        let st = regroup(data, from, to, n - 1);
        if !st.bad {
            let v = data[n - 1] as u32;
            if v >> from == 0 {
                lemma_drain_bits(Regroup { acc: (st.acc << from) | v, bits: (st.bits + from) as u32, ..st }, to);
            }
        }
    }
}

/// Regroup values of `from` bits into values of `to` bits, big-endian,
/// padding the last group with zero bits when `pad` is set.
pub fn convert_bits(data: &[u8], from_bits: u32, to_bits: u32, pad: bool) -> (r: Option<Vec<u8>>)
    requires
        from_bits < 32,
        1 <= to_bits < 32,
    ensures
        match r {
            Some(v) => spec_convert_bits(data@, from_bits, to_bits, pad) == Some(v@),
            None => spec_convert_bits(data@, from_bits, to_bits, pad) is None,
        },
{
    let mut acc: u32 = 0;
    let mut bits: u32 = 0;
    let mut ret: Vec<u8> = Vec::new();
    proof {
        assert(1u32 << to_bits >= 1) by (bit_vector)
            requires
                to_bits < 32,
        ;
    }
    let maxv: u32 = (1u32 << to_bits) - 1;
    let n = data.len();
    let mut i: usize = 0;
    while i < n
        invariant
            n == data@.len(),
            i <= n,
            from_bits < 32,
            1 <= to_bits < 32,
            maxv == ((1u32 << to_bits) - 1) as u32,
            regroup(data@, from_bits, to_bits, i as int) == (Regroup {
                acc,
                bits,
                out: ret@,
                bad: false,
            }),
        decreases n - i,
    {
        proof {
            lemma_regroup_bits(data@, from_bits, to_bits, i as int);
        }
        assert(bits < to_bits);
        let v = data[i] as u32;
        if v >> from_bits != 0 {
            proof {
                lemma_regroup_bad(data@, from_bits, to_bits, i + 1, n as int);
            }
            return None;
        }
        acc = (acc << from_bits) | v;
        bits = bits + from_bits;
        let ghost st0 = Regroup { acc, bits, out: ret@, bad: false };
        while bits >= to_bits
            invariant
                1 <= to_bits < 32,
                from_bits < 32,
                bits < to_bits + from_bits,
                maxv == ((1u32 << to_bits) - 1) as u32,
                drain(st0, to_bits) == drain(Regroup { acc, bits, out: ret@, bad: false }, to_bits),
            decreases bits,
        {
            bits = bits - to_bits;
            ret.push(((acc >> bits) & maxv) as u8);
        }
        proof {
            assert(drain(Regroup { acc, bits, out: ret@, bad: false }, to_bits) == (Regroup {
                acc,
                bits,
                out: ret@,
                bad: false,
            }));
        }
        i = i + 1;
    }
    proof {
        lemma_regroup_bits(data@, from_bits, to_bits, n as int);
    }
    assert(bits < to_bits);
    if pad {
        if bits > 0 {
            ret.push(((acc << (to_bits - bits)) & maxv) as u8);
        }
    } else if bits >= from_bits || ((acc << (to_bits - bits)) & maxv) != 0 {
        return None;
    }
    Some(ret)
}

/// Once a value is too wide, regrouping stays failed.
proof fn lemma_regroup_bad(data: Seq<u8>, from: u32, to: u32, k: int, n: int)
    requires
        0 <= k <= n,
        regroup(data, from, to, k).bad,
    ensures
        regroup(data, from, to, n).bad,
    decreases n - k,
{
    if n > k {
        lemma_regroup_bad(data, from, to, k, n - 1);
    }
}

/// The number of UTF-8 bytes of a character sequence.
pub open spec fn utf8_len(cs: Seq<char>) -> nat {
    encode_utf8(cs).len()
}

/// The encoding of a concatenation is the concatenation of the encodings.
pub proof fn lemma_encode_utf8_concat(a: Seq<char>, b: Seq<char>)
    ensures
        encode_utf8(a + b) == encode_utf8(a) + encode_utf8(b),
    decreases a.len(),
{
    if a.len() == 0 {
        assert(a + b =~= b);
    } else {
        lemma_encode_utf8_concat(a.drop_first(), b);
        assert((a + b).drop_first() =~= a.drop_first() + b);
        assert((a + b)[0] == a[0]);
    }
}

/// The encoding of one more character appends that character's encoding.
pub proof fn lemma_encode_utf8_push(a: Seq<char>, c: char)
    ensures
        encode_utf8(a.push(c)) == encode_utf8(a) + encode_scalar(c as u32),
{
    lemma_encode_utf8_concat(a, seq![c]);
    assert(a + seq![c] =~= a.push(c));
    assert(seq![c].drop_first() =~= Seq::<char>::empty());
    assert(encode_utf8(Seq::<char>::empty()) =~= Seq::<u8>::empty());
    assert(encode_utf8(seq![c]) =~= encode_scalar(c as u32));
}

/// Append the UTF-8 encoding of a character.
fn push_utf8(out: &mut Vec<u8>, c: char)
    ensures
        final(out)@ == old(out)@ + encode_scalar(c as u32),
{
    let v = c as u32;
    if v <= 0x7F {
        out.push((v & 0x7F) as u8);
    } else if v <= 0x7FF {
        out.push(0xC0 | ((v >> 6) & 0x1F) as u8);
        out.push(0x80 | (v & 0x3F) as u8);
    } else if v <= 0xFFFF {
        out.push(0xE0 | ((v >> 12) & 0x0F) as u8);
        out.push(0x80 | ((v >> 6) & 0x3F) as u8);
        out.push(0x80 | (v & 0x3F) as u8);
    } else {
        out.push(0xF0 | ((v >> 18) & 0x7) as u8);
        out.push(0x80 | ((v >> 12) & 0x3F) as u8);
        out.push(0x80 | ((v >> 6) & 0x3F) as u8);
        out.push(0x80 | (v & 0x3F) as u8);
    }
    proof {
        assert(!(0xD800 <= v <= 0xDFFF)) by {
            assert(c as u32 == v);
        }
    }
    assert(final(out)@ =~= old(out)@ + encode_scalar(v));
}

/// The number of UTF-8 bytes of a character.
fn utf8_width(c: char) -> (r: usize)
    ensures
        r == encode_scalar(c as u32).len(),
        1 <= r <= 4,
{
    let v = c as u32;
    if v <= 0x7F {
        1
    } else if v <= 0x7FF {
        2
    } else if v <= 0xFFFF {
        proof {
            assert(!(0xD800 <= v <= 0xDFFF)) by {
                assert(c as u32 == v);
            }
        }
        3
    } else {
        4
    }
}

/// ASCII lower-casing of a character.
pub open spec fn lower_char(c: char) -> char {
    if 'A' <= c <= 'Z' {
        ((c as u32) + 32) as char
    } else {
        c
    }
}

/// Whether a character is an ASCII lower-case letter.
pub open spec fn is_lower(c: char) -> bool {
    'a' <= c <= 'z'
}

/// Whether a character is an ASCII upper-case letter.
pub open spec fn is_upper(c: char) -> bool {
    'A' <= c <= 'Z'
}

/// The index of the last `'1'` among the first `n` characters, if any.
pub open spec fn last_separator(cs: Seq<char>, n: int) -> Option<int>
    decreases n,
{
    if n <= 0 {
        None
    } else if cs[n - 1] == '1' {
        Some(n - 1)
    } else {
        last_separator(cs, n - 1)
    }
}

/// The 5-bit value of a Bech32 character, searching the alphabet from `i` on.
pub open spec fn charset_pos(c: char, i: int) -> Option<u8>
    decreases 32 - i,
{
    if i < 0 || i >= 32 {
        None
    } else if CHARSET@[i] as u32 == c as u32 {
        Some(i as u8)
    } else {
        charset_pos(c, i + 1)
    }
}

/// The 5-bit value of a Bech32 character, if it is one.
pub open spec fn charset_value(c: char) -> Option<u8> {
    charset_pos(c, 0)
}

/// The first character, among `cs`, that is not a Bech32 character.
pub open spec fn first_non_charset(cs: Seq<char>, n: int) -> Option<char>
    decreases n,
{
    if n <= 0 {
        None
    } else {
        match first_non_charset(cs, n - 1) {
            Some(c) => Some(c),
            None => if charset_value(cs[n - 1]) is None {
                Some(cs[n - 1])
            } else {
                None
            },
        }
    }
}

/// The 5-bit values of Bech32 characters.
pub open spec fn charset_values(cs: Seq<char>) -> Seq<u8> {
    cs.map_values(|c: char| charset_value(c)->0)
}

/// The Bech32 character of a 5-bit value.
pub open spec fn charset_char(v: u8) -> char {
    CHARSET@[v as int] as char
}

/// An address as a mathematical value.
pub ghost struct AddressModel {
    pub network: Network,
    pub version: u8,
    pub pubkey_hash: Seq<u8>,
}

/// The outcome of decoding the characters of a string.
pub open spec fn spec_decode(s: Seq<char>) -> Result<AddressModel, AddrErr> {
    let lc = s.map_values(|c: char| lower_char(c));
    if (exists|i: int| 0 <= i < s.len() && is_lower(#[trigger] s[i])) && (exists|i: int|
        0 <= i < s.len() && is_upper(#[trigger] s[i])) {
        Err(AddrErr::MixedCase)
    } else {
        match last_separator(lc, lc.len() as int) {
            None => Err(AddrErr::MissingSeparator),
            Some(j) => {
                let hrp = lc.take(j);
                let data = lc.skip(j + 1);
                if j == 0 {
                    Err(AddrErr::InvalidHrp)
                } else if utf8_len(hrp) + 8 > utf8_len(lc) {
                    Err(AddrErr::InvalidLength)
                } else if let Some(c) = first_non_charset(data, data.len() as int) {
                    Err(AddrErr::InvalidCharacter(c))
                } else {
                    let vals = charset_values(data);
                    if !checksum_ok(encode_utf8(hrp), vals) {
                        Err(AddrErr::InvalidChecksum)
                    } else {
                        let payload = vals.take(vals.len() - 6);
                        if payload.len() == 0 {
                            Err(AddrErr::InvalidLength)
                        } else if payload[0] != ADDRESS_VERSION {
                            Err(AddrErr::InvalidVersion(payload[0]))
                        } else {
                            match spec_convert_bits(payload.skip(1), 5, 8, false) {
                                None => Err(AddrErr::InvalidPadding),
                                Some(hash) => if hash.len() != 32 {
                                    Err(AddrErr::InvalidLength)
                                } else {
                                    match spec_network_of(hrp) {
                                        None => Err(AddrErr::UnknownNetwork(hrp)),
                                        Some(network) => Ok(
                                            AddressModel {
                                                network,
                                                version: payload[0],
                                                pubkey_hash: hash,
                                            },
                                        ),
                                    }
                                },
                            }
                        }
                    }
                }
            },
        }
    }
}

/// The 5-bit payload of an address: the version, then the hash regrouped.
pub open spec fn spec_payload(a: AddressModel) -> Seq<u8> {
    seq![a.version] + spec_convert_bits(a.pubkey_hash, 8, 5, true)->0
}

/// The characters of an address's encoding.
pub open spec fn spec_encode(a: AddressModel) -> Seq<char> {
    let payload = spec_payload(a);
    let chk = checksum_values(encode_utf8(spec_hrp(a.network)), payload);
    spec_hrp(a.network) + seq!['1'] + (payload + chk).map_values(|v: u8| charset_char(v))
}

/// A network address: a version byte and a pubkey hash.
#[derive(Clone, Copy, Debug, PartialEq, Eq, Hash)]
pub struct Address {
    network: Network,
    version: u8,
    pubkey_hash: Hash256,
}

impl Address {
    /// Every address carries the current version.
    #[verifier::type_invariant]
    spec fn inv(self) -> bool {
        self.version == ADDRESS_VERSION
    }
}

impl View for Address {
    type V = AddressModel;

    closed spec fn view(&self) -> AddressModel {
        AddressModel { network: self.network, version: self.version, pubkey_hash: self.pubkey_hash@ }
    }
}

/// The characters of a string slice, one by one.
pub(crate) fn str_chars(s: &str) -> (r: Vec<char>)
    ensures
        r@ == s@,
{
    let n = s.unicode_len();
    let mut v: Vec<char> = Vec::new();
    let mut i: usize = 0;
    while i < n
        invariant
            n == s@.len(),
            i <= n,
            v@ == s@.take(i as int),
        decreases n - i,
    {
        v.push(s.get_char(i));
        proof {
            assert(v@ =~= s@.take(i + 1));
        }
        i = i + 1;
    }
    assert(s@.take(n as int) =~= s@);
    v
}

/// The 5-bit value of a Bech32 character.
fn charset_lookup(c: char) -> (r: Option<u8>)
    ensures
        r == charset_value(c),
{
    let mut i: usize = 0;
    while i < 32
        invariant
            i <= 32,
            charset_pos(c, 0) == charset_pos(c, i as int),
        decreases 32 - i,
    {
        if CHARSET[i] as u32 == c as u32 {
            return Some(i as u8);
        }
        i = i + 1;
    }
    None
}

impl Address {
    /// The address of a pubkey hash on a network, at the current version.
    pub fn from_pubkey_hash(pubkey_hash: Hash256, network: Network) -> (r: Self)
        ensures
            r@ == (AddressModel { network, version: ADDRESS_VERSION, pubkey_hash: pubkey_hash@ }),
    {
        Address { network, version: ADDRESS_VERSION, pubkey_hash }
    }

    /// The address of a public key on a network.
    pub fn from_public_key(public_key: &PublicKey, network: Network) -> (r: Self)
        ensures
            r@ == (AddressModel {
                network,
                version: ADDRESS_VERSION,
                pubkey_hash: blake3_digest(public_key@),
            }),
    {
        Self::from_pubkey_hash(public_key.pubkey_hash(), network)
    }

    /// The pubkey hash of this address.
    pub fn pubkey_hash(&self) -> (r: Hash256)
        ensures
            r@ == self@.pubkey_hash,
    {
        self.pubkey_hash
    }

    /// The network of this address.
    pub fn network(&self) -> (r: Network)
        ensures
            r == self@.network,
    {
        self.network
    }

    /// The version byte of this address.
    pub fn version(&self) -> (r: u8)
        ensures
            r == self@.version,
    {
        self.version
    }

    /// The Bech32m text of this address: prefix, `1`, the version and the
    /// regrouped hash as Bech32 characters, and the six checksum characters.
    pub fn encode(&self) -> (r: String)
        ensures
            r@ == spec_encode(self@),
    {
        let hrp = self.network.hrp();
        let data5 = match convert_bits(self.pubkey_hash.0.as_slice(), 8, 5, true) {
            Some(v) => v,
            None => {
                proof {
                    lemma_convert_8_to_5_total(self.pubkey_hash@);
                }
                Vec::new()
            },
        };
        proof {
            lemma_convert_8_to_5_total(self.pubkey_hash@);
        }
        let mut payload: Vec<u8> = Vec::new();
        payload.push(self.version);
        extend(&mut payload, data5.as_slice());
        assert(payload@ =~= spec_payload(self@));
        let checksum = create_checksum(hrp.as_bytes(), payload.as_slice());
        let mut out: Vec<char> = str_chars(hrp);
        out.push('1');
        let ghost base = out@;
        let ghost full = payload@ + checksum@;
        proof {
            use_type_invariant(self);
            lemma_checksum_values_small(hrp.spec_bytes(), payload@);
            lemma_charset_in_range(payload@, checksum@);
        }
        let mut i: usize = 0;
        while i < payload.len()
            invariant
                i <= payload@.len(),
                full == payload@ + checksum@,
                forall|k: int| 0 <= k < full.len() ==> full[k] < 32,
                out@ == base + full.take(i as int).map_values(|v: u8| charset_char(v)),
            decreases payload@.len() - i,
        {
            assert(payload@[i as int] == full[i as int]);
            out.push(CHARSET[payload[i] as usize] as char);
            proof {
                assert(full[i as int] == payload@[i as int]);
                assert(out@ =~= base + full.take(i + 1).map_values(|v: u8| charset_char(v)));
            }
            i = i + 1;
        }
        let mut k: usize = 0;
        while k < checksum.len()
            invariant
                k <= checksum@.len(),
                full == payload@ + checksum@,
                forall|q: int| 0 <= q < full.len() ==> full[q] < 32,
                out@ == base + full.take(payload@.len() + k).map_values(|v: u8| charset_char(v)),
            decreases checksum@.len() - k,
        {
            assert(checksum@[k as int] == full[payload@.len() + k]);
            out.push(CHARSET[checksum[k] as usize] as char);
            proof {
                assert(full[payload@.len() + k] == checksum@[k as int]);
                assert(out@ =~= base + full.take(payload@.len() + k + 1).map_values(
                    |v: u8| charset_char(v),
                ));
            }
            k = k + 1;
        }
        proof {
            assert(full.take((payload@.len() + checksum@.len()) as int) =~= full);
        }
        string_from_chars(out)
    }

    /// Decode a Bech32m address. Mixed case is refused; otherwise the text
    /// is read in lower case, split at its last `1` into prefix and data,
    /// and checked for length, alphabet, checksum, version, padding, hash
    /// length and network, in that order.
    pub fn decode(s: &str) -> (r: Result<Self, AddressError>)
        ensures
            match r {
                Ok(a) => spec_decode(s@) == Ok::<AddressModel, AddrErr>(a@),
                Err(e) => spec_decode(s@) == Err::<AddressModel, AddrErr>(e@),
            },
    {
        let ghost lcv = s@.map_values(|c: char| lower_char(c));
        let (lc, mixed) = lower_scan(s);
        if mixed {
            return Err(AddressError::MixedCase);
        }
        let j = match find_separator(&lc) {
            Some(j) => j,
            None => {
                return Err(AddressError::MissingSeparator);
            },
        };
        if j == 0 {
            return Err(AddressError::InvalidHrp);
        }
        let ghost hrp_v = lcv.take(j as int);
        let ghost data_v = lcv.skip(j + 1);
        let (hrp_chars, hrp_bytes) = prefix_of(&lc, j);
        let total = s.as_bytes().len();
        proof {
            lemma_lower_utf8_len(s@);
        }
        if hrp_bytes.len() > total || total - hrp_bytes.len() < 8 {
            return Err(AddressError::InvalidLength);
        }
        let vals = match data_values(&lc, j) {
            Ok(v) => v,
            Err(c) => {
                return Err(AddressError::InvalidCharacter(c));
            },
        };
        proof {
            lemma_charset_utf8_len(data_v);
            lemma_last_separator(lcv, lcv.len() as int);
            assert(lcv =~= hrp_v + seq!['1'] + data_v);
            lemma_encode_utf8_concat(hrp_v + seq!['1'], data_v);
            lemma_encode_utf8_concat(hrp_v, seq!['1']);
            assert(encode_utf8(seq!['1']).len() == 1) by {
                assert(seq!['1'].drop_first() =~= Seq::<char>::empty());
                assert(encode_utf8(Seq::<char>::empty()) =~= Seq::<u8>::empty());
                assert(('1' as u32) == 49);
                assert(encode_scalar(('1' as u32)).len() == 1);
            }
        }
        if !verify_checksum(hrp_bytes.as_slice(), vals.as_slice()) {
            return Err(AddressError::InvalidChecksum);
        }
        let vlen = vals.len();
        if vlen <= 6 {
            return Err(AddressError::InvalidLength);
        }
        let version = vals[0];
        if version != ADDRESS_VERSION {
            return Err(AddressError::InvalidVersion(version));
        }
        let rest = payload_body(&vals);
        let hash_bytes = match convert_bits(rest.as_slice(), 5, 8, false) {
            Some(h) => h,
            None => {
                return Err(AddressError::InvalidPadding);
            },
        };
        if hash_bytes.len() != 32 {
            return Err(AddressError::InvalidLength);
        }
        let hrp_string = string_from_chars(hrp_chars);
        let network = match Network::from_hrp(hrp_string.as_str()) {
            Ok(nw) => nw,
            Err(e) => {
                return Err(e);
            },
        };
        let hash = crate::crypto::array32_of(hash_bytes.as_slice());
        Ok(Address { network, version, pubkey_hash: Hash256(hash) })
    }
}

impl std::str::FromStr for Address {
    type Err = AddressError;

    fn from_str(s: &str) -> (r: Result<Self, Self::Err>)
        ensures
            match r {
                Ok(a) => spec_decode(s@) == Ok::<AddressModel, AddrErr>(a@),
                Err(e) => spec_decode(s@) == Err::<AddressModel, AddrErr>(e@),
            },
    {
        Address::decode(s)
    }
}

/// The characters of a string in ASCII lower case, and whether the string
/// mixes lower-case and upper-case ASCII letters.
fn lower_scan(s: &str) -> (r: (Vec<char>, bool))
    ensures
        r.0@ == s@.map_values(|c: char| lower_char(c)),
        r.1 == ((exists|i: int| 0 <= i < s@.len() && is_lower(#[trigger] s@[i])) && (exists|i: int|
            0 <= i < s@.len() && is_upper(#[trigger] s@[i]))),
{
    let cs = str_chars(s);
    let n = cs.len();
    let ghost lcv = s@.map_values(|c: char| lower_char(c));
    let mut has_lower = false;
    let mut has_upper = false;
    let mut lc: Vec<char> = Vec::new();
    let mut i: usize = 0;
    while i < n
        invariant
            n == s@.len(),
            cs@ == s@,
            i <= n,
            lc@ == lcv.take(i as int),
            lcv == s@.map_values(|c: char| lower_char(c)),
            has_lower == exists|k: int| 0 <= k < i && is_lower(#[trigger] s@[k]),
            has_upper == exists|k: int| 0 <= k < i && is_upper(#[trigger] s@[k]),
        decreases n - i,
    {
        let c = cs[i];
        if 'a' <= c && c <= 'z' {
            has_lower = true;
        }
        let l = if 'A' <= c && c <= 'Z' {
            ((c as u8) + 32) as char
        } else {
            c
        };
        if 'A' <= c && c <= 'Z' {
            has_upper = true;
        }
        lc.push(l);
        proof {
            assert(lc@ =~= lcv.take(i + 1));
        }
        i = i + 1;
    }
    proof {
        assert(lcv.take(n as int) =~= lcv);
    }
    (lc, has_lower && has_upper)
}

/// The index of the last `'1'`, if any.
fn find_separator(lc: &Vec<char>) -> (r: Option<usize>)
    ensures
        match r {
            Some(j) => last_separator(lc@, lc@.len() as int) == Some(j as int) && j < lc@.len(),
            None => last_separator(lc@, lc@.len() as int) is None,
        },
{
    let n = lc.len();
    let mut j: usize = n;
    while j > 0
        invariant
            n == lc@.len(),
            j <= n,
            last_separator(lc@, n as int) == last_separator(lc@, j as int),
        decreases j,
    {
        if lc[j - 1] == '1' {
            return Some(j - 1);
        }
        j = j - 1;
    }
    None
}

/// The separator found is a `'1'` within the prefix searched.
proof fn lemma_last_separator(cs: Seq<char>, n: int)
    requires
        0 <= n <= cs.len(),
    ensures
        last_separator(cs, n) matches Some(j) ==> 0 <= j < n && cs[j] == '1',
    decreases n,
{
    if n > 0 {
        lemma_last_separator(cs, n - 1);
    }
}

/// The first `j` characters, and their UTF-8 encoding.
fn prefix_of(lc: &Vec<char>, j: usize) -> (r: (Vec<char>, Vec<u8>))
    requires
        j <= lc@.len(),
    ensures
        r.0@ == lc@.take(j as int),
        r.1@ == encode_utf8(lc@.take(j as int)),
{
    let mut bytes: Vec<u8> = Vec::new();
    let mut chars: Vec<char> = Vec::new();
    let mut k: usize = 0;
    while k < j
        invariant
            j <= lc@.len(),
            k <= j,
            bytes@ == encode_utf8(lc@.take(k as int)),
            chars@ == lc@.take(k as int),
        decreases j - k,
    {
        push_utf8(&mut bytes, lc[k]);
        chars.push(lc[k]);
        proof {
            lemma_encode_utf8_push(lc@.take(k as int), lc@[k as int]);
            assert(lc@.take(k + 1) =~= lc@.take(k as int).push(lc@[k as int]));
        }
        k = k + 1;
    }
    (chars, bytes)
}

/// The 5-bit values of the characters after index `j`, or the first
/// character that is not a Bech32 character.
fn data_values(lc: &Vec<char>, j: usize) -> (r: Result<Vec<u8>, char>)
    requires
        j < lc@.len(),
    ensures
        match r {
            Ok(v) => first_non_charset(lc@.skip(j + 1), lc@.len() - j - 1) is None && v@
                == charset_values(lc@.skip(j + 1)),
            Err(c) => first_non_charset(lc@.skip(j + 1), lc@.len() - j - 1) == Some(c),
        },
{
    let n = lc.len();
    let ghost data_v = lc@.skip(j + 1);
    let mut vals: Vec<u8> = Vec::new();
    let mut d: usize = j + 1;
    while d < n
        invariant
            n == lc@.len(),
            j < n,
            j + 1 <= d <= n,
            data_v == lc@.skip(j + 1),
            first_non_charset(data_v, d - j - 1) is None,
            vals@ == charset_values(data_v.take(d - j - 1)),
        decreases n - d,
    {
        let c = lc[d];
        assert(data_v[d - j - 1] == c);
        match charset_lookup(c) {
            Some(v) => {
                vals.push(v);
                proof {
                    assert(data_v.take(d - j) =~= data_v.take(d - j - 1).push(c));
                    assert(vals@ =~= charset_values(data_v.take(d - j)));
                }
            },
            None => {
                proof {
                    assert(first_non_charset(data_v, d - j) == Some(c));
                    lemma_first_non_charset_stable(data_v, d - j, data_v.len() as int);
                }
                return Err(c);
            },
        }
        d = d + 1;
    }
    proof {
        assert(data_v.take(n - j - 1) =~= data_v);
    }
    Ok(vals)
}

/// The payload values between the version and the checksum.
fn payload_body(vals: &Vec<u8>) -> (r: Vec<u8>)
    requires
        vals@.len() > 6,
    ensures
        r@ == vals@.take(vals@.len() - 6).skip(1),
{
    let vlen = vals.len();
    let mut rest: Vec<u8> = Vec::new();
    let mut t: usize = 1;
    while t < vlen - 6
        invariant
            6 < vlen == vals@.len(),
            1 <= t <= vlen - 6,
            rest@ == vals@.take(vlen - 6).skip(1).take(t - 1),
        decreases vlen - 6 - t,
    {
        rest.push(vals[t]);
        proof {
            assert(rest@ =~= vals@.take(vlen - 6).skip(1).take(t as int));
        }
        t = t + 1;
    }
    proof {
        assert(vals@.take(vlen - 6).skip(1).take(vlen - 7) =~= vals@.take(vlen - 6).skip(1));
    }
    rest
}

/// Regrouping a byte string into 5-bit groups with padding never fails,
/// and every group is below 32.
pub proof fn lemma_convert_8_to_5_total(data: Seq<u8>)
    ensures
        spec_convert_bits(data, 8, 5, true) is Some,
        forall|k: int|
            0 <= k < (spec_convert_bits(data, 8, 5, true)->0).len() ==> (#[trigger] (spec_convert_bits(data, 8, 5, true)->0)[k]) < 32,
{
    lemma_regroup_8_to_5(data, data.len() as int);
    let st = regroup(data, 8, 5, data.len() as int);
    lemma_regroup_bits(data, 8, 5, data.len() as int);
    if st.bits > 0 {
        let acc = st.acc;
        let sh = (5 - st.bits) as u32;
        assert(((acc << sh) & 31u32) < 32) by (bit_vector);
        assert(((1u32 << 5u32) - 1) as u32 == 31u32) by (bit_vector);
    }
}

/// Regrouping bytes into 5-bit groups never meets a too-wide value, and
/// produces groups below 32.
proof fn lemma_regroup_8_to_5(data: Seq<u8>, n: int)
    requires
        0 <= n <= data.len(),
    ensures
        !regroup(data, 8, 5, n).bad,
        forall|k: int| 0 <= k < regroup(data, 8, 5, n).out.len() ==> #[trigger] regroup(data, 8, 5, n).out[k] < 32,
    decreases n,
{
    if n > 0 {
        lemma_regroup_8_to_5(data, n - 1);
        let st = regroup(data, 8, 5, n - 1);
        let v = data[n - 1] as u32;
        assert(v >> 8u32 == 0) by (bit_vector)
            requires
                v < 256,
        ;
        lemma_drain_small(Regroup { acc: (st.acc << 8u32) | v, bits: (st.bits + 8) as u32, ..st });
    }
}

/// Draining 5-bit groups produces values below 32.
proof fn lemma_drain_small(st: Regroup)
    requires
        forall|k: int| 0 <= k < st.out.len() ==> #[trigger] st.out[k] < 32,
    ensures
        forall|k: int| 0 <= k < drain(st, 5).out.len() ==> #[trigger] drain(st, 5).out[k] < 32,
        drain(st, 5).bad == st.bad,
    decreases st.bits,
{
    if st.bits >= 5 {
        let bits = (st.bits - 5) as u32;
        let acc = st.acc;
        assert(((1u32 << 5u32) - 1) as u32 == 31u32) by (bit_vector);
        assert(((acc >> bits) & 31u32) < 32) by (bit_vector);
        let next = Regroup { bits, out: st.out.push(((st.acc >> bits) & 31u32) as u8), ..st };
        lemma_drain_small(next);
    }
}

/// Bech32 characters take one UTF-8 byte each.
proof fn lemma_charset_utf8_len(cs: Seq<char>)
    requires
        first_non_charset(cs, cs.len() as int) is None,
    ensures
        utf8_len(cs) == cs.len(),
    decreases cs.len(),
{
    if cs.len() > 0 {
        lemma_first_none_prefix(cs, cs.len() as int);
        assert(forall|k: int| 0 <= k < cs.drop_first().len() ==> cs.drop_first()[k] == cs[k + 1]);
        lemma_first_none_all(cs.drop_first(), cs);
        lemma_charset_utf8_len(cs.drop_first());
        assert(charset_value(cs[0]) is Some);
        lemma_charset_ascii(cs[0], 0);
    }
}

/// Without a non-Bech32 character in the first `n`, each of them is one.
proof fn lemma_first_none_prefix(cs: Seq<char>, n: int)
    requires
        0 <= n <= cs.len(),
        first_non_charset(cs, n) is None,
    ensures
        forall|k: int| 0 <= k < n ==> #[trigger] charset_value(cs[k]) is Some,
    decreases n,
{
    if n > 0 {
        lemma_first_none_prefix(cs, n - 1);
    }
}

/// A sequence of Bech32 characters has no first non-Bech32 character.
proof fn lemma_first_none_all(t: Seq<char>, cs: Seq<char>)
    requires
        t.len() + 1 == cs.len(),
        forall|k: int| 0 <= k < t.len() ==> t[k] == cs[k + 1],
        forall|k: int| 0 <= k < cs.len() ==> #[trigger] charset_value(cs[k]) is Some,
    ensures
        first_non_charset(t, t.len() as int) is None,
{
    lemma_first_none_from_all(t, t.len() as int);
}

proof fn lemma_first_none_from_all(t: Seq<char>, n: int)
    requires
        0 <= n <= t.len(),
        forall|k: int| 0 <= k < t.len() ==> #[trigger] charset_value(t[k]) is Some,
    ensures
        first_non_charset(t, n) is None,
    decreases n,
{
    if n > 0 {
        lemma_first_none_from_all(t, n - 1);
    }
}

/// A Bech32 character is ASCII.
proof fn lemma_charset_ascii(c: char, i: int)
    requires
        0 <= i,
        charset_pos(c, i) is Some,
    ensures
        (c as u32) < 128,
    decreases 32 - i,
{
    if i < 32 && CHARSET@[i] as u32 != c as u32 {
        lemma_charset_ascii(c, i + 1);
    } else {
        assert(CHARSET@ =~= seq![
            113u8, 112, 122, 114, 121, 57, 120, 56, 103, 102, 50, 116, 118, 100, 119, 48, 115, 51,
            106, 110, 53, 52, 107, 104, 99, 101, 54, 109, 117, 97, 55, 108,
        ]);
    }
}

/// ASCII lower-casing keeps the UTF-8 length.
proof fn lemma_lower_utf8_len(cs: Seq<char>)
    ensures
        utf8_len(cs.map_values(|c: char| lower_char(c))) == utf8_len(cs),
    decreases cs.len(),
{
    let lc = cs.map_values(|c: char| lower_char(c));
    if cs.len() > 0 {
        lemma_lower_utf8_len(cs.drop_first());
        assert(lc.drop_first() =~= cs.drop_first().map_values(|c: char| lower_char(c)));
        let c = cs[0];
        if 'A' <= c <= 'Z' {
            assert(has_width_1_encoding(lower_char(c) as u32));
        }
    }
}

/// Once a non-Bech32 character is found, longer prefixes report the same one.
proof fn lemma_first_non_charset_stable(cs: Seq<char>, k: int, n: int)
    requires
        0 <= k <= n,
        first_non_charset(cs, k) is Some,
    ensures
        first_non_charset(cs, n) == first_non_charset(cs, k),
    decreases n - k,
{
    if n > k {
        lemma_first_non_charset_stable(cs, k, n - 1);
    }
}

/// Checksum values are 5-bit values.
proof fn lemma_checksum_values_small(h: Seq<u8>, data: Seq<u8>)
    ensures
        forall|k: int| 0 <= k < 6 ==> #[trigger] checksum_values(h, data)[k] < 32,
{
    let pm = polymod(hrp_expand(h) + data + seq![0u8, 0u8, 0u8, 0u8, 0u8, 0u8]) ^ BECH32M_CONST;
    assert forall|k: int| 0 <= k < 6 implies #[trigger] checksum_values(h, data)[k] < 32 by {
        let sh = (5 * (5 - k)) as u32;
        assert(((pm >> sh) & 31u32) < 32) by (bit_vector);
    }
}

/// Every payload and checksum value of an encoding is a 5-bit value.
proof fn lemma_charset_in_range(payload: Seq<u8>, chk: Seq<u8>)
    requires
        forall|k: int| 0 <= k < payload.len() ==> #[trigger] payload[k] < 32,
        forall|k: int| 0 <= k < chk.len() ==> #[trigger] chk[k] < 32,
    ensures
        forall|k: int| 0 <= k < (payload + chk).len() ==> #[trigger] (payload + chk)[k] < 32,
{
}

} // verus!
