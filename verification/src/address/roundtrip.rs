//! Decoding an encoded address gives the address back.

use vstd::prelude::*;

use crate::address::{
    charset_char, charset_pos, charset_value, charset_values, checksum_ok, checksum_values, drain,
    hrp_expand, is_lower, is_upper, last_separator, lemma_checksum_values_small,
    lemma_convert_8_to_5_total, lemma_encode_utf8_concat, lemma_first_none_from_all, lower_char,
    polymod, polymod_step, regroup, spec_convert_bits, spec_decode, spec_encode, spec_hrp,
    spec_network_of, spec_payload, utf8_len, AddressModel, Regroup, ADDRESS_VERSION,
    BECH32M_CONST, CHARSET,
};
use crate::error::AddrErr;
use vstd::utf8::encode_utf8;

verus! {

/// Shifting in a 5-bit value is shifting in zero, then xoring the value in.
proof fn lemma_step_xor(c: u32, v: u8)
    by (bit_vector)
    requires
        v < 32,
    ensures
        polymod_step(c, v) == polymod_step(c, 0u8) ^ (v as u32),
{
}

/// A checksum step that shifts in zero is linear over xor.
proof fn lemma_step_linear(x: u32, y: u32)
    by (bit_vector)
    ensures
        polymod_step(x ^ y, 0u8) == polymod_step(x, 0u8) ^ polymod_step(y, 0u8),
{
}

/// Below 2^25 nothing is reduced: the step is a shift by five.
proof fn lemma_step_small(x: u32)
    by (bit_vector)
    requires
        x < 0x2000000u32,
    ensures
        polymod_step(x, 0u8) == x << 5u32,
{
}

/// A checksum state stays below 2^30.
proof fn lemma_step_range(x: u32)
    by (bit_vector)
    ensures
        polymod_step(x, 0u8) < 0x40000000u32,
{
}

/// Six 5-bit groups of a value below 2^30, shifted back together, give the
/// value.
proof fn lemma_groups_rejoin(pm: u32)
    by (bit_vector)
    requires
        pm < 0x40000000u32,
    ensures
        ((((((((((((pm >> 25u32) & 31u32) << 5u32) ^ ((pm >> 20u32) & 31u32)) << 5u32) ^ ((pm
            >> 15u32) & 31u32)) << 5u32) ^ ((pm >> 10u32) & 31u32)) << 5u32) ^ ((pm >> 5u32)
            & 31u32)) << 5u32) ^ (pm & 31u32)) == pm,
{
}

proof fn lemma_polymod_push(t: Seq<u8>, v: u8)
    ensures
        polymod(t.push(v)) == polymod_step(polymod(t), v),
{
    assert(t.push(v).drop_last() =~= t);
}

/// One more group: if `s == a ^ e` with `e` below 2^25, shifting in the
/// 5-bit `v` gives `g(a) ^ ((e << 5) ^ v)`.
proof fn lemma_step_split(a: u32, e: u32, v: u8)
    requires
        e < 0x2000000u32,
        v < 32,
    ensures
        polymod_step(a ^ e, v) == polymod_step(a, 0u8) ^ ((e << 5u32) ^ (v as u32)),
{
    lemma_step_xor(a ^ e, v);
    lemma_step_linear(a, e);
    lemma_step_small(e);
    let ga = polymod_step(a, 0u8);
    let ge = polymod_step(e, 0u8);
    let vv = v as u32;
    assert((ga ^ ge) ^ vv == ga ^ (ge ^ vv)) by (bit_vector);
}

/// The checksum values computed for `data` make `data` followed by them
/// carry a valid checksum.
pub proof fn lemma_checksum_valid(h: Seq<u8>, data: Seq<u8>)
    ensures
        checksum_ok(h, data + checksum_values(h, data)),
{
    let s = hrp_expand(h) + data;
    let c = polymod(s);
    let z = seq![0u8, 0u8, 0u8, 0u8, 0u8, 0u8];
    assert(hrp_expand(h) + data + z =~= s.push(0u8).push(0u8).push(0u8).push(0u8).push(0u8).push(
        0u8,
    ));
    lemma_polymod_push(s, 0u8);
    lemma_polymod_push(s.push(0u8), 0u8);
    lemma_polymod_push(s.push(0u8).push(0u8), 0u8);
    lemma_polymod_push(s.push(0u8).push(0u8).push(0u8), 0u8);
    lemma_polymod_push(s.push(0u8).push(0u8).push(0u8).push(0u8), 0u8);
    lemma_polymod_push(s.push(0u8).push(0u8).push(0u8).push(0u8).push(0u8), 0u8);
    let a1 = polymod_step(c, 0u8);
    let a2 = polymod_step(a1, 0u8);
    let a3 = polymod_step(a2, 0u8);
    let a4 = polymod_step(a3, 0u8);
    let a5 = polymod_step(a4, 0u8);
    let a6 = polymod_step(a5, 0u8);
    lemma_step_range(a5);
    let pm = a6 ^ BECH32M_CONST;
    assert(pm < 0x40000000u32) by (bit_vector)
        requires
            a6 < 0x40000000u32,
            pm == a6 ^ 0x2bc830a3u32,
    ;
    let chk = checksum_values(h, data);
    let c0 = ((pm >> 25u32) & 31u32);
    let c1 = ((pm >> 20u32) & 31u32);
    let c2 = ((pm >> 15u32) & 31u32);
    let c3 = ((pm >> 10u32) & 31u32);
    let c4 = ((pm >> 5u32) & 31u32);
    let c5 = (pm & 31u32);
    assert(chk[0] as u32 == c0 && chk[1] as u32 == c1 && chk[2] as u32 == c2 && chk[3] as u32 == c3
        && chk[4] as u32 == c4 && chk[5] as u32 == c5) by {
        assert(forall|x: u32| #![auto] ((x & 31u32) as u8) as u32 == x & 31u32) by (bit_vector);
        assert(pm >> 0u32 == pm) by (bit_vector);
    }
    assert(chk[0] < 32 && chk[1] < 32 && chk[2] < 32 && chk[3] < 32 && chk[4] < 32 && chk[5] < 32)
        by {
        assert(forall|x: u32| #![auto] (x & 31u32) < 32) by (bit_vector);
    }
    assert(hrp_expand(h) + (data + chk) =~= s.push(chk[0]).push(chk[1]).push(chk[2]).push(
        chk[3],
    ).push(chk[4]).push(chk[5]));
    let t0 = s;
    let t1 = t0.push(chk[0]);
    let t2 = t1.push(chk[1]);
    let t3 = t2.push(chk[2]);
    let t4 = t3.push(chk[3]);
    let t5 = t4.push(chk[4]);
    let t6 = t5.push(chk[5]);
    lemma_polymod_push(t0, chk[0]);
    lemma_polymod_push(t1, chk[1]);
    lemma_polymod_push(t2, chk[2]);
    lemma_polymod_push(t3, chk[3]);
    lemma_polymod_push(t4, chk[4]);
    lemma_polymod_push(t5, chk[5]);
    let e1 = c0;
    assert(c == c ^ 0u32) by (bit_vector);
    lemma_step_split(c, 0u32, chk[0]);
    assert((0u32 << 5u32) ^ c0 == c0) by (bit_vector);
    let e2 = (e1 << 5u32) ^ c1;
    let e3 = (e2 << 5u32) ^ c2;
    let e4 = (e3 << 5u32) ^ c3;
    let e5 = (e4 << 5u32) ^ c4;
    let e6 = (e5 << 5u32) ^ c5;
    assert(e1 < 0x2000000u32 && e2 < 0x2000000u32 && e3 < 0x2000000u32 && e4 < 0x2000000u32 && e5
        < 0x2000000u32) by (bit_vector)
        requires
            c0 < 32 && c1 < 32 && c2 < 32 && c3 < 32 && c4 < 32,
            e1 == c0,
            e2 == (e1 << 5u32) ^ c1,
            e3 == (e2 << 5u32) ^ c2,
            e4 == (e3 << 5u32) ^ c3,
            e5 == (e4 << 5u32) ^ c4,
    ;
    lemma_step_split(a1, e1, chk[1]);
    lemma_step_split(a2, e2, chk[2]);
    lemma_step_split(a3, e3, chk[3]);
    lemma_step_split(a4, e4, chk[4]);
    lemma_step_split(a5, e5, chk[5]);
    assert(polymod(t6) == a6 ^ e6);
    lemma_groups_rejoin(pm);
    assert(e6 == pm);
    assert(a6 ^ pm == BECH32M_CONST) by (bit_vector)
        requires
            pm == a6 ^ 0x2bc830a3u32,
    ;
}


/// The eight 5-bit groups of five bytes, most significant bits first.
pub open spec fn enc_block(b0: u8, b1: u8, b2: u8, b3: u8, b4: u8) -> Seq<u8> {
    let x0 = b0 as u32;
    let x1 = b1 as u32;
    let x2 = b2 as u32;
    let x3 = b3 as u32;
    let x4 = b4 as u32;
    seq![
        (x0 >> 3u32) as u8,
        (((x0 & 7u32) << 2u32) | (x1 >> 6u32)) as u8,
        ((x1 >> 1u32) & 31u32) as u8,
        (((x1 & 1u32) << 4u32) | (x2 >> 4u32)) as u8,
        (((x2 & 15u32) << 1u32) | (x3 >> 7u32)) as u8,
        ((x3 >> 2u32) & 31u32) as u8,
        (((x3 & 3u32) << 3u32) | (x4 >> 5u32)) as u8,
        (x4 & 31u32) as u8,
    ]
}

/// The four 5-bit groups of the last two bytes of a 32-byte string, the
/// last one padded with zero bits.
pub open spec fn enc_tail(b0: u8, b1: u8) -> Seq<u8> {
    let x0 = b0 as u32;
    let x1 = b1 as u32;
    seq![
        (x0 >> 3u32) as u8,
        (((x0 & 7u32) << 2u32) | (x1 >> 6u32)) as u8,
        ((x1 >> 1u32) & 31u32) as u8,
        ((x1 & 1u32) << 4u32) as u8,
    ]
}

/// The groups of the first `k` five-byte blocks of `data`.
pub open spec fn enc_blocks(data: Seq<u8>, k: nat) -> Seq<u8>
    decreases k,
{
    if k == 0 {
        Seq::empty()
    } else {
        let i = 5 * (k - 1);
        enc_blocks(data, (k - 1) as nat) + enc_block(data[i], data[i + 1], data[i + 2], data[i + 3], data[i + 4])
    }
}

proof fn lemma_enc_block(data: Seq<u8>, n: int)
    requires
        0 <= n,
        n + 5 <= data.len(),
        regroup(data, 8, 5, n).bits == 0,
        !regroup(data, 8, 5, n).bad,
    ensures
        regroup(data, 8, 5, n + 5).bits == 0,
        !regroup(data, 8, 5, n + 5).bad,
        regroup(data, 8, 5, n + 5).out == regroup(data, 8, 5, n).out + enc_block(
            data[n],
            data[n + 1],
            data[n + 2],
            data[n + 3],
            data[n + 4],
        ),
{
    reveal_with_fuel(drain, 3);
    let st0 = regroup(data, 8, 5, n);
    let a = st0.acc;
    let v0 = data[n] as u32;
    let v1 = data[n + 1] as u32;
    let v2 = data[n + 2] as u32;
    let v3 = data[n + 3] as u32;
    let v4 = data[n + 4] as u32;
    let acc1 = (a << 8u32) | v0;
    let acc2 = (acc1 << 8u32) | v1;
    let acc3 = (acc2 << 8u32) | v2;
    let acc4 = (acc3 << 8u32) | v3;
    let acc5 = (acc4 << 8u32) | v4;
    assert(((1u32 << 5u32) - 1) as u32 == 31u32) by (bit_vector);
    assert(v0 >> 8u32 == 0 && v1 >> 8u32 == 0 && v2 >> 8u32 == 0 && v3 >> 8u32 == 0 && v4 >> 8u32
        == 0) by (bit_vector)
        requires
            v0 < 256 && v1 < 256 && v2 < 256 && v3 < 256 && v4 < 256,
    ;
    let o = st0.out;
    let o1 = o.push(((acc1 >> 3u32) & 31u32) as u8);
    let o2 = o1.push(((acc2 >> 6u32) & 31u32) as u8).push(((acc2 >> 1u32) & 31u32) as u8);
    let o3 = o2.push(((acc3 >> 4u32) & 31u32) as u8);
    let o4 = o3.push(((acc4 >> 7u32) & 31u32) as u8).push(((acc4 >> 2u32) & 31u32) as u8);
    let o5 = o4.push(((acc5 >> 5u32) & 31u32) as u8).push(((acc5 >> 0u32) & 31u32) as u8);
    assert(regroup(data, 8, 5, n + 1) == Regroup { acc: acc1, bits: 3, out: o1, bad: false });
    assert(regroup(data, 8, 5, n + 2) == Regroup { acc: acc2, bits: 1, out: o2, bad: false });
    assert(regroup(data, 8, 5, n + 3) == Regroup { acc: acc3, bits: 4, out: o3, bad: false });
    assert(regroup(data, 8, 5, n + 4) == Regroup { acc: acc4, bits: 2, out: o4, bad: false });
    assert(regroup(data, 8, 5, n + 5) == Regroup { acc: acc5, bits: 0, out: o5, bad: false });
    assert(((acc1 >> 3u32) & 31u32) == (v0 >> 3u32) && ((acc2 >> 6u32) & 31u32) == (((v0 & 7u32)
        << 2u32) | (v1 >> 6u32)) && ((acc2 >> 1u32) & 31u32) == ((v1 >> 1u32) & 31u32) && ((acc3
        >> 4u32) & 31u32) == (((v1 & 1u32) << 4u32) | (v2 >> 4u32)) && ((acc4 >> 7u32) & 31u32)
        == (((v2 & 15u32) << 1u32) | (v3 >> 7u32)) && ((acc4 >> 2u32) & 31u32) == ((v3 >> 2u32)
        & 31u32) && ((acc5 >> 5u32) & 31u32) == (((v3 & 3u32) << 3u32) | (v4 >> 5u32)) && ((acc5
        >> 0u32) & 31u32) == (v4 & 31u32)) by (bit_vector)
        requires
            v0 < 256 && v1 < 256 && v2 < 256 && v3 < 256 && v4 < 256,
            acc1 == (a << 8u32) | v0,
            acc2 == (acc1 << 8u32) | v1,
            acc3 == (acc2 << 8u32) | v2,
            acc4 == (acc3 << 8u32) | v3,
            acc5 == (acc4 << 8u32) | v4,
    ;
    assert(o5 =~= o + enc_block(data[n], data[n + 1], data[n + 2], data[n + 3], data[n + 4]));
}


proof fn lemma_dec_block(vals: Seq<u8>, n: int, b0: u8, b1: u8, b2: u8, b3: u8, b4: u8)
    requires
        0 <= n,
        n + 8 <= vals.len(),
        vals.subrange(n, n + 8) == enc_block(b0, b1, b2, b3, b4),
        regroup(vals, 5, 8, n).bits == 0,
        !regroup(vals, 5, 8, n).bad,
    ensures
        regroup(vals, 5, 8, n + 8).bits == 0,
        !regroup(vals, 5, 8, n + 8).bad,
        regroup(vals, 5, 8, n + 8).out == regroup(vals, 5, 8, n).out + seq![b0, b1, b2, b3, b4],
{
    reveal_with_fuel(drain, 3);
    let st0 = regroup(vals, 5, 8, n);
    let a = st0.acc;
    let x0 = b0 as u32;
    let x1 = b1 as u32;
    let x2 = b2 as u32;
    let x3 = b3 as u32;
    let x4 = b4 as u32;
    let g0 = vals[n] as u32;
    let g1 = vals[n + 1] as u32;
    let g2 = vals[n + 2] as u32;
    let g3 = vals[n + 3] as u32;
    let g4 = vals[n + 4] as u32;
    let g5 = vals[n + 5] as u32;
    let g6 = vals[n + 6] as u32;
    let g7 = vals[n + 7] as u32;
    assert(vals[n] == vals.subrange(n, n + 8)[0]);
    assert(vals[n + 1] == vals.subrange(n, n + 8)[1]);
    assert(vals[n + 2] == vals.subrange(n, n + 8)[2]);
    assert(vals[n + 3] == vals.subrange(n, n + 8)[3]);
    assert(vals[n + 4] == vals.subrange(n, n + 8)[4]);
    assert(vals[n + 5] == vals.subrange(n, n + 8)[5]);
    assert(vals[n + 6] == vals.subrange(n, n + 8)[6]);
    assert(vals[n + 7] == vals.subrange(n, n + 8)[7]);
    assert(g0 == x0 >> 3u32 && g1 == ((x0 & 7u32) << 2u32) | (x1 >> 6u32) && g2 == (x1 >> 1u32)
        & 31u32 && g3 == ((x1 & 1u32) << 4u32) | (x2 >> 4u32) && g4 == ((x2 & 15u32) << 1u32) | (
    x3 >> 7u32) && g5 == (x3 >> 2u32) & 31u32 && g6 == ((x3 & 3u32) << 3u32) | (x4 >> 5u32) && g7
        == x4 & 31u32) by {
        assert(forall|y: u32| y < 256 ==> #[trigger] ((y as u8) as u32) == y) by (bit_vector);
        assert(forall|y: u32, z: u32|
            y < 256 && z < 256 ==> #[trigger] ((((y & 7u32) << 2u32) | (z >> 6u32)) as u8) as u32 == ((
            y & 7u32) << 2u32) | (z >> 6u32)) by (bit_vector);
        assert(x0 >> 3u32 < 256 && (x1 >> 1u32) & 31u32 < 256 && ((x1 & 1u32) << 4u32) | (x2
            >> 4u32) < 256 && ((x2 & 15u32) << 1u32) | (x3 >> 7u32) < 256 && (x3 >> 2u32) & 31u32
            < 256 && ((x3 & 3u32) << 3u32) | (x4 >> 5u32) < 256 && x4 & 31u32 < 256) by (bit_vector)
            requires
                x0 < 256 && x1 < 256 && x2 < 256 && x3 < 256 && x4 < 256,
        ;
    }
    let acc1 = (a << 5u32) | g0;
    let acc2 = (acc1 << 5u32) | g1;
    let acc3 = (acc2 << 5u32) | g2;
    let acc4 = (acc3 << 5u32) | g3;
    let acc5 = (acc4 << 5u32) | g4;
    let acc6 = (acc5 << 5u32) | g5;
    let acc7 = (acc6 << 5u32) | g6;
    let acc8 = (acc7 << 5u32) | g7;
    assert(((1u32 << 8u32) - 1) as u32 == 255u32) by (bit_vector);
    assert(g0 >> 5u32 == 0 && g1 >> 5u32 == 0 && g2 >> 5u32 == 0 && g3 >> 5u32 == 0 && g4 >> 5u32
        == 0 && g5 >> 5u32 == 0 && g6 >> 5u32 == 0 && g7 >> 5u32 == 0) by (bit_vector)
        requires
            x0 < 256 && x1 < 256 && x2 < 256 && x3 < 256 && x4 < 256,
            g0 == x0 >> 3u32,
            g1 == ((x0 & 7u32) << 2u32) | (x1 >> 6u32),
            g2 == (x1 >> 1u32) & 31u32,
            g3 == ((x1 & 1u32) << 4u32) | (x2 >> 4u32),
            g4 == ((x2 & 15u32) << 1u32) | (x3 >> 7u32),
            g5 == (x3 >> 2u32) & 31u32,
            g6 == ((x3 & 3u32) << 3u32) | (x4 >> 5u32),
            g7 == x4 & 31u32,
    ;
    let o = st0.out;
    let o2 = o.push(((acc2 >> 2u32) & 255u32) as u8);
    let o4 = o2.push(((acc4 >> 4u32) & 255u32) as u8);
    let o5 = o4.push(((acc5 >> 1u32) & 255u32) as u8);
    let o7 = o5.push(((acc7 >> 3u32) & 255u32) as u8);
    let o8 = o7.push(((acc8 >> 0u32) & 255u32) as u8);
    assert(regroup(vals, 5, 8, n + 1) == Regroup { acc: acc1, bits: 5, out: o, bad: false });
    assert(regroup(vals, 5, 8, n + 2) == Regroup { acc: acc2, bits: 2, out: o2, bad: false });
    assert(regroup(vals, 5, 8, n + 3) == Regroup { acc: acc3, bits: 7, out: o2, bad: false });
    assert(regroup(vals, 5, 8, n + 4) == Regroup { acc: acc4, bits: 4, out: o4, bad: false });
    assert(regroup(vals, 5, 8, n + 5) == Regroup { acc: acc5, bits: 1, out: o5, bad: false });
    assert(regroup(vals, 5, 8, n + 6) == Regroup { acc: acc6, bits: 6, out: o5, bad: false });
    assert(regroup(vals, 5, 8, n + 7) == Regroup { acc: acc7, bits: 3, out: o7, bad: false });
    assert(regroup(vals, 5, 8, n + 8) == Regroup { acc: acc8, bits: 0, out: o8, bad: false });
    assert(((acc2 >> 2u32) & 255u32) == x0 && ((acc4 >> 4u32) & 255u32) == x1 && ((acc5 >> 1u32)
        & 255u32) == x2 && ((acc7 >> 3u32) & 255u32) == x3 && ((acc8 >> 0u32) & 255u32) == x4)
        by (bit_vector)
        requires
            x0 < 256 && x1 < 256 && x2 < 256 && x3 < 256 && x4 < 256,
            g0 == x0 >> 3u32,
            g1 == ((x0 & 7u32) << 2u32) | (x1 >> 6u32),
            g2 == (x1 >> 1u32) & 31u32,
            g3 == ((x1 & 1u32) << 4u32) | (x2 >> 4u32),
            g4 == ((x2 & 15u32) << 1u32) | (x3 >> 7u32),
            g5 == (x3 >> 2u32) & 31u32,
            g6 == ((x3 & 3u32) << 3u32) | (x4 >> 5u32),
            g7 == x4 & 31u32,
            acc1 == (a << 5u32) | g0,
            acc2 == (acc1 << 5u32) | g1,
            acc3 == (acc2 << 5u32) | g2,
            acc4 == (acc3 << 5u32) | g3,
            acc5 == (acc4 << 5u32) | g4,
            acc6 == (acc5 << 5u32) | g5,
            acc7 == (acc6 << 5u32) | g6,
            acc8 == (acc7 << 5u32) | g7,
    ;
    assert(o8 =~= o + seq![b0, b1, b2, b3, b4]);
}


proof fn lemma_enc_tail(data: Seq<u8>)
    requires
        data.len() == 32,
        regroup(data, 8, 5, 30).bits == 0,
        !regroup(data, 8, 5, 30).bad,
    ensures
        spec_convert_bits(data, 8, 5, true) == Some(
            regroup(data, 8, 5, 30).out + enc_tail(data[30], data[31]),
        ),
{
    reveal_with_fuel(drain, 3);
    let st0 = regroup(data, 8, 5, 30);
    let a = st0.acc;
    let v0 = data[30] as u32;
    let v1 = data[31] as u32;
    let acc1 = (a << 8u32) | v0;
    let acc2 = (acc1 << 8u32) | v1;
    assert(((1u32 << 5u32) - 1) as u32 == 31u32) by (bit_vector);
    assert(v0 >> 8u32 == 0 && v1 >> 8u32 == 0) by (bit_vector)
        requires
            v0 < 256 && v1 < 256,
    ;
    let o = st0.out;
    let o1 = o.push(((acc1 >> 3u32) & 31u32) as u8);
    let o2 = o1.push(((acc2 >> 6u32) & 31u32) as u8).push(((acc2 >> 1u32) & 31u32) as u8);
    assert(regroup(data, 8, 5, 31) == Regroup { acc: acc1, bits: 3, out: o1, bad: false });
    assert(regroup(data, 8, 5, 32) == Regroup { acc: acc2, bits: 1, out: o2, bad: false });
    assert(((acc1 >> 3u32) & 31u32) == (v0 >> 3u32) && ((acc2 >> 6u32) & 31u32) == (((v0 & 7u32)
        << 2u32) | (v1 >> 6u32)) && ((acc2 >> 1u32) & 31u32) == ((v1 >> 1u32) & 31u32) && ((acc2
        << 4u32) & 31u32) == ((v1 & 1u32) << 4u32)) by (bit_vector)
        requires
            v0 < 256 && v1 < 256,
            acc1 == (a << 8u32) | v0,
            acc2 == (acc1 << 8u32) | v1,
    ;
    assert(o2.push(((acc2 << 4u32) & 31u32) as u8) =~= o + enc_tail(data[30], data[31]));
}

proof fn lemma_dec_tail(vals: Seq<u8>, b0: u8, b1: u8)
    requires
        vals.len() == 52,
        vals.subrange(48, 52) == enc_tail(b0, b1),
        regroup(vals, 5, 8, 48).bits == 0,
        !regroup(vals, 5, 8, 48).bad,
    ensures
        spec_convert_bits(vals, 5, 8, false) == Some(regroup(vals, 5, 8, 48).out + seq![b0, b1]),
{
    reveal_with_fuel(drain, 3);
    let st0 = regroup(vals, 5, 8, 48);
    let a = st0.acc;
    let x0 = b0 as u32;
    let x1 = b1 as u32;
    let g0 = vals[48] as u32;
    let g1 = vals[49] as u32;
    let g2 = vals[50] as u32;
    let g3 = vals[51] as u32;
    assert(vals[48] == vals.subrange(48, 52)[0]);
    assert(vals[49] == vals.subrange(48, 52)[1]);
    assert(vals[50] == vals.subrange(48, 52)[2]);
    assert(vals[51] == vals.subrange(48, 52)[3]);
    assert(g0 == x0 >> 3u32 && g1 == ((x0 & 7u32) << 2u32) | (x1 >> 6u32) && g2 == (x1 >> 1u32)
        & 31u32 && g3 == (x1 & 1u32) << 4u32) by {
        assert(forall|y: u32| y < 256 ==> #[trigger] ((y as u8) as u32) == y) by (bit_vector);
        assert(x0 >> 3u32 < 256 && ((x0 & 7u32) << 2u32) | (x1 >> 6u32) < 256 && (x1 >> 1u32)
            & 31u32 < 256 && (x1 & 1u32) << 4u32 < 256) by (bit_vector)
            requires
                x0 < 256 && x1 < 256,
        ;
    }
    let acc1 = (a << 5u32) | g0;
    let acc2 = (acc1 << 5u32) | g1;
    let acc3 = (acc2 << 5u32) | g2;
    let acc4 = (acc3 << 5u32) | g3;
    assert(((1u32 << 8u32) - 1) as u32 == 255u32) by (bit_vector);
    let o = st0.out;
    let o2 = o.push(((acc2 >> 2u32) & 255u32) as u8);
    let o4 = o2.push(((acc4 >> 4u32) & 255u32) as u8);
    assert(g0 >> 5u32 == 0 && g1 >> 5u32 == 0 && g2 >> 5u32 == 0 && g3 >> 5u32 == 0 && ((acc2
        >> 2u32) & 255u32) == x0 && ((acc4 >> 4u32) & 255u32) == x1 && ((acc4 << 4u32) & 255u32)
        == 0) by (bit_vector)
        requires
            x0 < 256 && x1 < 256,
            g0 == x0 >> 3u32,
            g1 == ((x0 & 7u32) << 2u32) | (x1 >> 6u32),
            g2 == (x1 >> 1u32) & 31u32,
            g3 == (x1 & 1u32) << 4u32,
            acc1 == (a << 5u32) | g0,
            acc2 == (acc1 << 5u32) | g1,
            acc3 == (acc2 << 5u32) | g2,
            acc4 == (acc3 << 5u32) | g3,
    ;
    assert(regroup(vals, 5, 8, 49) == Regroup { acc: acc1, bits: 5, out: o, bad: false });
    assert(regroup(vals, 5, 8, 50) == Regroup { acc: acc2, bits: 2, out: o2, bad: false });
    assert(regroup(vals, 5, 8, 51) == Regroup { acc: acc3, bits: 7, out: o2, bad: false });
    assert(regroup(vals, 5, 8, 52) == Regroup { acc: acc4, bits: 4, out: o4, bad: false });
    assert(o4 =~= o + seq![b0, b1]);
}

proof fn lemma_enc_blocks_len(data: Seq<u8>, k: nat)
    ensures
        enc_blocks(data, k).len() == 8 * k,
    decreases k,
{
    if k > 0 {
        lemma_enc_blocks_len(data, (k - 1) as nat);
    }
}

proof fn lemma_enc_blocks_sub(data: Seq<u8>, k: int, m: int)
    requires
        0 <= k < m,
    ensures
        enc_blocks(data, m as nat).subrange(8 * k, 8 * k + 8) == enc_block(
            data[5 * k],
            data[5 * k + 1],
            data[5 * k + 2],
            data[5 * k + 3],
            data[5 * k + 4],
        ),
    decreases m,
{
    lemma_enc_blocks_len(data, (m - 1) as nat);
    if k + 1 < m {
        lemma_enc_blocks_sub(data, k, m - 1);
        assert(enc_blocks(data, m as nat).subrange(8 * k, 8 * k + 8) =~= enc_blocks(
            data,
            (m - 1) as nat,
        ).subrange(8 * k, 8 * k + 8));
    } else {
        assert(enc_blocks(data, m as nat).subrange(8 * k, 8 * k + 8) =~= enc_block(
            data[5 * k],
            data[5 * k + 1],
            data[5 * k + 2],
            data[5 * k + 3],
            data[5 * k + 4],
        ));
    }
}

proof fn lemma_enc_prefix(data: Seq<u8>, k: int)
    requires
        data.len() == 32,
        0 <= k <= 6,
    ensures
        regroup(data, 8, 5, 5 * k).bits == 0,
        !regroup(data, 8, 5, 5 * k).bad,
        regroup(data, 8, 5, 5 * k).out == enc_blocks(data, k as nat),
    decreases k,
{
    if k > 0 {
        lemma_enc_prefix(data, k - 1);
        lemma_enc_block(data, 5 * (k - 1));
    }
}

proof fn lemma_dec_prefix(vals: Seq<u8>, data: Seq<u8>, k: int)
    requires
        data.len() == 32,
        vals == enc_blocks(data, 6) + enc_tail(data[30], data[31]),
        0 <= k <= 6,
    ensures
        regroup(vals, 5, 8, 8 * k).bits == 0,
        !regroup(vals, 5, 8, 8 * k).bad,
        regroup(vals, 5, 8, 8 * k).out == data.take(5 * k),
    decreases k,
{
    if k > 0 {
        let j = k - 1;
        lemma_dec_prefix(vals, data, j);
        lemma_enc_blocks_len(data, 6);
        lemma_enc_blocks_sub(data, j, 6);
        assert(vals.subrange(8 * j, 8 * j + 8) =~= enc_blocks(data, 6).subrange(8 * j, 8 * j + 8));
        lemma_dec_block(
            vals,
            8 * j,
            data[5 * j],
            data[5 * j + 1],
            data[5 * j + 2],
            data[5 * j + 3],
            data[5 * j + 4],
        );
        assert(data.take(5 * k) =~= data.take(5 * j) + seq![
            data[5 * j],
            data[5 * j + 1],
            data[5 * j + 2],
            data[5 * j + 3],
            data[5 * j + 4],
        ]);
    } else {
        assert(data.take(0) =~= Seq::<u8>::empty());
    }
}

/// Regrouping 32 bytes into 5-bit groups with padding, then back into bytes
/// without padding, gives the bytes back.
pub proof fn lemma_convert_bits_roundtrip(data: Seq<u8>)
    requires
        data.len() == 32,
    ensures
        spec_convert_bits(data, 8, 5, true) == Some(
            enc_blocks(data, 6) + enc_tail(data[30], data[31]),
        ),
        spec_convert_bits(spec_convert_bits(data, 8, 5, true)->0, 5, 8, false) == Some(data),
{
    lemma_enc_prefix(data, 6);
    lemma_enc_tail(data);
    let vals = enc_blocks(data, 6) + enc_tail(data[30], data[31]);
    lemma_enc_blocks_len(data, 6);
    lemma_dec_prefix(vals, data, 6);
    assert(vals.subrange(48, 52) =~= enc_tail(data[30], data[31]));
    lemma_dec_tail(vals, data[30], data[31]);
    assert(data.take(30) + seq![data[30], data[31]] =~= data);
}



/// The Bech32 alphabet as a sequence of bytes.
spec fn alphabet() -> Seq<u8> {
    seq![
        113u8, 112, 122, 114, 121, 57, 120, 56, 103, 102, 50, 116, 118, 100, 119, 48, 115, 51, 106,
        110, 53, 52, 107, 104, 99, 101, 54, 109, 117, 97, 55, 108,
    ]
}

/// Each Bech32 character is a digit other than `1` or a lower-case letter,
/// and reads back as its own value.
proof fn lemma_charset_char(v: u8)
    requires
        v < 32,
    ensures
        charset_value(charset_char(v)) == Some(v),
        (48 <= charset_char(v) as u32 <= 57 && charset_char(v) != '1') || (97 <= charset_char(v)
            as u32 <= 122),
{
    assert(CHARSET@ =~= alphabet());
    let a = alphabet();
    assert(forall|i: int, j: int| 0 <= i < j < 32 ==> a[i] != a[j]) by {
        assert forall|i: int, j: int| 0 <= i < j < 32 implies a[i] != a[j] by {
            assert(i == 0 || i == 1 || i == 2 || i == 3 || i == 4 || i == 5 || i == 6 || i == 7 || i
                == 8 || i == 9 || i == 10 || i == 11 || i == 12 || i == 13 || i == 14 || i == 15 || i
                == 16 || i == 17 || i == 18 || i == 19 || i == 20 || i == 21 || i == 22 || i == 23
                || i == 24 || i == 25 || i == 26 || i == 27 || i == 28 || i == 29 || i == 30);
            assert(j == 1 || j == 2 || j == 3 || j == 4 || j == 5 || j == 6 || j == 7 || j == 8 || j
                == 9 || j == 10 || j == 11 || j == 12 || j == 13 || j == 14 || j == 15 || j == 16 || j
                == 17 || j == 18 || j == 19 || j == 20 || j == 21 || j == 22 || j == 23 || j == 24
                || j == 25 || j == 26 || j == 27 || j == 28 || j == 29 || j == 30 || j == 31);
        }
    }
    let vi = v as int;
    assert(vi == 0 || vi == 1 || vi == 2 || vi == 3 || vi == 4 || vi == 5 || vi == 6 || vi == 7 || vi
        == 8 || vi == 9 || vi == 10 || vi == 11 || vi == 12 || vi == 13 || vi == 14 || vi == 15 || vi
        == 16 || vi == 17 || vi == 18 || vi == 19 || vi == 20 || vi == 21 || vi == 22 || vi == 23
        || vi == 24 || vi == 25 || vi == 26 || vi == 27 || vi == 28 || vi == 29 || vi == 30 || vi
        == 31);
    lemma_charset_search(v, 0);
}

/// Searching the alphabet from `i <= v` finds `v`.
proof fn lemma_charset_search(v: u8, i: int)
    requires
        v < 32,
        0 <= i <= v,
        CHARSET@ == alphabet(),
        forall|x: int, y: int| 0 <= x < y < 32 ==> alphabet()[x] != alphabet()[y],
    ensures
        charset_pos(charset_char(v), i) == Some(v),
    decreases v - i,
{
    if i < v {
        assert(alphabet()[i] != alphabet()[v as int]);
        lemma_charset_search(v, i + 1);
    }
}

/// The separator is the last `'1'`.
proof fn lemma_last_separator_at(cs: Seq<char>, k: int, n: int)
    requires
        0 <= k < n <= cs.len(),
        cs[k] == '1',
        forall|i: int| k < i < n ==> cs[i] != '1',
    ensures
        last_separator(cs, n) == Some(k),
    decreases n,
{
    if n - 1 > k {
        lemma_last_separator_at(cs, k, n - 1);
    }
}

/// ASCII characters take one byte each in UTF-8.
proof fn lemma_ascii_utf8_len(cs: Seq<char>)
    requires
        forall|i: int| 0 <= i < cs.len() ==> (#[trigger] cs[i] as u32) < 128,
    ensures
        utf8_len(cs) == cs.len(),
    decreases cs.len(),
{
    if cs.len() > 0 {
        lemma_ascii_utf8_len(cs.drop_first());
    }
}

/// Decoding the encoding of an address gives the address back.
pub proof fn lemma_decode_encode(a: AddressModel)
    requires
        a.version == ADDRESS_VERSION,
        a.pubkey_hash.len() == 32,
    ensures
        spec_decode(spec_encode(a)) == Ok::<AddressModel, AddrErr>(a),
        forall|i: int| 0 <= i < spec_encode(a).len() ==> !is_upper(#[trigger] spec_encode(a)[i]),
{
    reveal_strlit("rill");
    reveal_strlit("trill");
    let hrp = spec_hrp(a.network);
    let h = encode_utf8(hrp);
    lemma_convert_8_to_5_total(a.pubkey_hash);
    lemma_convert_bits_roundtrip(a.pubkey_hash);
    let enc = spec_convert_bits(a.pubkey_hash, 8, 5, true)->0;
    let payload = spec_payload(a);
    assert(payload == seq![a.version] + enc);
    let chk = checksum_values(h, payload);
    lemma_checksum_values_small(h, payload);
    let full = payload + chk;
    assert forall|k: int| 0 <= k < full.len() implies #[trigger] full[k] < 32 by {
        if k == 0 {
        } else if k < payload.len() {
            assert(full[k] == enc[k - 1]);
        } else {
            assert(full[k] == chk[k - payload.len()]);
        }
    }
    let data = full.map_values(|v: u8| charset_char(v));
    assert forall|k: int| 0 <= k < data.len() implies charset_value(#[trigger] data[k]) == Some(full[k])
        && ((48 <= data[k] as u32 <= 57 && data[k] != '1') || (97 <= data[k] as u32 <= 122)) by {
        lemma_charset_char(full[k]);
    }
    let s = spec_encode(a);
    assert(s == hrp + seq!['1'] + data);
    let j = hrp.len() as int;
    assert forall|i: int| 0 <= i < s.len() implies !is_upper(#[trigger] s[i]) && lower_char(s[i])
        == s[i] && (s[i] as u32) < 128 by {
        if i < j {
            assert(s[i] == hrp[i]);
        } else if i > j {
            assert(s[i] == data[i - j - 1]);
        }
    }
    assert(!(exists|i: int| 0 <= i < s.len() && is_upper(#[trigger] s[i])));
    let lc = s.map_values(|c: char| lower_char(c));
    assert(lc =~= s);
    assert forall|i: int| j < i < s.len() implies s[i] != '1' by {
        assert(s[i] == data[i - j - 1]);
    }
    lemma_last_separator_at(s, j, s.len() as int);
    assert(s.take(j) =~= hrp);
    assert(s.skip(j + 1) =~= data);
    lemma_encode_utf8_concat(hrp + seq!['1'], data);
    lemma_ascii_utf8_len(data);
    lemma_first_none_from_all(data, data.len() as int);
    assert(charset_values(data) =~= full);
    lemma_checksum_valid(h, payload);
    assert(full.take(full.len() - 6) =~= payload);
    assert(payload.skip(1) =~= enc);
    assert(spec_network_of(hrp) == Some(a.network));
    lemma_enc_blocks_len(a.pubkey_hash, 6);
    assert forall|i: int| 0 <= i < hrp.len() implies (#[trigger] hrp[i] as u32) < 128 by {
        assert(s[i] == hrp[i]);
    }
    lemma_ascii_utf8_len(hrp);
    lemma_ascii_utf8_len(s);
}

/// An ASCII lower-case letter in upper case; other characters unchanged.
pub open spec fn upper_char(c: char) -> char {
    if 'a' <= c <= 'z' {
        ((c as u32) - 32) as char
    } else {
        c
    }
}

/// Text with no upper-case letters decodes the same once all its letters are
/// upper case.
pub proof fn lemma_decode_upper(s: Seq<char>)
    requires
        forall|i: int| 0 <= i < s.len() ==> !is_upper(#[trigger] s[i]),
    ensures
        spec_decode(s.map_values(|c: char| upper_char(c))) == spec_decode(s),
{
    let u = s.map_values(|c: char| upper_char(c));
    assert forall|i: int| 0 <= i < u.len() implies !is_lower(#[trigger] u[i]) && lower_char(u[i])
        == lower_char(s[i]) by {
        let c = s[i];
        if 'a' <= c <= 'z' {
            assert(u[i] as u32 == (c as u32) - 32);
            assert((((c as u32) - 32) as char as u32 + 32) as char == c);
        }
    }
    assert(!(exists|i: int| 0 <= i < u.len() && is_lower(#[trigger] u[i])));
    assert(!(exists|i: int| 0 <= i < s.len() && is_upper(#[trigger] s[i])));
    assert(u.map_values(|c: char| lower_char(c)) =~= s.map_values(|c: char| lower_char(c)));
}

/// The encoding of an address written in upper case decodes to the address
/// too.
pub proof fn lemma_decode_upper_encode(a: AddressModel)
    requires
        a.version == ADDRESS_VERSION,
        a.pubkey_hash.len() == 32,
    ensures
        spec_decode(spec_encode(a).map_values(|c: char| upper_char(c))) == Ok::<
            AddressModel,
            AddrErr,
        >(a),
{
    lemma_decode_encode(a);
    lemma_decode_upper(spec_encode(a));
}

} // verus!
