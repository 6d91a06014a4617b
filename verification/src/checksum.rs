//! The CRC-16 checksum that ends the key data of a zqlu key.

use crate::error::{invalid_input, ZqluError, ZqluErrorView};
use crate::key_type::{key_type_byte, ZqluKeyType};
use vstd::prelude::*;

verus! {

/// One bit step of the reflected CRC-16 with polynomial 0x1021 (0x8408 reflected).
pub open spec fn crc_shift_bit(c: u16) -> u16 {
    if c & 1 == 1 {
        (c >> 1) ^ 0x8408u16
    } else {
        c >> 1
    }
}

/// The eight bit steps that take in one byte.
pub open spec fn crc_shift_byte(c: u16) -> u16 {
    crc_shift_bit(
        crc_shift_bit(
            crc_shift_bit(
                crc_shift_bit(crc_shift_bit(crc_shift_bit(crc_shift_bit(crc_shift_bit(c))))),
            ),
        ),
    )
}

/// The CRC register after taking in `data`, starting from 0xffff.
pub open spec fn crc_register(data: Seq<u8>) -> u16
    decreases data.len(),
{
    if data.len() == 0 {
        0xffffu16
    } else {
        crc_shift_byte(crc_register(data.drop_last()) ^ (data.last() as u16))
    }
}

/// CRC-16/IBM-SDLC (RFC 1662): width 16, polynomial 0x1021, initial value
/// 0xffff, input and output reflected, final xor 0xffff.
pub open spec fn crc16_ibm_sdlc(data: Seq<u8>) -> u16 {
    crc_register(data) ^ 0xffffu16
}

/// The bytes of `zq.lu` followed by the key type byte: what the checksum
/// covers before the key bits.
pub open spec fn checksum_prefix(t: ZqluKeyType) -> Seq<u8> {
    seq![0x7au8, 0x71u8, 0x2eu8, 0x6cu8, 0x75u8, key_type_byte(t)]
}

/// The checksum of a key of type `t` with key bits `key`.
pub open spec fn key_checksum(t: ZqluKeyType, key: Seq<u8>) -> u16 {
    crc16_ibm_sdlc(checksum_prefix(t) + key)
}

/// The two bytes of `v` in network byte order.
pub open spec fn be_u16_bytes(v: u16) -> Seq<u8> {
    seq![(v / 256) as u8, (v % 256) as u8]
}

/// Whether `key_and_checksum` holds a checksum at all, and its last two bytes,
/// read in network byte order, are the checksum of the bytes before them.
pub open spec fn checksum_matches(t: ZqluKeyType, key_and_checksum: Seq<u8>) -> bool {
    let n = key_and_checksum.len();
    n >= 2 && key_checksum(t, key_and_checksum.subrange(0, n - 2)) == key_and_checksum[n - 2] * 256
        + key_and_checksum[n - 1]
}

/// The CRC-16/IBM-SDLC of `data`, by `crc::Crc::<u16>::new(&CRC_16_IBM_SDLC)`
/// and one digest over `data`.
#[verifier::external_body]
fn crc16(data: &[u8]) -> (c: u16)
    ensures
        c == crc16_ibm_sdlc(data@),
{
    let crc = crc::Crc::<u16>::new(&crc::CRC_16_IBM_SDLC);
    let mut digest = crc.digest();
    digest.update(data);
    digest.finalize()
}

/// The checksum of a key of type `key_type` with key bits `key`.
pub fn compute_checksum(key_type: ZqluKeyType, key: &[u8]) -> (c: u16)
    ensures
        c == key_checksum(key_type, key@),
{
    let mut message: Vec<u8> = vec![0x7au8, 0x71u8, 0x2eu8, 0x6cu8, 0x75u8];
    message.push(key_type.to_byte());
    message.extend_from_slice(key);
    assert(message@ =~= checksum_prefix(key_type) + key@);
    crc16(message.as_slice())
}

/// Checks that the last two bytes of `key_and_checksum` are the checksum of the
/// bytes before them.
pub fn validate_crc(zqlu_key_type: ZqluKeyType, key_and_checksum: &[u8]) -> (r: Result<
    (),
    ZqluError,
>)
    ensures
        r is Ok <==> checksum_matches(zqlu_key_type, key_and_checksum@),
        r matches Err(e) ==> e@ == ZqluErrorView::InvalidInput("Invalid CRC"@),
{
    let n = key_and_checksum.len();
    if n < 2 {
        return Err(invalid_input("Invalid CRC"));
    }
    let key = &key_and_checksum[0..n - 2];
    let crc = compute_checksum(zqlu_key_type, key);
    let checksum = (key_and_checksum[n - 2] as u16) * 256 + (key_and_checksum[n - 1] as u16);
    if crc != checksum {
        return Err(invalid_input("Invalid CRC"));
    }
    Ok(())
}

proof fn lemma_shift_bit_injective(a: u16, b: u16)
    requires
        crc_shift_bit(a) == crc_shift_bit(b),
    ensures
        a == b,
{
    assert((if a & 1 == 1 { (a >> 1) ^ 0x8408u16 } else { a >> 1 }) == (if b & 1 == 1 {
        (b >> 1) ^ 0x8408u16
    } else {
        b >> 1
    }) ==> a == b) by (bit_vector);
}

proof fn lemma_shift_byte_injective(a: u16, b: u16)
    requires
        crc_shift_byte(a) == crc_shift_byte(b),
    ensures
        a == b,
{
    let a1 = crc_shift_bit(a);
    let a2 = crc_shift_bit(a1);
    let a3 = crc_shift_bit(a2);
    let a4 = crc_shift_bit(a3);
    let a5 = crc_shift_bit(a4);
    let a6 = crc_shift_bit(a5);
    let a7 = crc_shift_bit(a6);
    let b1 = crc_shift_bit(b);
    let b2 = crc_shift_bit(b1);
    let b3 = crc_shift_bit(b2);
    let b4 = crc_shift_bit(b3);
    let b5 = crc_shift_bit(b4);
    let b6 = crc_shift_bit(b5);
    let b7 = crc_shift_bit(b6);
    lemma_shift_bit_injective(a7, b7);
    lemma_shift_bit_injective(a6, b6);
    lemma_shift_bit_injective(a5, b5);
    lemma_shift_bit_injective(a4, b4);
    lemma_shift_bit_injective(a3, b3);
    lemma_shift_bit_injective(a2, b2);
    lemma_shift_bit_injective(a1, b1);
    lemma_shift_bit_injective(a, b);
}

proof fn lemma_register_step_injective(a: u16, b: u16, x: u8, y: u8)
    requires
        crc_shift_byte(a ^ (x as u16)) == crc_shift_byte(b ^ (y as u16)),
    ensures
        a == b <==> x == y,
{
    lemma_shift_byte_injective(a ^ (x as u16), b ^ (y as u16));
    assert((a ^ (x as u16)) == (b ^ (y as u16)) ==> (a == b <==> x == y)) by (bit_vector);
}

/// Changing one byte of a message changes its CRC-16/IBM-SDLC.
pub proof fn lemma_crc_detects_changed_byte(p: Seq<u8>, x: u8, y: u8, s: Seq<u8>)
    requires
        x != y,
    ensures
        crc16_ibm_sdlc(p.push(x) + s) != crc16_ibm_sdlc(p.push(y) + s),
    decreases s.len(),
{
    if s.len() == 0 {
        assert(p.push(x) + s =~= p.push(x));
        assert(p.push(y) + s =~= p.push(y));
        assert(p.push(x).drop_last() =~= p);
        assert(p.push(y).drop_last() =~= p);
        if crc_register(p.push(x)) == crc_register(p.push(y)) {
            lemma_register_step_injective(crc_register(p), crc_register(p), x, y);
        }
    } else {
        let s0 = s.drop_last();
        lemma_crc_detects_changed_byte(p, x, y, s0);
        assert((p.push(x) + s).drop_last() =~= p.push(x) + s0);
        assert((p.push(y) + s).drop_last() =~= p.push(y) + s0);
        let a = crc_register(p.push(x) + s0);
        let b = crc_register(p.push(y) + s0);
        assert(a != b);
        if crc_register(p.push(x) + s) == crc_register(p.push(y) + s) {
            lemma_register_step_injective(a, b, s.last(), s.last());
        }
    }
    lemma_final_xor_injective(crc_register(p.push(x) + s), crc_register(p.push(y) + s));
}

proof fn lemma_final_xor_injective(a: u16, b: u16)
    requires
        a != b,
    ensures
        a ^ 0xffffu16 != b ^ 0xffffu16,
{
    assert(a != b ==> a ^ 0xffffu16 != b ^ 0xffffu16) by (bit_vector);
}

/// The checksum written after key bits is the one that is accepted.
pub proof fn lemma_checksum_accepted(t: ZqluKeyType, key: Seq<u8>)
    ensures
        checksum_matches(t, key + be_u16_bytes(key_checksum(t, key))),
{
    let kc = key + be_u16_bytes(key_checksum(t, key));
    assert(kc.subrange(0, kc.len() - 2) =~= key);
}

/// A corrupted zqlu key is detected: if the key data checks out, then with any
/// one of its bytes changed (key bits or checksum) it does not.
pub proof fn lemma_checksum_detects_corruption(
    t: ZqluKeyType,
    key_and_checksum: Seq<u8>,
    i: int,
    b: u8,
)
    requires
        key_and_checksum.len() >= 2,
        0 <= i < key_and_checksum.len(),
        key_and_checksum[i] != b,
        checksum_matches(t, key_and_checksum),
    ensures
        !checksum_matches(t, key_and_checksum.update(i, b)),
{
    let kc = key_and_checksum;
    let n = kc.len();
    let changed = kc.update(i, b);
    if i >= n - 2 {
        assert(changed.subrange(0, n - 2) =~= kc.subrange(0, n - 2));
    } else {
        let pre = checksum_prefix(t) + kc.subrange(0, i);
        let post = kc.subrange(i + 1, n - 2);
        assert(checksum_prefix(t) + kc.subrange(0, n - 2) =~= pre.push(kc[i]) + post);
        assert(checksum_prefix(t) + changed.subrange(0, n - 2) =~= pre.push(b) + post);
        lemma_crc_detects_changed_byte(pre, kc[i], b, post);
    }
}

/// A key whose type letter was changed is detected: key data whose checksum
/// checks out for one key type does not for another.
pub proof fn lemma_checksum_detects_changed_type(
    t: ZqluKeyType,
    u: ZqluKeyType,
    key_and_checksum: Seq<u8>,
)
    requires
        key_and_checksum.len() >= 2,
        t != u,
        checksum_matches(t, key_and_checksum),
    ensures
        !checksum_matches(u, key_and_checksum),
{
    let kc = key_and_checksum;
    let key = kc.subrange(0, kc.len() - 2);
    let pre = seq![0x7au8, 0x71u8, 0x2eu8, 0x6cu8, 0x75u8];
    assert(checksum_prefix(t) + key =~= pre.push(key_type_byte(t)) + key);
    assert(checksum_prefix(u) + key =~= pre.push(key_type_byte(u)) + key);
    crate::key_type::lemma_key_type_byte_roundtrip(t);
    crate::key_type::lemma_key_type_byte_roundtrip(u);
    lemma_crc_detects_changed_byte(pre, key_type_byte(t), key_type_byte(u), key);
}

} // verus!

verus! {

/// Whether the bits set in `e`, a 24-bit value, are not none and all lie in
/// some 16 consecutive bit positions.
pub open spec fn within_16_bits(e: u32) -> bool {
    &&& e != 0
    &&& e < 0x100_0000
    &&& {
        ||| e & 0xff_0000 == 0
        ||| e & 0xfe_0001 == 0
        ||| e & 0xfc_0003 == 0
        ||| e & 0xf8_0007 == 0
        ||| e & 0xf0_000f == 0
        ||| e & 0xe0_001f == 0
        ||| e & 0xc0_003f == 0
        ||| e & 0x80_007f == 0
        ||| e & 0x00_00ff == 0
    }
}


/// The xor of the bits in which two runs of three bytes differ, as a 24-bit
/// value: the first byte in the low bits, as the checksum reads each byte from
/// its least significant bit.
pub open spec fn burst_bits(x: Seq<u8>, y: Seq<u8>) -> u32 {
    ((x[0] ^ y[0]) as u32) | (((x[1] ^ y[1]) as u32) << 8u32) | (((x[2] ^ y[2]) as u32) << 16u32)
}

/// A bit step commutes with xor.
proof fn lemma_shift_bit_xor(a: u16, b: u16)
    ensures
        crc_shift_bit(a ^ b) == crc_shift_bit(a) ^ crc_shift_bit(b),
{
    assert((if (a ^ b) & 1 == 1 { ((a ^ b) >> 1) ^ 0x8408u16 } else { (a ^ b) >> 1 }) == (if a & 1
        == 1 { (a >> 1) ^ 0x8408u16 } else { a >> 1 }) ^ (if b & 1 == 1 {
        (b >> 1) ^ 0x8408u16
    } else {
        b >> 1
    })) by (bit_vector);
}

/// A byte step commutes with xor.
proof fn lemma_shift_byte_xor(a: u16, b: u16)
    ensures
        crc_shift_byte(a ^ b) == crc_shift_byte(a) ^ crc_shift_byte(b),
{
    lemma_shift_bit_xor(a, b);
    let a1 = crc_shift_bit(a);
    let b1 = crc_shift_bit(b);
    lemma_shift_bit_xor(a1, b1);
    let a2 = crc_shift_bit(a1);
    let b2 = crc_shift_bit(b1);
    lemma_shift_bit_xor(a2, b2);
    let a3 = crc_shift_bit(a2);
    let b3 = crc_shift_bit(b2);
    lemma_shift_bit_xor(a3, b3);
    let a4 = crc_shift_bit(a3);
    let b4 = crc_shift_bit(b3);
    lemma_shift_bit_xor(a4, b4);
    let a5 = crc_shift_bit(a4);
    let b5 = crc_shift_bit(b4);
    lemma_shift_bit_xor(a5, b5);
    let a6 = crc_shift_bit(a5);
    let b6 = crc_shift_bit(b5);
    lemma_shift_bit_xor(a6, b6);
    let a7 = crc_shift_bit(a6);
    let b7 = crc_shift_bit(b6);
    lemma_shift_bit_xor(a7, b7);
}

/// Two runs that take in a byte each end up apart by the step of the xor of
/// where they were and of the bytes.
proof fn lemma_step_xor(a: u16, b: u16, x: u8, y: u8)
    ensures
        crc_shift_byte(a ^ (x as u16)) ^ crc_shift_byte(b ^ (y as u16)) == crc_shift_byte(
            (a ^ b) ^ ((x ^ y) as u16),
        ),
{
    lemma_shift_byte_xor(a ^ (x as u16), b ^ (y as u16));
    assert((a ^ (x as u16)) ^ (b ^ (y as u16)) == (a ^ b) ^ ((x ^ y) as u16)) by (bit_vector);
}

/// Taking in a non-zero byte from the zero register leaves a bit set in the
/// high byte.
proof fn lemma_step_of_byte(e: u16)
    requires
        0 < e < 256,
    ensures
        crc_shift_byte(e) >= 256,
{
    let a1 = crc_shift_bit(e);
    let a2 = crc_shift_bit(a1);
    let a3 = crc_shift_bit(a2);
    let a4 = crc_shift_bit(a3);
    let a5 = crc_shift_bit(a4);
    let a6 = crc_shift_bit(a5);
    let a7 = crc_shift_bit(a6);
    let a8 = crc_shift_bit(a7);
    assert(a8 >= 256) by (bit_vector)
        requires
            0 < e < 256,
            a1 == (if e & 1 == 1 { (e >> 1) ^ 0x8408u16 } else { e >> 1 }),
            a2 == (if a1 & 1 == 1 { (a1 >> 1) ^ 0x8408u16 } else { a1 >> 1 }),
            a3 == (if a2 & 1 == 1 { (a2 >> 1) ^ 0x8408u16 } else { a2 >> 1 }),
            a4 == (if a3 & 1 == 1 { (a3 >> 1) ^ 0x8408u16 } else { a3 >> 1 }),
            a5 == (if a4 & 1 == 1 { (a4 >> 1) ^ 0x8408u16 } else { a4 >> 1 }),
            a6 == (if a5 & 1 == 1 { (a5 >> 1) ^ 0x8408u16 } else { a5 >> 1 }),
            a7 == (if a6 & 1 == 1 { (a6 >> 1) ^ 0x8408u16 } else { a6 >> 1 }),
            a8 == (if a7 & 1 == 1 { (a7 >> 1) ^ 0x8408u16 } else { a7 >> 1 }),
    ;
}

/// The zero register stays zero on a zero byte.
proof fn lemma_step_of_zero()
    ensures
        crc_shift_byte(0) == 0,
{
    assert(crc_shift_bit(0) == 0) by (bit_vector);
}

/// Two bytes taken in from the zero register after a non-zero first byte
/// `e0` do not leave it at a byte `e2` that a 16-bit burst starting in `e0`
/// can reach: such a burst is no multiple of the polynomial.
proof fn lemma_burst_not_cancelled(e0: u16, e1: u16, e2: u16)
    requires
        0 < e0 < 256,
        e1 < 256,
        e2 < 256,
        within_16_bits((e0 as u32) | ((e1 as u32) << 8u32) | ((e2 as u32) << 16u32)),
    ensures
        crc_shift_byte(crc_shift_byte(e0) ^ e1) != e2,
{
    let e = e0;
    let a1 = crc_shift_bit(e);
    let a2 = crc_shift_bit(a1);
    let a3 = crc_shift_bit(a2);
    let a4 = crc_shift_bit(a3);
    let a5 = crc_shift_bit(a4);
    let a6 = crc_shift_bit(a5);
    let a7 = crc_shift_bit(a6);
    let a8 = crc_shift_bit(a7);
    let v = a8 ^ e1;
    let b1 = crc_shift_bit(v);
    let b2 = crc_shift_bit(b1);
    let b3 = crc_shift_bit(b2);
    let b4 = crc_shift_bit(b3);
    let b5 = crc_shift_bit(b4);
    let b6 = crc_shift_bit(b5);
    let b7 = crc_shift_bit(b6);
    let b8 = crc_shift_bit(b7);
    let w = (e0 as u32) | ((e1 as u32) << 8u32) | ((e2 as u32) << 16u32);
    assert(b8 != e2) by (bit_vector)
        requires
            0 < e < 256,
            e0 == e,
            e1 < 256,
            e2 < 256,
            w == (e0 as u32) | ((e1 as u32) << 8u32) | ((e2 as u32) << 16u32),
            w != 0,
            w & 0xff_0000 == 0 || w & 0xfe_0001 == 0 || w & 0xfc_0003 == 0 || w & 0xf8_0007 == 0 || w
                & 0xf0_000f == 0 || w & 0xe0_001f == 0 || w & 0xc0_003f == 0 || w & 0x80_007f == 0
                || w & 0x00_00ff == 0,
            a1 == (if e & 1 == 1 { (e >> 1) ^ 0x8408u16 } else { e >> 1 }),
            a2 == (if a1 & 1 == 1 { (a1 >> 1) ^ 0x8408u16 } else { a1 >> 1 }),
            a3 == (if a2 & 1 == 1 { (a2 >> 1) ^ 0x8408u16 } else { a2 >> 1 }),
            a4 == (if a3 & 1 == 1 { (a3 >> 1) ^ 0x8408u16 } else { a3 >> 1 }),
            a5 == (if a4 & 1 == 1 { (a4 >> 1) ^ 0x8408u16 } else { a4 >> 1 }),
            a6 == (if a5 & 1 == 1 { (a5 >> 1) ^ 0x8408u16 } else { a5 >> 1 }),
            a7 == (if a6 & 1 == 1 { (a6 >> 1) ^ 0x8408u16 } else { a6 >> 1 }),
            a8 == (if a7 & 1 == 1 { (a7 >> 1) ^ 0x8408u16 } else { a7 >> 1 }),
            v == a8 ^ e1,
            b1 == (if v & 1 == 1 { (v >> 1) ^ 0x8408u16 } else { v >> 1 }),
            b2 == (if b1 & 1 == 1 { (b1 >> 1) ^ 0x8408u16 } else { b1 >> 1 }),
            b3 == (if b2 & 1 == 1 { (b2 >> 1) ^ 0x8408u16 } else { b2 >> 1 }),
            b4 == (if b3 & 1 == 1 { (b3 >> 1) ^ 0x8408u16 } else { b3 >> 1 }),
            b5 == (if b4 & 1 == 1 { (b4 >> 1) ^ 0x8408u16 } else { b4 >> 1 }),
            b6 == (if b5 & 1 == 1 { (b5 >> 1) ^ 0x8408u16 } else { b5 >> 1 }),
            b7 == (if b6 & 1 == 1 { (b6 >> 1) ^ 0x8408u16 } else { b6 >> 1 }),
            b8 == (if b7 & 1 == 1 { (b7 >> 1) ^ 0x8408u16 } else { b7 >> 1 }),
    ;
}

/// The checksum detects a burst of errors: two messages that agree but in
/// three consecutive bytes, where the bits that differ lie within 16
/// consecutive bit positions (in the order in which the checksum reads them,
/// least significant bit of each byte first), have different checksums. Every
/// burst of at most 16 bits lies in some three consecutive bytes.
pub proof fn lemma_crc_detects_burst(p: Seq<u8>, x: Seq<u8>, y: Seq<u8>, s: Seq<u8>)
    requires
        x.len() == 3,
        y.len() == 3,
        within_16_bits(burst_bits(x, y)),
    ensures
        crc16_ibm_sdlc(p + x + s) != crc16_ibm_sdlc(p + y + s),
    decreases s.len(),
{
    if s.len() == 0 {
        let r = crc_register(p);
        let px1 = p.push(x[0]);
        let py1 = p.push(y[0]);
        let px2 = px1.push(x[1]);
        let py2 = py1.push(y[1]);
        assert(p + x + s =~= px2.push(x[2]));
        assert(p + y + s =~= py2.push(y[2]));
        assert(px1.drop_last() =~= p);
        assert(py1.drop_last() =~= p);
        assert(px2.drop_last() =~= px1);
        assert(py2.drop_last() =~= py1);
        assert(px2.push(x[2]).drop_last() =~= px2);
        assert(py2.push(y[2]).drop_last() =~= py2);
        let a1 = crc_register(px1);
        let b1 = crc_register(py1);
        let a2 = crc_register(px2);
        let b2 = crc_register(py2);
        let a3 = crc_register(px2.push(x[2]));
        let b3 = crc_register(py2.push(y[2]));
        let (x0, x1, x2, y0, y1, y2) = (x[0], x[1], x[2], y[0], y[1], y[2]);
        let e0 = (x0 ^ y0) as u16;
        let e1 = (x1 ^ y1) as u16;
        let e2 = (x2 ^ y2) as u16;
        lemma_step_xor(r, r, x[0], y[0]);
        assert(r ^ r == 0u16) by (bit_vector);
        assert(0u16 ^ e0 == e0) by (bit_vector);
        assert(a1 ^ b1 == crc_shift_byte(e0));
        lemma_step_xor(a1, b1, x[1], y[1]);
        assert(a2 ^ b2 == crc_shift_byte(crc_shift_byte(e0) ^ e1));
        lemma_step_xor(a2, b2, x[2], y[2]);
        assert(a3 ^ b3 == crc_shift_byte((a2 ^ b2) ^ e2));
        assert(e0 < 256 && e1 < 256 && e2 < 256) by (bit_vector)
            requires
                e0 == (x0 ^ y0) as u16,
                e1 == (x1 ^ y1) as u16,
                e2 == (x2 ^ y2) as u16,
        ;
        let w = burst_bits(x, y);
        assert(w == (e0 as u32) | ((e1 as u32) << 8u32) | ((e2 as u32) << 16u32)) by (bit_vector)
            requires
                w == ((x0 ^ y0) as u32) | (((x1 ^ y1) as u32) << 8u32) | (((x2 ^ y2) as u32)
                    << 16u32),
                e0 == (x0 ^ y0) as u16,
                e1 == (x1 ^ y1) as u16,
                e2 == (x2 ^ y2) as u16,
        ;
        if a3 == b3 {
            assert(a3 ^ b3 == 0u16) by (bit_vector)
                requires
                    a3 == b3,
            ;
            lemma_step_of_zero();
            lemma_shift_byte_injective((a2 ^ b2) ^ e2, 0);
            assert((a2 ^ b2) ^ e2 == 0u16 ==> a2 ^ b2 == e2) by (bit_vector);
            if e0 != 0 {
                lemma_burst_not_cancelled(e0, e1, e2);
            } else {
                lemma_step_of_zero();
                assert(crc_shift_byte(e0) ^ e1 == e1) by (bit_vector)
                    requires
                        e0 == 0,
                        crc_shift_byte(0) == 0,
                ;
                if e1 != 0 {
                    lemma_step_of_byte(e1);
                } else {
                    assert(crc_shift_byte(0u16) ^ e1 == 0u16) by (bit_vector)
                        requires
                            e1 == 0,
                            crc_shift_byte(0) == 0,
                    ;
                    assert(w == 0) by (bit_vector)
                        requires
                            w == (e0 as u32) | ((e1 as u32) << 8u32) | ((e2 as u32) << 16u32),
                            e0 == 0,
                            e1 == 0,
                            e2 == 0,
                    ;
                }
            }
        }
    } else {
        let s0 = s.drop_last();
        lemma_crc_detects_burst(p, x, y, s0);
        assert((p + x + s).drop_last() =~= p + x + s0);
        assert((p + y + s).drop_last() =~= p + y + s0);
        let a = crc_register(p + x + s0);
        let b = crc_register(p + y + s0);
        if a == b {
            lemma_final_xor_injective(a, b);
        }
        if crc_register(p + x + s) == crc_register(p + y + s) {
            lemma_register_step_injective(a, b, s.last(), s.last());
        }
    }
    if crc_register(p + x + s) != crc_register(p + y + s) {
        lemma_final_xor_injective(crc_register(p + x + s), crc_register(p + y + s));
    }
}

/// A burst of errors in the key bits of a zqlu key is detected: if the key
/// data checks out, then with bits of its key bits changed that lie within 16
/// consecutive bit positions, it does not. The burst is given by three
/// consecutive bytes of what the checksum covers, the key type prefix and the
/// key bits, starting at `j`, and the bytes `x` put in their place; the prefix
/// itself stays as it is.
pub proof fn lemma_checksum_detects_burst(
    t: ZqluKeyType,
    key_and_checksum: Seq<u8>,
    j: int,
    x: Seq<u8>,
)
    requires
        key_and_checksum.len() >= 2,
        checksum_matches(t, key_and_checksum),
        0 <= j,
        j + 3 <= 6 + key_and_checksum.len() - 2,
        x.len() == 3,
        forall|k: int| 0 <= k < 3 && j + k < 6 ==> x[k] == checksum_prefix(t)[j + k],
        within_16_bits(
            burst_bits(
                (checksum_prefix(t) + key_and_checksum.subrange(0, key_and_checksum.len() - 2)).subrange(
                    j,
                    j + 3,
                ),
                x,
            ),
        ),
    ensures
        !checksum_matches(
            t,
            burst_changed(checksum_prefix(t) + key_and_checksum.subrange(0, key_and_checksum.len() - 2), j, x)
                .subrange(6, key_and_checksum.len() + 4int) + key_and_checksum.subrange(
                key_and_checksum.len() - 2,
                key_and_checksum.len() as int,
            ),
        ),
{
    let kc = key_and_checksum;
    let n = kc.len();
    let m = checksum_prefix(t) + kc.subrange(0, n - 2);
    let m2 = burst_changed(m, j, x);
    let changed = m2.subrange(6, n + 4int) + kc.subrange(n - 2, n as int);
    assert forall|i: int| 0 <= i < 6 implies m2[i] == checksum_prefix(t)[i] by {
        if i < j {
            assert(m2[i] == m[i]);
        } else if i < j + 3 {
            assert(m2[i] == x[i - j]);
        } else {
            assert(m2[i] == m[i]);
        }
    }
    assert(checksum_prefix(t) + changed.subrange(0, n - 2) =~= m2);
    assert(changed[n - 2] == kc[n - 2]);
    assert(changed[n - 1] == kc[n - 1]);
    assert(m =~= m.subrange(0, j) + m.subrange(j, j + 3) + m.subrange(j + 3, m.len() as int));
    lemma_crc_detects_burst(m.subrange(0, j), m.subrange(j, j + 3), x, m.subrange(j + 3, m.len() as int));
}

/// `m` with the three bytes from `j` on replaced by `x`.
pub open spec fn burst_changed(m: Seq<u8>, j: int, x: Seq<u8>) -> Seq<u8> {
    m.subrange(0, j) + x + m.subrange(j + 3, m.len() as int)
}

/// The checksum covers the first six characters of a zqlu text as ASCII
/// bytes: `zq.lu` and the key type letter.
pub proof fn lemma_checksum_prefix_is_the_text(t: ZqluKeyType, s: Seq<char>)
    requires
        s.len() >= 6,
        s.subrange(0, 5) == "zq.lu"@,
        s[5] == crate::key_type::key_type_char(t),
    ensures
        forall|i: int| 0 <= i < 6 ==> s[i] as u32 == checksum_prefix(t)[i] as u32,
{
    reveal_strlit("zq.lu");
    assert forall|i: int| 0 <= i < 6 implies s[i] as u32 == checksum_prefix(t)[i] as u32 by {
        if i < 5 {
            assert(s[i] == s.subrange(0, 5)[i]);
        }
    }
}

} // verus!
