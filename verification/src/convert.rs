//! Writing a public key as a zqlu key.

use crate::base62::{
    b62_digit_value, encode, lemma_decode_encode, lemma_encode_chars, spec_decode, spec_encode,
};
use crate::curve::{canonical_point, y_is_even};
use crate::checksum::{be_u16_bytes, checksum_matches, compute_checksum, key_checksum};
use crate::error::{invalid_input, ZqluError, ZqluErrorView};
use crate::key::{coordinate_size, key_well_formed, uncommented, KeyMaterial, KeyMaterialView, SshKey, SshKeyView};
use crate::key_type::{
    ecdsa_key_type, key_type_char, lemma_ecdsa_key_type_parity, lemma_ecdsa_letters,
    lemma_key_type_char, EcdsaCurve, ZqluKeyType,
};
use crate::rsa::{
    rsa_fixed_type, length_value, lemma_mpint_positive_roundtrip, lemma_rsa_exotic_roundtrip,
    lemma_varint_len, mpint_canonical, mpint_positive_bytes, positive_bytes, pow128, rsa_bits,
    rsa_bits_limit, rsa_f4, varint,
};
use crate::text::has_prefix;
use crate::zqlu::{
    is_key_char, key_chars_valid, key_from_bits, key_text, text_key_type, zqlu_decode,
    zqlu_key_bits, Zqlu,
};
use bytes::BufMut;
use bytes::BytesMut;
use vstd::prelude::*;
use vstd::string::StringExecFns;

verus! {

#[verifier::external_type_specification]
#[verifier::external_body]
pub struct ExBytesMut(bytes::BytesMut);

/// The bytes that a `bytes::BytesMut` holds.
pub uninterp spec fn buffer_contents(buf: BytesMut) -> Seq<u8>;

/// `bytes::BytesMut::new`: an empty buffer.
#[verifier::external_body]
fn new_buffer() -> (buf: BytesMut)
    ensures
        buffer_contents(buf) == Seq::<u8>::empty(),
{
    BytesMut::new()
}

/// `BufMut::put_slice` on a `BytesMut`: appends `src`. It panics past
/// `isize::MAX` bytes, the most a `BytesMut` can hold.
#[verifier::external_body]
fn put_slice(buf: &mut BytesMut, src: &[u8])
    requires
        buffer_contents(*old(buf)).len() + src@.len() <= isize::MAX,
    ensures
        buffer_contents(*final(buf)) == buffer_contents(*old(buf)) + src@,
{
    buf.put_slice(src)
}

/// `BufMut::put_u8` on a `BytesMut`: appends one byte.
#[verifier::external_body]
fn put_u8(buf: &mut BytesMut, n: u8)
    requires
        buffer_contents(*old(buf)).len() + 1 <= isize::MAX,
    ensures
        buffer_contents(*final(buf)) == buffer_contents(*old(buf)).push(n),
{
    buf.put_u8(n)
}

/// `BufMut::put_u16` on a `BytesMut`: appends `n` in network byte order.
#[verifier::external_body]
fn put_u16(buf: &mut BytesMut, n: u16)
    requires
        buffer_contents(*old(buf)).len() + 2 <= isize::MAX,
    ensures
        buffer_contents(*final(buf)) == buffer_contents(*old(buf)) + be_u16_bytes(n),
{
    buf.put_u16(n)
}

/// The bytes of a `BytesMut`, by `AsRef<[u8]>`.
#[verifier::external_body]
fn buffer_bytes(buf: &BytesMut) -> (s: &[u8])
    ensures
        s@ == buffer_contents(*buf),
{
    buf.as_ref()
}

/// The key bits that a zqlu key holds for a key, and its key type.
pub open spec fn serialised_key(m: KeyMaterialView) -> Result<(Seq<u8>, ZqluKeyType), ZqluErrorView> {
    match m {
        KeyMaterialView::Ecdsa(curve, sec1) => if sec1.len() == 0 {
            Err(ZqluErrorView::InvalidInput("Raw key data can not be empty"@))
        } else if sec1[0] != 4 {
            Err(ZqluErrorView::InvalidInput("Raw key has the wrong key marker, expected 0x04"@))
        } else {
            let x_size = (sec1.len() - 1) / 2;
            Ok((sec1.subrange(1, x_size + 1), ecdsa_key_type(curve, sec1.last() % 2 == 0)))
        },
        KeyMaterialView::Ed25519(b) => Ok((b, ZqluKeyType::Ed25519)),
        KeyMaterialView::Rsa(e, n) => match (mpint_positive_bytes(e), mpint_positive_bytes(n)) {
            (None, _) => Err(ZqluErrorView::InvalidInput("RSA exponent must be positive"@)),
            (_, None) => Err(ZqluErrorView::InvalidInput("RSA modulus must be positive"@)),
            (Some(pe), Some(pn)) => Ok(rsa_bits(pe, pn)),
        },
        KeyMaterialView::Other(_) => Err(ZqluErrorView::UnsupportedKeyType),
    }
}

/// The key bits followed by their checksum in network byte order.
pub open spec fn key_and_checksum(t: ZqluKeyType, bits: Seq<u8>) -> Seq<u8> {
    bits + be_u16_bytes(key_checksum(t, bits))
}

/// The zqlu text of a key of type `t` with key bits `bits`.
pub open spec fn zqlu_text(t: ZqluKeyType, bits: Seq<u8>) -> Seq<char> {
    "zq.lu"@ + seq![key_type_char(t)] + spec_encode(key_and_checksum(t, bits))
}

/// The zqlu key that `from_public_key` makes of a key: its text and the key
/// that the text reads back as, or why there is none.
pub open spec fn zqlu_encoding(m: KeyMaterialView) -> Result<(Seq<char>, SshKeyView), ZqluErrorView> {
    match serialised_key(m) {
        Err(e) => Err(e),
        Ok((bits, t)) => match key_from_bits(bits, t) {
            Ok(k) => Ok((zqlu_text(t, bits), k)),
            Err(e) => Err(e),
        },
    }
}

/// Whether a zqlu key can hold the key bits exactly: an Ed25519 key of 32
/// bytes, an ECDSA point of its curve, uncompressed, or an RSA key of two
/// positive mpints, each of fewer than 2^21 bytes.
pub open spec fn zqlu_roundtrips(m: KeyMaterialView) -> bool {
    match m {
        KeyMaterialView::Ed25519(b) => b.len() == 32,
        KeyMaterialView::Ecdsa(curve, p) => canonical_point(curve, p),
        KeyMaterialView::Rsa(e, n) => {
            &&& mpint_canonical(e)
            &&& mpint_canonical(n)
            &&& mpint_positive_bytes(e) matches Some(pe)
            &&& mpint_positive_bytes(n) matches Some(pn)
            &&& rsa_bits(pe, pn) matches (bits, _) && bits.len() <= rsa_bits_limit()
        },
        KeyMaterialView::Other(_) => false,
    }
}

/// The letter of a key type, as text.
fn key_type_letter(t: ZqluKeyType) -> (s: &'static str)
    ensures
        s@ == seq![key_type_char(t)],
{
    proof {
        reveal_strlit("A");
        reveal_strlit("B");
        reveal_strlit("I");
        reveal_strlit("J");
        reveal_strlit("K");
        reveal_strlit("C");
        reveal_strlit("D");
        reveal_strlit("E");
        reveal_strlit("F");
        reveal_strlit("G");
        reveal_strlit("H");
        reveal_strlit("X");
    }
    match t {
        ZqluKeyType::Ed25519 => "A",
        ZqluKeyType::Rsa2048 => "B",
        ZqluKeyType::Rsa3072 => "I",
        ZqluKeyType::Rsa4096 => "J",
        ZqluKeyType::RsaExotic => "K",
        ZqluKeyType::P256Odd => "C",
        ZqluKeyType::P256Even => "D",
        ZqluKeyType::P384Odd => "E",
        ZqluKeyType::P384Even => "F",
        ZqluKeyType::P521Odd => "G",
        ZqluKeyType::P521Even => "H",
        ZqluKeyType::EXT => "X",
    }
}

/// Writes the x coordinate of an ECDSA point to `buf`, and gives the key type
/// that records the curve and the parity of y; on an error `buf` is left as
/// it was.
fn serialise_ecdsa(curve: crate::key_type::EcdsaCurve, bytes: &[u8], buf: &mut BytesMut) -> (r:
    Result<ZqluKeyType, ZqluError>)
    requires
        buffer_contents(*old(buf)).len() + bytes@.len() <= isize::MAX,
    ensures
        match serialised_key(KeyMaterialView::Ecdsa(curve, bytes@)) {
            Ok((bits, t)) => r == Ok::<ZqluKeyType, ZqluError>(t) && buffer_contents(*final(buf))
                == buffer_contents(*old(buf)) + bits,
            Err(e) => r matches Err(err) && err@ == e && buffer_contents(*final(buf))
                == buffer_contents(*old(buf)),
        },
{
    if bytes.len() == 0 {
        return Err(invalid_input("Raw key data can not be empty"));
    }
    if bytes[0] != 0x04 {
        return Err(invalid_input("Raw key has the wrong key marker, expected 0x04"));
    }
    let x_size = (bytes.len() - 1) / 2;
    put_slice(buf, &bytes[1..x_size + 1]);
    let even = bytes[bytes.len() - 1] % 2 == 0;
    Ok(ZqluKeyType::from_curve_and_compressed_y(curve, even))
}

/// Appends the LEB128 encoding of `value` to `buf`.
fn put_varint(value: usize, buf: &mut BytesMut)
    requires
        buffer_contents(*old(buf)).len() + varint(value as nat).len() <= isize::MAX,
    ensures
        buffer_contents(*final(buf)) == buffer_contents(*old(buf)) + varint(value as nat),
{
    let ghost start = buffer_contents(*buf);
    let ghost whole = varint(value as nat);
    let mut value = value;
    while value >= 0x80
        invariant
            buffer_contents(*buf) + varint(value as nat) == start + whole,
            start.len() + whole.len() <= isize::MAX,
        decreases value,
    {
        let b: u8 = (value as u8 & 0x7f) | 0x80;
        assert(b == (value % 128 + 128) as u8) by (bit_vector)
            requires
                b == (value as u8 & 0x7f) | 0x80,
        ;
        let ghost before = buffer_contents(*buf);
        assert(varint(value as nat) == seq![b] + varint(value as nat / 128));
        assert((before + varint(value as nat)).len() == (start + whole).len());
        put_u8(buf, b);
        let next = value >> 7;
        assert(next == value / 128) by (bit_vector)
            requires
                next == value >> 7,
        ;
        assert(before.push(b) + varint(next as nat) =~= before + (seq![b] + varint(next as nat)));
        value = next;
    }
    put_u8(buf, value as u8);
    assert(varint(value as nat) == seq![value as u8]);
}

/// Appends `value` to `buf`, preceded by its length as a varint.
fn put_length_value(value: &[u8], buf: &mut BytesMut)
    requires
        buffer_contents(*old(buf)).len() + value@.len() + 10 <= isize::MAX,
    ensures
        buffer_contents(*final(buf)) == buffer_contents(*old(buf)) + length_value(value@),
        length_value(value@).len() <= value@.len() + 10,
{
    proof {
        reveal_with_fuel(pow128, 11);
        assert(value@.len() < pow128(10));
        lemma_varint_len(value@.len(), 10);
    }
    let ghost start = buffer_contents(*buf);
    put_varint(value.len(), buf);
    put_slice(buf, value);
    assert(start + varint(value@.len()) + value@ =~= start + length_value(value@));
}

/// Writes the key bits of an RSA key with exponent `e` and modulus `n`
/// (mpints) to `buf`, and gives the key type; on an error `buf` is left as it
/// was.
fn serialise_rsa(e: &[u8], n: &[u8], buf: &mut BytesMut) -> (r: Result<ZqluKeyType, ZqluError>)
    requires
        buffer_contents(*old(buf)).len() + e@.len() + n@.len() + 20 <= isize::MAX,
    ensures
        match serialised_key(KeyMaterialView::Rsa(e@, n@)) {
            Ok((bits, t)) => r == Ok::<ZqluKeyType, ZqluError>(t) && buffer_contents(*final(buf))
                == buffer_contents(*old(buf)) + bits,
            Err(err) => r matches Err(x) && x@ == err && buffer_contents(*final(buf))
                == buffer_contents(*old(buf)),
        },
        buffer_contents(*final(buf)).len() <= buffer_contents(*old(buf)).len() + e@.len()
            + n@.len() + 20,
{
    let exponent = match positive_bytes(e) {
        Some(b) => b,
        None => return Err(invalid_input("RSA exponent must be positive")),
    };
    let modulus = match positive_bytes(n) {
        Some(b) => b,
        None => return Err(invalid_input("RSA modulus must be positive")),
    };
    if exponent.len() == 3 && exponent[0] == 1 && exponent[1] == 0 && exponent[2] == 1 {
        assert(exponent@ =~= rsa_f4());
        let key_type = if modulus.len() == 256 {
            Some(ZqluKeyType::Rsa2048)
        } else if modulus.len() == 384 {
            Some(ZqluKeyType::Rsa3072)
        } else if modulus.len() == 512 {
            Some(ZqluKeyType::Rsa4096)
        } else {
            None
        };
        if let Some(t) = key_type {
            put_slice(buf, modulus);
            return Ok(t);
        }
    }
    let ghost start = buffer_contents(*buf);
    put_length_value(exponent, buf);
    put_length_value(modulus, buf);
    assert(start + length_value(exponent@) + length_value(modulus@) =~= start + (length_value(
        exponent@,
    ) + length_value(modulus@)));
    Ok(ZqluKeyType::RsaExotic)
}

/// The number of bytes that key bits take, where they can be written.
pub open spec fn material_size(m: KeyMaterialView) -> nat {
    match m {
        KeyMaterialView::Ed25519(b) => b.len(),
        KeyMaterialView::Ecdsa(_, p) => p.len(),
        KeyMaterialView::Rsa(e, n) => e.len() + n.len(),
        KeyMaterialView::Other(_) => 0,
    }
}

/// Writes the key bits of `key` to `buf`, and gives the key type; on an error
/// `buf` is left as it was.
fn serialise_key(key: &SshKey, buf: &mut BytesMut) -> (r: Result<ZqluKeyType, ZqluError>)
    requires
        buffer_contents(*old(buf)).len() + material_size(key@.material) + 20 <= isize::MAX,
    ensures
        match serialised_key(key@.material) {
            Ok((bits, t)) => r == Ok::<ZqluKeyType, ZqluError>(t) && buffer_contents(*final(buf))
                == buffer_contents(*old(buf)) + bits,
            Err(e) => r matches Err(err) && err@ == e && buffer_contents(*final(buf))
                == buffer_contents(*old(buf)),
        },
        buffer_contents(*final(buf)).len() <= buffer_contents(*old(buf)).len() + material_size(
            key@.material,
        ) + 20,
{
    match key.material() {
        KeyMaterial::Ecdsa { curve, sec1 } => serialise_ecdsa(*curve, sec1.as_slice(), buf),
        KeyMaterial::Ed25519(bytes) => {
            put_slice(buf, bytes.as_slice());
            Ok(ZqluKeyType::Ed25519)
        },
        KeyMaterial::Rsa { e, n } => serialise_rsa(e.as_slice(), n.as_slice(), buf),
        KeyMaterial::Other(_) => Err(ZqluError::UnsupportedKeyType),
    }
}

/// Writes `input` as a zqlu key, and reads that text back as one.
pub fn from_public_key(input: &SshKey) -> (r: Result<Zqlu, ZqluError>)
    ensures
        match zqlu_encoding(input@.material) {
            Ok((text, k)) => r matches Ok(z) && z@.text == text && z@.key == k,
            Err(e) => r matches Err(err) && err@ == e,
        },
{
    // the key bits are well formed, so they fit in a buffer
    let _ = input.material();
    let mut buf = new_buffer();
    let key_type = match serialise_key(input, &mut buf) {
        Ok(t) => t,
        Err(e) => return Err(e),
    };
    let ghost bits = buffer_contents(buf);
    let crc = compute_checksum(key_type, buffer_bytes(&buf));
    put_u16(&mut buf, crc);
    let encoded = encode(buffer_bytes(&buf));
    let mut text = String::from_str("zq.lu");
    text.append(key_type_letter(key_type));
    text.append(encoded.as_str());
    proof {
        assert(text@ =~= zqlu_text(key_type, bits));
        lemma_zqlu_text_reads_back(key_type, bits);
    }
    Zqlu::new(text.as_str())
}

/// The zqlu text written for a key of type `t` with key bits `bits` reads
/// back as the key that those bits stand for.
pub proof fn lemma_zqlu_text_reads_back(t: ZqluKeyType, bits: Seq<u8>)
    ensures
        zqlu_decode(zqlu_text(t, bits)) == key_from_bits(bits, t),
{
    reveal_strlit("zq.lu");
    let kc = key_and_checksum(t, bits);
    let e = spec_encode(kc);
    let s = zqlu_text(t, bits);
    assert(s.subrange(0, 5) =~= "zq.lu"@);
    assert(has_prefix(s, "zq.lu"@));
    assert(s[5] == key_type_char(t));
    lemma_key_type_char(s[5], t);
    assert(text_key_type(s) == Some(t));
    lemma_encode_chars(kc);
    assert(key_text(s) =~= e);
    assert forall|i: int| 6 <= i < s.len() implies is_key_char(#[trigger] s[i]) by {
        assert(s[i] == e[i - 6]);
        assert(b62_digit_value(e[i - 6]) is Some);
    }
    assert(key_chars_valid(s));
    lemma_decode_encode(kc);
    assert(spec_decode(key_text(s)) == kc);
    let n = kc.len();
    let c = key_checksum(t, bits);
    assert(kc.subrange(0, n - 2) =~= bits);
    assert(kc[n - 2] * 256 + kc[n - 1] == c);
    assert(checksum_matches(t, kc));
}

} // verus!

verus! {

/// A key that a zqlu key can hold survives being written as a zqlu key and
/// read back: the key read back has the same key bits, and no comment.
pub proof fn lemma_zqlu_roundtrip(m: KeyMaterialView)
    requires
        zqlu_roundtrips(m),
    ensures
        zqlu_encoding(m) matches Ok((_, k)) && k == uncommented(m),
{
    match m {
        KeyMaterialView::Ed25519(b) => {},
        KeyMaterialView::Ecdsa(curve, p) => {
            let n = coordinate_size(curve);
            assert((p.len() - 1) / 2 == n);
            lemma_ecdsa_key_type_parity(curve, y_is_even(p));
        },
        KeyMaterialView::Rsa(e, n) => {
            lemma_mpint_positive_roundtrip(e);
            lemma_mpint_positive_roundtrip(n);
            let pe = mpint_positive_bytes(e)->0;
            let pn = mpint_positive_bytes(n)->0;
            if !(pe == rsa_f4() && rsa_fixed_type(pn.len()) is Some) {
                lemma_rsa_exotic_roundtrip(pe, pn);
            }
        },
        KeyMaterialView::Other(_) => {},
    }
}

/// A zqlu key is written with copy-and-paste friendly characters only: ASCII
/// letters and digits, and the `.` of `zq.lu`.
pub proof fn lemma_zqlu_text_characters(t: ZqluKeyType, bits: Seq<u8>)
    ensures
        forall|i: int|
            0 <= i < zqlu_text(t, bits).len() ==> b62_digit_value(#[trigger] zqlu_text(t, bits)[i])
                is Some || zqlu_text(t, bits)[i] == '.',
{
    reveal_strlit("zq.lu");
    let s = zqlu_text(t, bits);
    let e = spec_encode(key_and_checksum(t, bits));
    lemma_encode_chars(key_and_checksum(t, bits));
    assert forall|i: int| 0 <= i < s.len() implies b62_digit_value(#[trigger] s[i]) is Some || s[i]
        == '.' by {
        if i >= 6 {
            assert(s[i] == e[i - 6]);
        }
    }
}

/// A key is written as a zqlu text whose key bits are the key's own bytes as
/// they stand, and whose letter names the key: an Ed25519 key's 32 bytes
/// under `A`; the x coordinate of an ECDSA point under `C`, `E` or `G` for
/// P-256, P-384 or P-521, the next letter when its y coordinate is even; an
/// RSA key with exponent 65537 and a 2048-bit modulus (an mpint of a zero
/// sign byte and 256 bytes) as those 256 bytes under `B`; any other RSA key
/// as the length of its exponent, the exponent, the length of its modulus and
/// the modulus under `K`.
#[verifier::spinoff_prover]
#[verifier::rlimit(80)]
pub proof fn lemma_zqlu_text_holds_the_key(m: KeyMaterialView)
    requires
        zqlu_encoding(m) is Ok,
    ensures
        zqlu_encoding(m) matches Ok((z, _)) && z.len() > 5 && match m {
            KeyMaterialView::Ed25519(b) => zqlu_key_bits(z) == b && z[5] == 'A',
            KeyMaterialView::Ecdsa(c, p) => zqlu_key_bits(z) == p.subrange(
                1,
                1 + coordinate_size(c) as int,
            ) && z[5] as u32 == (match c {
                EcdsaCurve::NistP256 => 'C' as u32,
                EcdsaCurve::NistP384 => 'E' as u32,
                EcdsaCurve::NistP521 => 'G' as u32,
            }) + (if p.last() % 2 == 0 {
                1u32
            } else {
                0u32
            }),
            KeyMaterialView::Rsa(e, n) => {
                &&& (e == seq![1u8, 0u8, 1u8] && n.len() == 257 && n[0] == 0) ==> zqlu_key_bits(z)
                    == n.subrange(1, 257) && z[5] == 'B'
                &&& (e != seq![1u8, 0u8, 1u8] && e.len() >= 1 && 0 < e[0] < 0x80 && n.len() >= 1 && 0
                    < n[0] < 0x80) ==> zqlu_key_bits(z) == varint(e.len()) + e + varint(n.len()) + n
                    && z[5] == 'K'
            },
            KeyMaterialView::Other(_) => false,
        },
{
    reveal_strlit("zq.lu");
    let (bits, t) = serialised_key(m)->Ok_0;
    let kc = key_and_checksum(t, bits);
    let z = zqlu_text(t, bits);
    assert(key_text(z) =~= spec_encode(kc));
    lemma_decode_encode(kc);
    assert(kc.subrange(0, kc.len() - 2) =~= bits);
    assert(z[5] == key_type_char(t));
    if let KeyMaterialView::Ecdsa(c, p) = m {
        lemma_ecdsa_letters(c, p.last() % 2 == 0);
        assert((p.len() - 1) / 2 == coordinate_size(c));
    }
    if let KeyMaterialView::Rsa(e, n) = m {
        if e == seq![1u8, 0u8, 1u8] {
            assert(mpint_positive_bytes(e) == Some(e));
            assert(e =~= rsa_f4());
        }
        if e.len() >= 1 && 0 < e[0] < 0x80 && n.len() >= 1 && 0 < n[0] < 0x80 {
            assert(mpint_positive_bytes(e) == Some(e));
            assert(mpint_positive_bytes(n) == Some(n));
            if e != seq![1u8, 0u8, 1u8] {
                assert(e != rsa_f4());
                assert(bits =~= varint(e.len()) + e + varint(n.len()) + n);
            }
        }
    }
}

} // verus!
