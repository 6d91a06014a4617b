//! RSA keys in zqlu keys: the public exponent and modulus as `ssh_key`
//! holds them (SSH mpints), and the key bits that stand for them.
//!
//! A key with the exponent 65537 and a modulus of 2048, 3072 or 4096 bits is
//! written as its modulus alone. Any other key is written as the exponent and
//! the modulus, each preceded by its length as an LEB128 varint.

use crate::key_type::ZqluKeyType;
use vstd::arithmetic::div_mod::lemma_fundamental_div_mod;
use vstd::prelude::*;

verus! {

/// Whether `m` is an mpint as `ssh_key::Mpint` holds one: it has no leading
/// zero byte that the sign does not need.
pub open spec fn mpint_canonical(m: Seq<u8>) -> bool {
    !(m.len() >= 1 && m[0] == 0 && (m.len() == 1 || m[1] < 0x80))
}

/// The big-endian bytes of a positive mpint, without its sign byte; `None`
/// for zero and for negative numbers (`ssh_key::Mpint::as_positive_bytes`).
pub open spec fn mpint_positive_bytes(m: Seq<u8>) -> Option<Seq<u8>> {
    if m.len() >= 1 && m[0] == 0 {
        Some(m.subrange(1, m.len() as int))
    } else if m.len() >= 1 && m[0] < 0x80 {
        Some(m)
    } else {
        None
    }
}

/// `b` without its leading zero bytes.
pub open spec fn strip_leading_zeros(b: Seq<u8>) -> Seq<u8>
    decreases b.len(),
{
    if b.len() > 0 && b[0] == 0 {
        strip_leading_zeros(b.subrange(1, b.len() as int))
    } else {
        b
    }
}

/// The mpint of the non-negative number with big-endian bytes `b`
/// (`ssh_key::Mpint::from_positive_bytes`): leading zeros dropped, and a zero
/// sign byte put in front where the top bit is set.
pub open spec fn mpint_of_positive(b: Seq<u8>) -> Seq<u8> {
    let s = strip_leading_zeros(b);
    if s.len() > 0 && s[0] >= 0x80 {
        seq![0u8] + s
    } else {
        s
    }
}

/// The LEB128 encoding of `v`: seven bits a byte, lowest first, the top bit
/// set on every byte but the last.
pub open spec fn varint(v: nat) -> Seq<u8>
    decreases v,
{
    if v < 128 {
        seq![v as u8]
    } else {
        seq![(v % 128 + 128) as u8] + varint(v / 128)
    }
}

/// `b` preceded by its length as a varint.
pub open spec fn length_value(b: Seq<u8>) -> Seq<u8> {
    varint(b.len()) + b
}

/// `128` to the power `k`.
pub open spec fn pow128(k: nat) -> nat
    decreases k,
{
    if k == 0 {
        1
    } else {
        128 * pow128((k - 1) as nat)
    }
}

/// The most key bits that an RSA zqlu key holds, half of `isize::MAX`: the key
/// read can then be written as OpenSSH text, for which `ssh_key` sets aside
/// four bytes for every three of key data in one allocation, which may not
/// pass `isize::MAX` bytes.
pub open spec fn rsa_bits_limit() -> nat {
    (isize::MAX / 2) as nat
}

/// Reads a varint from the front of `s`: its value and its length in bytes,
/// or `None` where `s` ends before the varint does.
pub open spec fn varint_decode(s: Seq<u8>) -> Option<(nat, nat)>
    decreases s.len(),
{
    if s.len() == 0 {
        None
    } else if s[0] < 128 {
        Some((s[0] as nat, 1))
    } else {
        match varint_decode(s.subrange(1, s.len() as int)) {
            Some((v, k)) => Some((((s[0] - 128) + 128 * v) as nat, k + 1)),
            None => None,
        }
    }
}

/// The public exponent 65537.
pub open spec fn rsa_f4() -> Seq<u8> {
    seq![1u8, 0u8, 1u8]
}

/// The key type of an RSA key with exponent 65537 and a modulus of `len`
/// bytes, where one is set aside for it.
pub open spec fn rsa_fixed_type(len: nat) -> Option<ZqluKeyType> {
    if len == 256 {
        Some(ZqluKeyType::Rsa2048)
    } else if len == 384 {
        Some(ZqluKeyType::Rsa3072)
    } else if len == 512 {
        Some(ZqluKeyType::Rsa4096)
    } else {
        None
    }
}

/// The modulus length in bytes that an RSA key type other than the exotic one
/// records.
pub open spec fn rsa_modulus_size(t: ZqluKeyType) -> Option<nat> {
    match t {
        ZqluKeyType::Rsa2048 => Some(256),
        ZqluKeyType::Rsa3072 => Some(384),
        ZqluKeyType::Rsa4096 => Some(512),
        _ => None,
    }
}

/// The key bits and key type written for an RSA key whose exponent and
/// modulus have the positive big-endian bytes `e` and `n`.
pub open spec fn rsa_bits(e: Seq<u8>, n: Seq<u8>) -> (Seq<u8>, ZqluKeyType) {
    if e == rsa_f4() && rsa_fixed_type(n.len()) is Some {
        (n, rsa_fixed_type(n.len())->0)
    } else {
        (length_value(e) + length_value(n), ZqluKeyType::RsaExotic)
    }
}

/// The exponent and modulus bytes of the key bits of an exotic RSA key: two
/// varint lengths, each followed by that many bytes, and nothing after.
pub open spec fn rsa_exotic_parts(bits: Seq<u8>) -> Option<(Seq<u8>, Seq<u8>)> {
    match varint_decode(bits) {
        None => None,
        Some((le, k1)) => if k1 + le > bits.len() {
            None
        } else {
            let rest = bits.subrange((k1 + le) as int, bits.len() as int);
            match varint_decode(rest) {
                None => None,
                Some((ln, k2)) => if k2 + ln != rest.len() {
                    None
                } else {
                    Some(
                        (
                            bits.subrange(k1 as int, (k1 + le) as int),
                            rest.subrange(k2 as int, rest.len() as int),
                        ),
                    )
                },
            }
        },
    }
}

/// Stripping leading zeros leaves a suffix that is empty or starts with a
/// non-zero byte; it is empty exactly when every byte is zero.
pub proof fn lemma_strip_leading_zeros(b: Seq<u8>)
    ensures
        strip_leading_zeros(b).len() <= b.len(),
        strip_leading_zeros(b) =~= b.subrange(
            b.len() - strip_leading_zeros(b).len(),
            b.len() as int,
        ),
        strip_leading_zeros(b).len() > 0 ==> strip_leading_zeros(b)[0] != 0,
        strip_leading_zeros(b).len() == 0 <==> forall|i: int| 0 <= i < b.len() ==> b[i] == 0,
    decreases b.len(),
{
    if b.len() > 0 && b[0] == 0 {
        let t = b.subrange(1, b.len() as int);
        lemma_strip_leading_zeros(t);
        if strip_leading_zeros(b).len() == 0 {
            assert forall|i: int| 0 <= i < b.len() implies b[i] == 0 by {
                if i > 0 {
                    assert(b[i] == t[i - 1]);
                }
            }
        }
        if forall|i: int| 0 <= i < b.len() ==> b[i] == 0 {
            assert forall|i: int| 0 <= i < t.len() implies t[i] == 0 by {
                assert(t[i] == b[i + 1]);
            }
        }
    } else if b.len() > 0 {
        assert(!(forall|i: int| 0 <= i < b.len() ==> b[i] == 0)) by {
            assert(b[0] != 0);
        }
    }
}

/// The mpint made of positive bytes is one that `ssh_key` holds, at most one
/// byte longer, and gives back the bytes without their leading zeros; it is
/// empty, the number zero, exactly when every byte is zero.
pub proof fn lemma_mpint_of_positive(b: Seq<u8>)
    ensures
        mpint_canonical(mpint_of_positive(b)),
        mpint_of_positive(b).len() <= b.len() + 1,
        mpint_of_positive(b).len() == 0 <==> strip_leading_zeros(b).len() == 0,
        strip_leading_zeros(b).len() > 0 ==> mpint_positive_bytes(mpint_of_positive(b)) == Some(
            strip_leading_zeros(b),
        ),
{
    lemma_strip_leading_zeros(b);
    let s = strip_leading_zeros(b);
    if s.len() > 0 && s[0] >= 0x80 {
        let m = seq![0u8] + s;
        assert(m.subrange(1, m.len() as int) =~= s);
    }
}

/// A positive mpint that `ssh_key` holds is made again from its positive
/// bytes, which have no leading zero.
pub proof fn lemma_mpint_positive_roundtrip(m: Seq<u8>)
    requires
        mpint_canonical(m),
        mpint_positive_bytes(m) is Some,
    ensures
        mpint_of_positive(mpint_positive_bytes(m)->0) == m,
        strip_leading_zeros(mpint_positive_bytes(m)->0) == mpint_positive_bytes(m)->0,
        mpint_positive_bytes(m)->0.len() > 0,
{
    let p = mpint_positive_bytes(m)->0;
    if m[0] == 0 {
        assert(p[0] == m[1]);
        assert(seq![0u8] + p =~= m);
    }
}

/// A varint is read back, whatever follows it.
pub proof fn lemma_varint_decode(v: nat, rest: Seq<u8>)
    ensures
        varint_decode(varint(v) + rest) == Some((v, varint(v).len())),
    decreases v,
{
    let s = varint(v) + rest;
    if v >= 128 {
        lemma_fundamental_div_mod(v as int, 128);
        lemma_varint_decode(v / 128, rest);
        assert(s.subrange(1, s.len() as int) =~= varint(v / 128) + rest);
        assert(s[0] == (v % 128 + 128) as u8);
    }
}

/// A varint of a number below `128` to the power `k` takes at most `k` bytes.
pub proof fn lemma_varint_len(v: nat, k: nat)
    requires
        k >= 1,
        v < pow128(k),
    ensures
        varint(v).len() <= k,
    decreases v,
{
    if v >= 128 {
        assert(pow128(k) == 128 * pow128((k - 1) as nat));
        if k == 1 {
            assert(pow128(0) == 1);
        }
        assert(v / 128 < pow128((k - 1) as nat)) by (nonlinear_arith)
            requires
                v < 128 * pow128((k - 1) as nat),
        ;
        lemma_varint_len(v / 128, (k - 1) as nat);
    }
}

/// A larger number takes at least as many varint bytes.
pub proof fn lemma_varint_len_monotone(a: nat, b: nat)
    requires
        a <= b,
    ensures
        varint(a).len() <= varint(b).len(),
    decreases b,
{
    if a >= 128 {
        lemma_varint_len_monotone(a / 128, b / 128);
    }
}

/// A varint read from bytes is written back in no more bytes than it was
/// read from, which are at least one and at most all of them.
pub proof fn lemma_varint_decode_bounds(s: Seq<u8>)
    requires
        varint_decode(s) is Some,
    ensures
        varint_decode(s) matches Some((v, k)) && 1 <= k <= s.len() && varint(v).len() <= k,
    decreases s.len(),
{
    if s[0] >= 128 {
        let t = s.subrange(1, s.len() as int);
        lemma_varint_decode_bounds(t);
        let (w, _) = varint_decode(t)->0;
        let v = ((s[0] - 128) + 128 * w) as nat;
        if v >= 128 {
            assert(v / 128 == w) by (nonlinear_arith)
                requires
                    v == (s[0] - 128) + 128 * w,
                    0 <= s[0] - 128 < 128,
            ;
        }
    }
}

/// The key bits written for an exotic RSA key give back its exponent and
/// modulus bytes.
pub proof fn lemma_rsa_exotic_roundtrip(e: Seq<u8>, n: Seq<u8>)
    ensures
        rsa_exotic_parts(length_value(e) + length_value(n)) == Some((e, n)),
{
    let bits = length_value(e) + length_value(n);
    let ve = varint(e.len());
    let vn = varint(n.len());
    assert(bits =~= ve + (e + length_value(n)));
    lemma_varint_decode(e.len(), e + length_value(n));
    let k1 = ve.len();
    let rest = bits.subrange((k1 + e.len()) as int, bits.len() as int);
    assert(rest =~= vn + n);
    assert(bits.subrange(k1 as int, (k1 + e.len()) as int) =~= e);
    lemma_varint_decode(n.len(), n);
    assert((vn + n).subrange(vn.len() as int, (vn + n).len() as int) =~= n);
}

} // verus!

verus! {

/// The big-endian bytes of a positive mpint, without its sign byte
/// (`ssh_key::Mpint::as_positive_bytes`, on the bytes of the mpint).
pub fn positive_bytes(m: &[u8]) -> (r: Option<&[u8]>)
    ensures
        match mpint_positive_bytes(m@) {
            Some(b) => r matches Some(s) && s@ == b,
            None => r is None,
        },
{
    if m.len() >= 1 && m[0] == 0 {
        Some(&m[1..m.len()])
    } else if m.len() >= 1 && m[0] < 0x80 {
        Some(m)
    } else {
        None
    }
}

/// Bytes that all have the top bit set hold no whole varint.
proof fn lemma_varint_unterminated(s: Seq<u8>)
    requires
        forall|j: int| 0 <= j < s.len() ==> s[j] >= 128,
    ensures
        varint_decode(s) is None,
    decreases s.len(),
{
    if s.len() > 0 {
        let t = s.subrange(1, s.len() as int);
        assert forall|j: int| 0 <= j < t.len() implies t[j] >= 128 by {
            assert(t[j] == s[j + 1]);
        }
        lemma_varint_unterminated(t);
    }
}

/// Reading a varint from earlier in bytes whose top bits are set up to a
/// point gives a value at least as large.
proof fn lemma_varint_grows(s: Seq<u8>, j: int, i: int)
    requires
        0 <= j <= i <= s.len(),
        forall|m: int| j <= m < i ==> s[m] >= 128,
        varint_decode(s.subrange(i, s.len() as int)) is Some,
    ensures
        varint_decode(s.subrange(i, s.len() as int)) matches Some((vi, ki)) && varint_decode(
            s.subrange(j, s.len() as int),
        ) matches Some((vj, kj)) && vj >= vi && kj == ki + (i - j),
    decreases i - j,
{
    if j < i {
        lemma_varint_grows(s, j + 1, i);
        let t = s.subrange(j, s.len() as int);
        assert(t.subrange(1, t.len() as int) =~= s.subrange(j + 1, s.len() as int));
        assert(t[0] == s[j]);
    }
}

/// Reads a varint from the front of `s` whose value is at most `bound`: its
/// value and its length; `None` where `s` ends before the varint does or the
/// value is larger.
pub fn read_varint(s: &[u8], bound: usize) -> (r: Option<(usize, usize)>)
    ensures
        match varint_decode(s@) {
            Some((v, k)) => if v <= bound {
                r == Some((v as usize, k as usize))
            } else {
                r is None
            },
            None => r is None,
        },
{
    let n = s.len();
    let mut k: usize = 0;
    while k < n && s[k] >= 128
        invariant
            k <= n,
            n == s@.len(),
            forall|j: int| 0 <= j < k ==> s@[j] >= 128,
        decreases n - k,
    {
        k = k + 1;
    }
    if k == n {
        proof {
            lemma_varint_unterminated(s@);
        }
        return None;
    }
    let mut v: usize = s[k] as usize;
    let mut i: usize = k;
    assert(s@.subrange(k as int, n as int)[0] == s@[k as int]);
    if v > bound {
        proof {
            lemma_varint_grows(s@, 0, k as int);
            assert(s@.subrange(0, n as int) =~= s@);
        }
        return None;
    }
    while i > 0
        invariant
            i <= k < n,
            n == s@.len(),
            forall|j: int| 0 <= j < k ==> s@[j] >= 128,
            varint_decode(s@.subrange(i as int, n as int)) == Some((v as nat, (k + 1 - i) as nat)),
            v <= bound,
        decreases i,
    {
        let b = s[i - 1];
        let low = (b - 128) as usize;
        let ghost t = s@.subrange(i - 1, n as int);
        assert(t.subrange(1, t.len() as int) =~= s@.subrange(i as int, n as int));
        assert(t[0] == b);
        if low > bound || v > (bound - low) / 128 {
            proof {
                if low <= bound {
                    let x = (bound - low) as int;
                    lemma_fundamental_div_mod(x, 128);
                }
                assert(low + 128 * v > bound);
                lemma_varint_grows(s@, 0, i - 1);
                assert(s@.subrange(0, n as int) =~= s@);
            }
            return None;
        }
        proof {
            let x = (bound - low) as int;
            lemma_fundamental_div_mod(x, 128);
        }
        v = low + 128 * v;
        i = i - 1;
    }
    assert(s@.subrange(0, n as int) =~= s@);
    Some((v, k + 1))
}

/// The exponent and modulus bytes of the key bits of an exotic RSA key, which
/// the varints of their lengths and they themselves take no more than.
pub fn read_rsa_parts(bits: &[u8]) -> (r: Option<(&[u8], &[u8])>)
    ensures
        match rsa_exotic_parts(bits@) {
            Some((e, n)) => r matches Some((a, b)) && a@ == e && b@ == n,
            None => r is None,
        },
        r matches Some((a, b)) ==> length_value(a@).len() + length_value(b@).len()
            <= bits@.len(),
{
    let (le, k1) = match read_varint(bits, bits.len()) {
        Some(p) => p,
        None => {
            proof {
                if varint_decode(bits@) is Some {
                    lemma_varint_decode_bounds(bits@);
                }
            }
            return None;
        },
    };
    proof {
        lemma_varint_decode_bounds(bits@);
    }
    if le > bits.len() - k1 {
        return None;
    }
    let e = &bits[k1..k1 + le];
    let rest = &bits[k1 + le..bits.len()];
    assert(rest@ =~= bits@.subrange((k1 + le) as int, bits@.len() as int));
    assert(e@ =~= bits@.subrange(k1 as int, (k1 + le) as int));
    let (ln, k2) = match read_varint(rest, rest.len()) {
        Some(p) => p,
        None => {
            proof {
                if varint_decode(rest@) is Some {
                    lemma_varint_decode_bounds(rest@);
                }
            }
            return None;
        },
    };
    proof {
        lemma_varint_decode_bounds(rest@);
    }
    if ln != rest.len() - k2 {
        return None;
    }
    let n = &rest[k2..rest.len()];
    assert(n@ =~= rest@.subrange(k2 as int, rest@.len() as int));
    Some((e, n))
}

/// A length is written seven bits a byte, lowest first: a length below 128 as
/// one byte, and one below 16384 as its low seven bits with the top bit set,
/// then the rest.
pub proof fn lemma_varint_layout(v: nat)
    ensures
        v < 128 ==> varint(v) == seq![v as u8],
        128 <= v < 16384 ==> varint(v) == seq![(v % 128 + 128) as u8, (v / 128) as u8],
{
    if 128 <= v < 16384 {
        assert(v / 128 < 128) by (nonlinear_arith)
            requires
                v < 16384,
        ;
        assert(varint(v / 128) == seq![(v / 128) as u8]);
        assert(varint(v) =~= seq![(v % 128 + 128) as u8, (v / 128) as u8]);
    }
}

} // verus!
