//! Reading zqlu keys, and reading a public key in any of the formats that
//! the library accepts.

use crate::base62::{decode, lemma_white_space_ignored, spec_decode};
use crate::checksum::{checksum_matches, validate_crc};
use crate::convert::{zqlu_encoding, zqlu_roundtrips};
use crate::curve::{
    canonical_point, decompress_p256, decompress_p384, decompress_p521, decompressed_point,
    uncompressed_point_of, y_is_even,
};
use crate::error::{invalid_input, ZqluError, ZqluErrorView};
use crate::key::{
    coordinate_size, ecdsa_key, ed25519_key, key_well_formed, openssh_writable, rsa_key, sec1_curve, uncommented,
    KeyMaterial, KeyMaterialView, SshKey, SshKeyView,
};
use crate::key_type::{
    ecdsa_key_type, is_even_type, key_type_char, key_type_of_char, lemma_ecdsa_key_type_parity,
    lemma_key_type_char, EcdsaCurve,
    ZqluKeyType,
};
use crate::rsa::{
    length_value, lemma_mpint_of_positive, lemma_strip_leading_zeros, lemma_varint_len,
    lemma_varint_len_monotone, mpint_of_positive, pow128, read_rsa_parts, rsa_bits_limit,
    rsa_exotic_parts, rsa_f4, strip_leading_zeros,
    rsa_modulus_size,
};
use crate::text::{chars_of, has_prefix, starts_with};
use vstd::prelude::*;
use vstd::string::{StrSliceExecFns, StringExecFns};

verus! {

/// Whether `c` may stand in the key data of a zqlu key: an ASCII letter or
/// digit, or ASCII white space (space, tab, line feed, form feed, carriage
/// return).
pub open spec fn is_key_char(c: char) -> bool {
    let u = c as u32;
    ||| 48 <= u <= 57
    ||| 65 <= u <= 90
    ||| 97 <= u <= 122
    ||| u == 32
    ||| u == 9
    ||| u == 10
    ||| u == 12
    ||| u == 13
}

/// Whether every character after the key type character may stand in key data.
pub open spec fn key_chars_valid(s: Seq<char>) -> bool {
    forall|i: int| 6 <= i < s.len() ==> is_key_char(#[trigger] s[i])
}

/// The Base62 text of a zqlu key: what follows `zq.lu` and the type character.
pub open spec fn key_text(s: Seq<char>) -> Seq<char> {
    s.subrange(6, s.len() as int)
}

/// The key type that a text names, if it is long enough and names one.
pub open spec fn text_key_type(s: Seq<char>) -> Option<ZqluKeyType> {
    if s.len() <= 5 {
        None
    } else {
        key_type_of_char(s[5])
    }
}

/// The ECDSA key on `curve` whose compressed form is `x` and a parity.
pub open spec fn ecdsa_from_bits(
    curve: EcdsaCurve,
    x: Seq<u8>,
    even: bool,
    length_message: Seq<char>,
) -> Result<SshKeyView, ZqluErrorView> {
    if x.len() != coordinate_size(curve) {
        Err(ZqluErrorView::InvalidInput(length_message))
    } else {
        match decompressed_point(curve, x, even) {
            None => Err(ZqluErrorView::InvalidInput("Invalid key data"@)),
            Some(p) => Ok(uncommented(KeyMaterialView::Ecdsa(curve, p))),
        }
    }
}

/// The key that the key bits of a zqlu key of type `t` stand for.
pub open spec fn key_from_bits(key: Seq<u8>, t: ZqluKeyType) -> Result<SshKeyView, ZqluErrorView> {
    match t {
        ZqluKeyType::Ed25519 => if key.len() != 32 {
            Err(ZqluErrorView::InvalidInput("Invalid Ed25519 key length"@))
        } else {
            Ok(uncommented(KeyMaterialView::Ed25519(key)))
        },
        ZqluKeyType::P256Odd | ZqluKeyType::P256Even => ecdsa_from_bits(
            EcdsaCurve::NistP256,
            key,
            is_even_type(t),
            "Invalid P256 key length"@,
        ),
        ZqluKeyType::P384Odd | ZqluKeyType::P384Even => ecdsa_from_bits(
            EcdsaCurve::NistP384,
            key,
            is_even_type(t),
            "Invalid P384 key length"@,
        ),
        ZqluKeyType::P521Odd | ZqluKeyType::P521Even => ecdsa_from_bits(
            EcdsaCurve::NistP521,
            key,
            is_even_type(t),
            "Invalid P521 key length"@,
        ),
        ZqluKeyType::Rsa2048 | ZqluKeyType::Rsa3072 | ZqluKeyType::Rsa4096 => if key.len()
            != rsa_modulus_size(t)->0 {
            Err(ZqluErrorView::InvalidInput("Invalid RSA key length"@))
        } else {
            rsa_from_parts(rsa_f4(), key)
        },
        ZqluKeyType::RsaExotic => if key.len() > rsa_bits_limit() {
            Err(ZqluErrorView::InvalidInput("Invalid RSA key data"@))
        } else {
            match rsa_exotic_parts(key) {
                None => Err(ZqluErrorView::InvalidInput("Invalid RSA key data"@)),
                Some((e, n)) => rsa_from_parts(e, n),
            }
        },
        ZqluKeyType::EXT => Err(ZqluErrorView::UnsupportedKeyType),
    }
}

/// The RSA key whose exponent and modulus have the big-endian bytes `e` and
/// `n`; neither may be zero.
pub open spec fn rsa_from_parts(e: Seq<u8>, n: Seq<u8>) -> Result<SshKeyView, ZqluErrorView> {
    if mpint_of_positive(e).len() == 0 {
        Err(ZqluErrorView::InvalidInput("RSA exponent must be positive"@))
    } else if mpint_of_positive(n).len() == 0 {
        Err(ZqluErrorView::InvalidInput("RSA modulus must be positive"@))
    } else {
        Ok(uncommented(KeyMaterialView::Rsa(mpint_of_positive(e), mpint_of_positive(n))))
    }
}

/// Whether key bits are of the kind that the key type `t` names: for ECDSA,
/// the curve and the parity of the y coordinate of the point.
pub open spec fn key_of_type(m: KeyMaterialView, t: ZqluKeyType) -> bool {
    match m {
        KeyMaterialView::Ed25519(_) => t == ZqluKeyType::Ed25519,
        KeyMaterialView::Ecdsa(curve, p) => t == ecdsa_key_type(curve, y_is_even(p)),
        KeyMaterialView::Rsa(..) => t == ZqluKeyType::Rsa2048 || t == ZqluKeyType::Rsa3072 || t
            == ZqluKeyType::Rsa4096 || t == ZqluKeyType::RsaExotic,
        KeyMaterialView::Other(_) => false,
    }
}

/// The key type letter of a zqlu key with an ECDSA key names its curve and
/// records the parity of the y coordinate of its point: `C`, `E`, `G` odd,
/// `D`, `F`, `H` even.
pub proof fn lemma_ecdsa_type_records_parity(m: KeyMaterialView, t: ZqluKeyType)
    requires
        key_of_type(m, t),
        m is Ecdsa,
    ensures
        m matches KeyMaterialView::Ecdsa(curve, p) && t == ecdsa_key_type(curve, y_is_even(p))
            && is_even_type(t) == y_is_even(p),
{
    if let KeyMaterialView::Ecdsa(curve, p) = m {
        lemma_ecdsa_key_type_parity(curve, y_is_even(p));
    }
}

/// The key bits of a zqlu text: its Base62 text decoded, without the two
/// checksum bytes at its end.
pub open spec fn zqlu_key_bits(s: Seq<char>) -> Seq<u8> {
    let kc = spec_decode(key_text(s));
    kc.subrange(0, kc.len() - 2)
}

/// The key that a zqlu text stands for, or the error that reading it gives.
pub open spec fn zqlu_decode(s: Seq<char>) -> Result<SshKeyView, ZqluErrorView> {
    if !has_prefix(s, "zq.lu"@) {
        Err(ZqluErrorView::InvalidInput("Input must start with 'zq.lu'"@))
    } else if s.len() <= 5 {
        Err(ZqluErrorView::InvalidInput("Input is too short to contain a key type"@))
    } else {
        match text_key_type(s) {
            None => Err(ZqluErrorView::UnsupportedKeyType),
            Some(t) => if !key_chars_valid(s) {
                Err(ZqluErrorView::InvalidInput("Invalid character in Zqlu key"@))
            } else {
                let kc = spec_decode(key_text(s));
                if !checksum_matches(t, kc) {
                    Err(ZqluErrorView::InvalidInput("Invalid CRC"@))
                } else {
                    key_from_bits(kc.subrange(0, kc.len() - 2), t)
                }
            },
        }
    }
}

/// ASCII white space (space, tab, line feed, form feed, carriage return)
/// anywhere after the key type character changes nothing in how a zqlu key
/// is read: a key can be split over lines or indented.
pub proof fn lemma_zqlu_white_space_ignored(s: Seq<char>, i: int, w: char)
    requires
        6 <= i <= s.len(),
        w == ' ' || w == '\t' || w == '\n' || w == '\x0C' || w == '\r',
    ensures
        zqlu_decode(s.insert(i, w)) == zqlu_decode(s),
{
    reveal_strlit("zq.lu");
    let t = s.insert(i, w);
    assert(t.subrange(0, 5) =~= s.subrange(0, 5));
    assert(t[5] == s[5]);
    assert(text_key_type(t) == text_key_type(s));
    assert(is_key_char(w));
    assert(key_text(t) =~= key_text(s).insert(i - 6, w));
    lemma_white_space_ignored(key_text(s), i - 6, w);
    assert forall|j: int| 6 <= j < t.len() && key_chars_valid(s) implies is_key_char(#[trigger] t[j]) by {
        if j < i {
            assert(t[j] == s[j]);
        } else if j > i {
            assert(t[j] == s[j - 1]);
        }
    }
    if key_chars_valid(t) {
        assert forall|j: int| 6 <= j < s.len() implies is_key_char(#[trigger] s[j]) by {
            if j < i {
                assert(t[j] == s[j]);
            } else {
                assert(t[j + 1] == s[j]);
            }
        }
    }
}

/// A zqlu key: its text and the public key it stands for.
#[derive(Debug)]
pub struct Zqlu {
    text: String,
    key: SshKey,
}

/// The mathematical value of a [`Zqlu`].
pub struct ZqluView {
    pub text: Seq<char>,
    pub key: SshKeyView,
}

impl View for Zqlu {
    type V = ZqluView;

    closed spec fn view(&self) -> ZqluView {
        ZqluView { text: self.text@, key: self.key@ }
    }
}

/// The text of a zqlu key reads back as its key.
pub open spec fn zqlu_valid(z: ZqluView) -> bool {
    zqlu_decode(z.text) == Ok::<SshKeyView, ZqluErrorView>(z.key)
}

impl Zqlu {
    #[verifier::type_invariant]
    spec fn inv(self) -> bool {
        &&& zqlu_valid(self@)
        &&& key_well_formed(self@.key)
        &&& zqlu_roundtrips(self@.key.material)
        &&& openssh_writable(self@.key)
        &&& key_of_type(self@.key.material, text_key_type(self@.text)->0)
    }

    /// Reads a zqlu key from its text.
    pub fn new(input: &str) -> (r: Result<Self, ZqluError>)
        ensures
            match r {
                Ok(z) => {
                    &&& z@.text == input@
                    &&& zqlu_decode(input@) == Ok::<SshKeyView, ZqluErrorView>(z@.key)
                    &&& key_well_formed(z@.key)
                    &&& zqlu_roundtrips(z@.key.material)
                    &&& openssh_writable(z@.key)
                    &&& key_of_type(z@.key.material, text_key_type(input@)->0)
                    &&& z@.key.material matches KeyMaterialView::Ecdsa(c, p)
                        ==> uncompressed_point_of(
                        c,
                        p,
                        zqlu_key_bits(input@),
                        is_even_type(text_key_type(input@)->0),
                    )
                },
                Err(e) => zqlu_decode(input@) == Err::<SshKeyView, ZqluErrorView>(e@),
            },
    {
        if !starts_with(input, "zq.lu") {
            return Err(invalid_input("Input must start with 'zq.lu'"));
        }
        let key_type = match try_get_type(input) {
            Ok(t) => t,
            Err(e) => return Err(e),
        };
        let chars = chars_of(input);
        let n = chars.len();
        let mut i: usize = 6;
        while i < n
            invariant
                n == input@.len(),
                chars@ == input@,
                6 <= i <= n,
                has_prefix(input@, "zq.lu"@),
                text_key_type(input@) == Some(key_type),
                forall|j: int| 6 <= j < i ==> is_key_char(#[trigger] input@[j]),
            decreases n - i,
        {
            if !is_key_char_exec(chars[i]) {
                proof {
                    assert(!is_key_char(input@[i as int]));
                }
                return Err(invalid_input("Invalid character in Zqlu key"));
            }
            i = i + 1;
        }
        proof {
            assert(key_chars_valid(input@));
            assert(chars@[5] == input@[5]);
        }
        let text = input.substring_char(6, n);
        let key_and_checksum = decode(text);
        match validate_crc(key_type, key_and_checksum.as_slice()) {
            Ok(()) => {},
            Err(e) => return Err(e),
        }
        let len = key_and_checksum.len();
        let key = &key_and_checksum.as_slice()[0..len - 2];
        assert(key@ == zqlu_key_bits(input@));
        let public_key = match to_public_key(key, key_type) {
            Ok(k) => k,
            Err(e) => return Err(e),
        };
        Ok(Zqlu { text: String::from_str(input), key: public_key })
    }

    /// Writes a public key as a zqlu key.
    pub fn from_public_key(public_key: &SshKey) -> (r: Result<Zqlu, ZqluError>)
        ensures
            match zqlu_encoding(public_key@.material) {
                Ok((text, k)) => r matches Ok(z) && z@.text == text && z@.key == k,
                Err(e) => r matches Err(err) && err@ == e,
            },
    {
        crate::convert::from_public_key(public_key)
    }

    /// The key type of this key.
    pub fn get_key_type(&self) -> (t: ZqluKeyType)
        ensures
            text_key_type(self@.text) == Some(t),
            self@.text.len() > 5 && self@.text[5] == key_type_char(t),
            key_of_type(self@.key.material, t),
    {
        proof {
            use_type_invariant(self);
            lemma_key_type_char(self@.text[5], text_key_type(self@.text)->0);
        }
        match try_get_type(self.text.as_str()) {
            Ok(t) => t,
            Err(_) => {
                proof {
                    assert(false);
                }
                ZqluKeyType::EXT
            },
        }
    }

    /// The public key that this zqlu key stands for.
    pub fn public_key(&self) -> (k: &SshKey)
        ensures
            k@ == self@.key,
            zqlu_valid(self@),
            key_well_formed(k@),
            zqlu_roundtrips(k@.material),
            openssh_writable(k@),
    {
        proof {
            use_type_invariant(self);
        }
        &self.key
    }

    /// The text of this zqlu key.
    pub fn to_string(&self) -> (s: String)
        ensures
            s@ == self@.text,
    {
        self.text.clone()
    }

    /// Gives up the zqlu text and keeps the public key.
    pub fn into_public_key(self) -> (k: SshKey)
        ensures
            k@ == self@.key,
            key_well_formed(k@),
            zqlu_roundtrips(k@.material),
            openssh_writable(k@),
    {
        proof {
            use_type_invariant(&self);
        }
        let Zqlu { text: _, key } = self;
        key
    }
}

impl PartialEq<&str> for Zqlu {
    fn eq(&self, other: &&str) -> (r: bool) {
        let text = self.text.as_str();
        if text.unicode_len() != other.unicode_len() {
            return false;
        }
        assert(text@.subrange(0, other@.len() as int) =~= text@);
        starts_with(text, other)
    }
}

impl vstd::std_specs::cmp::PartialEqSpecImpl<&str> for Zqlu {
    open spec fn obeys_eq_spec() -> bool {
        true
    }

    open spec fn eq_spec(&self, other: &&str) -> bool {
        self@.text == (*other)@
    }
}

/// Whether `c` may stand in the key data of a zqlu key.
fn is_key_char_exec(c: char) -> (r: bool)
    ensures
        r == is_key_char(c),
{
    let u = c as u32;
    (48 <= u && u <= 57) || (65 <= u && u <= 90) || (97 <= u && u <= 122) || u == 32 || u == 9
        || u == 10 || u == 12 || u == 13
}

/// Reads the key type character, the sixth character of `input`.
fn try_get_type(input: &str) -> (r: Result<ZqluKeyType, ZqluError>)
    ensures
        input@.len() <= 5 ==> (r matches Err(e) && e@ == ZqluErrorView::InvalidInput(
            "Input is too short to contain a key type"@,
        )),
        input@.len() > 5 ==> match key_type_of_char(input@[5]) {
            Some(t) => r == Ok::<ZqluKeyType, ZqluError>(t),
            None => (r matches Err(e) && e@ == ZqluErrorView::UnsupportedKeyType),
        },
{
    if input.unicode_len() <= 5 {
        return Err(invalid_input("Input is too short to contain a key type"));
    }
    let c = input.get_char(5) as u32;
    if c >= 128 {
        return Err(ZqluError::UnsupportedKeyType);
    }
    match ZqluKeyType::try_from_primitive(c as u8) {
        Some(t) => Ok(t),
        None => Err(ZqluError::UnsupportedKeyType),
    }
}

/// The uncompressed point on `curve` with x coordinate `x` and a y coordinate
/// of the given parity.
fn decompress(curve: EcdsaCurve, x: &[u8], y_is_even: bool) -> (r: Result<Vec<u8>, ZqluError>)
    requires
        x@.len() == coordinate_size(curve),
    ensures
        match decompressed_point(curve, x@, y_is_even) {
            Some(p) => r matches Ok(q) && q@ == p && sec1_curve(p) == Some(curve)
                && canonical_point(curve, p) && uncompressed_point_of(curve, p, x@, y_is_even),
            None => r matches Err(e) && e@ == ZqluErrorView::InvalidInput("Invalid key data"@),
        },
{
    let point = match curve {
        EcdsaCurve::NistP256 => decompress_p256(x, y_is_even),
        EcdsaCurve::NistP384 => decompress_p384(x, y_is_even),
        EcdsaCurve::NistP521 => decompress_p521(x, y_is_even),
    };
    match point {
        Some(p) => Ok(p),
        None => Err(invalid_input("Invalid key data")),
    }
}

/// The ECDSA key on `curve` with compressed form `x` and a parity.
fn ecdsa_public_key(curve: EcdsaCurve, x: &[u8], even: bool, length_message: &str) -> (r: Result<
    SshKey,
    ZqluError,
>)
    ensures
        match ecdsa_from_bits(curve, x@, even, length_message@) {
            Ok(k) => r matches Ok(key) && key@ == k && key_well_formed(k) && zqlu_roundtrips(
                k.material,
            ) && openssh_writable(k),
            Err(e) => r matches Err(err) && err@ == e,
        },
        r matches Ok(k) ==> k@.material matches KeyMaterialView::Ecdsa(c, p) && c == curve
            && uncompressed_point_of(curve, p, x@, even),
        r matches Ok(k) ==> key_of_type(k@.material, ecdsa_key_type(curve, even)),
{
    if x.len() != coordinate_size_exec(curve) {
        return Err(invalid_input(length_message));
    }
    let point = match decompress(curve, x, even) {
        Ok(p) => p,
        Err(e) => return Err(e),
    };
    proof {
        let n = coordinate_size(curve);
        assert(point@.last() == point@[2 * n as int]);
    }
    match ecdsa_key(point.as_slice()) {
        Ok(k) => Ok(k),
        Err(_) => {
            proof {
                assert(false);
            }
            Err(invalid_input("Invalid key data"))
        },
    }
}

/// The size in bytes of a coordinate of a point on `curve`.
fn coordinate_size_exec(curve: EcdsaCurve) -> (n: usize)
    ensures
        n == coordinate_size(curve),
{
    match curve {
        EcdsaCurve::NistP256 => 32,
        EcdsaCurve::NistP384 => 48,
        EcdsaCurve::NistP521 => 66,
    }
}

/// The public key that the key bits of a zqlu key of type `key_type` stand
/// for; for ECDSA, a point whose x coordinate is the key bits.
fn to_public_key(key: &[u8], key_type: ZqluKeyType) -> (r: Result<SshKey, ZqluError>)
    ensures
        match key_from_bits(key@, key_type) {
            Ok(k) => r matches Ok(key) && key@ == k && key_well_formed(k) && zqlu_roundtrips(
                k.material,
            ) && openssh_writable(k),
            Err(e) => r matches Err(err) && err@ == e,
        },
        r matches Ok(k) ==> key_of_type(k@.material, key_type),
        r matches Ok(k) ==> (k@.material matches KeyMaterialView::Ecdsa(c, p) ==> uncompressed_point_of(
            c,
            p,
            key@,
            is_even_type(key_type),
        )),
{
    let even = key_type.even();
    match key_type {
        ZqluKeyType::Ed25519 => {
            if key.len() != 32 {
                return Err(invalid_input("Invalid Ed25519 key length"));
            }
            match ed25519_key(key) {
                Ok(k) => Ok(k),
                Err(_) => Err(invalid_input("Invalid Ed25519 key")),
            }
        },
        ZqluKeyType::P256Odd | ZqluKeyType::P256Even => ecdsa_public_key(
            EcdsaCurve::NistP256,
            key,
            even,
            "Invalid P256 key length",
        ),
        ZqluKeyType::P384Odd | ZqluKeyType::P384Even => ecdsa_public_key(
            EcdsaCurve::NistP384,
            key,
            even,
            "Invalid P384 key length",
        ),
        ZqluKeyType::P521Odd | ZqluKeyType::P521Even => ecdsa_public_key(
            EcdsaCurve::NistP521,
            key,
            even,
            "Invalid P521 key length",
        ),
        ZqluKeyType::Rsa2048 | ZqluKeyType::Rsa3072 | ZqluKeyType::Rsa4096 => {
            let size: usize = match key_type {
                ZqluKeyType::Rsa2048 => 256,
                ZqluKeyType::Rsa3072 => 384,
                _ => 512,
            };
            if key.len() != size {
                return Err(invalid_input("Invalid RSA key length"));
            }
            let f4: Vec<u8> = vec![1u8, 0u8, 1u8];
            assert(f4@ =~= rsa_f4());
            proof {
                reveal_with_fuel(pow128, 3);
                lemma_varint_len(3, 1);
                lemma_varint_len(key@.len(), 2);
            }
            rsa_public_key(f4.as_slice(), key)
        },
        ZqluKeyType::RsaExotic => {
            if key.len() > isize::MAX as usize / 2 {
                return Err(invalid_input("Invalid RSA key data"));
            }
            match read_rsa_parts(key) {
                Some((e, n)) => rsa_public_key(e, n),
                None => Err(invalid_input("Invalid RSA key data")),
            }
        },
        ZqluKeyType::EXT => Err(ZqluError::UnsupportedKeyType),
    }
}

/// The RSA key whose exponent and modulus have the big-endian bytes `e` and
/// `n`.
fn rsa_public_key(e: &[u8], n: &[u8]) -> (r: Result<SshKey, ZqluError>)
    requires
        length_value(e@).len() + length_value(n@).len() <= rsa_bits_limit(),
    ensures
        match rsa_from_parts(e@, n@) {
            Ok(k) => r matches Ok(key) && key@ == k && key_well_formed(k) && zqlu_roundtrips(
                k.material,
            ) && openssh_writable(k),
            Err(err) => r matches Err(x) && x@ == err,
        },
{
    let key = match rsa_key(e, n) {
        Ok(k) => k,
        Err(_) => {
            proof {
                assert(false);
            }
            return Err(invalid_input("Invalid RSA key data"));
        },
    };
    let (e_zero, n_zero) = match key.material() {
        KeyMaterial::Rsa { e, n } => (e.len() == 0, n.len() == 0),
        _ => (true, true),
    };
    proof {
        lemma_mpint_of_positive(e@);
        lemma_mpint_of_positive(n@);
        lemma_strip_leading_zeros(e@);
        lemma_strip_leading_zeros(n@);
        lemma_varint_len_monotone(strip_leading_zeros(e@).len(), e@.len());
        lemma_varint_len_monotone(strip_leading_zeros(n@).len(), n@.len());
    }
    if e_zero {
        return Err(invalid_input("RSA exponent must be positive"));
    }
    if n_zero {
        return Err(invalid_input("RSA modulus must be positive"));
    }
    Ok(key)
}

/// A zqlu key is read as the key its key bits hold, as they stand: an
/// Ed25519 key is the 32 key bits themselves, and an RSA key of a fixed size
/// has the exponent 65537 and the key bits as its modulus; the key type letter
/// says which.
pub proof fn lemma_zqlu_key_is_its_bits(s: Seq<char>)
    requires
        zqlu_decode(s) is Ok,
    ensures
        zqlu_decode(s) matches Ok(k) && k.comment.len() == 0 && match k.material {
            KeyMaterialView::Ed25519(b) => b == zqlu_key_bits(s) && b.len() == 32 && s[5] == 'A',
            KeyMaterialView::Rsa(e, n) => (s[5] == 'B' || s[5] == 'I' || s[5] == 'J') ==> (e
                == seq![1u8, 0u8, 1u8] && n == mpint_of_positive(zqlu_key_bits(s))),
            _ => true,
        },
{
    let t = text_key_type(s)->0;
    lemma_key_type_char(s[5], t);
    assert(seq![1u8, 0u8, 1u8][0] != 0);
    assert(strip_leading_zeros(seq![1u8, 0u8, 1u8]) == seq![1u8, 0u8, 1u8]);
}

} // verus!
