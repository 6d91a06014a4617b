//! Public keys: what the library reads of an SSH public key, and the calls
//! into `ssh_key` that make and print one.

use crate::key_type::EcdsaCurve;
use crate::rsa::{mpint_canonical, mpint_of_positive};
use ssh_key::public::KeyData;
use ssh_key::EcdsaCurve as SshCurve;
use crate::text::has_prefix;
use vstd::prelude::*;

verus! {

#[verifier::external_type_specification]
#[verifier::external_body]
pub struct ExSshPublicKey(ssh_key::PublicKey);

#[verifier::external_type_specification]
#[verifier::external_body]
pub struct ExSshError(ssh_key::Error);

/// The key bits of a public key, as the library reads them.
#[derive(Debug)]
pub enum KeyMaterial {
    /// An Ed25519 key: its 32 bytes.
    Ed25519(Vec<u8>),
    /// An ECDSA key: its curve and its point, SEC1-encoded.
    Ecdsa { curve: EcdsaCurve, sec1: Vec<u8> },
    /// An RSA key: its public exponent and its modulus, as SSH mpints.
    Rsa { e: Vec<u8>, n: Vec<u8> },
    /// A key of any other algorithm: its SSH wire encoding.
    Other(Vec<u8>),
}

/// The mathematical value of a [`KeyMaterial`].
pub enum KeyMaterialView {
    Ed25519(Seq<u8>),
    Ecdsa(EcdsaCurve, Seq<u8>),
    Rsa(Seq<u8>, Seq<u8>),
    Other(Seq<u8>),
}

impl View for KeyMaterial {
    type V = KeyMaterialView;

    open spec fn view(&self) -> KeyMaterialView {
        match self {
            KeyMaterial::Ed25519(b) => KeyMaterialView::Ed25519(b@),
            KeyMaterial::Ecdsa { curve, sec1 } => KeyMaterialView::Ecdsa(*curve, sec1@),
            KeyMaterial::Rsa { e, n } => KeyMaterialView::Rsa(e@, n@),
            KeyMaterial::Other(b) => KeyMaterialView::Other(b@),
        }
    }
}

/// An SSH public key: its key bits and its comment.
///
/// It carries the `ssh_key::PublicKey` it stands for, which `ssh_key` prints.
#[derive(Debug)]
pub struct SshKey {
    inner: ssh_key::PublicKey,
    material: KeyMaterial,
    comment: String,
}

/// The mathematical value of an [`SshKey`].
pub struct SshKeyView {
    pub material: KeyMaterialView,
    pub comment: Seq<char>,
}

impl View for SshKey {
    type V = SshKeyView;

    closed spec fn view(&self) -> SshKeyView {
        SshKeyView { material: self.material@, comment: self.comment@ }
    }
}

/// A key with the given key bits and no comment.
pub open spec fn uncommented(material: KeyMaterialView) -> SshKeyView {
    SshKeyView { material, comment: Seq::empty() }
}

/// The size in bytes of a coordinate of a point on `curve`.
pub open spec fn coordinate_size(curve: EcdsaCurve) -> nat {
    match curve {
        EcdsaCurve::NistP256 => 32,
        EcdsaCurve::NistP384 => 48,
        EcdsaCurve::NistP521 => 66,
    }
}

/// The curve whose coordinates take `size` bytes, if any.
pub open spec fn curve_of_size(size: int) -> Option<EcdsaCurve> {
    if size == 32 {
        Some(EcdsaCurve::NistP256)
    } else if size == 48 {
        Some(EcdsaCurve::NistP384)
    } else if size == 66 {
        Some(EcdsaCurve::NistP521)
    } else {
        None
    }
}

/// The curve of a well-formed SEC1 point of P-256, P-384 or P-521: a
/// compressed point (tag 2 or 3) holds one coordinate, an uncompressed point
/// (tag 4) two. `None` for anything else.
pub open spec fn sec1_curve(sec1: Seq<u8>) -> Option<EcdsaCurve> {
    if sec1.len() == 0 {
        None
    } else if sec1[0] == 2 || sec1[0] == 3 {
        curve_of_size(sec1.len() - 1)
    } else if sec1[0] == 4 && (sec1.len() - 1) % 2 == 0 {
        curve_of_size((sec1.len() - 1) / 2)
    } else {
        None
    }
}

/// Whether a key is one that `ssh_key` can hold: an Ed25519 key of 32 bytes,
/// an ECDSA point whose SEC1 tag and length fit its curve, or an RSA key of
/// two mpints with no needless leading zero, which together take 64 bytes less
/// than a string can hold at most.
pub open spec fn key_well_formed(k: SshKeyView) -> bool {
    match k.material {
        KeyMaterialView::Ed25519(b) => b.len() == 32,
        KeyMaterialView::Ecdsa(curve, sec1) => sec1_curve(sec1) == Some(curve),
        KeyMaterialView::Rsa(e, n) => mpint_canonical(e) && mpint_canonical(n) && e.len() + n.len()
            + 64 <= isize::MAX,
        KeyMaterialView::Other(_) => true,
    }
}

/// The key that `ssh_key::PublicKey::from_openssh` reads from an OpenSSH
/// text, `None` where it refuses the text.
pub uninterp spec fn openssh_public_key(text: Seq<char>) -> Option<SshKeyView>;

/// The OpenSSH text that `ssh_key::PublicKey::to_openssh` writes for a key.
pub uninterp spec fn openssh_text(key: SshKeyView) -> Seq<char>;

/// The SHA-256 fingerprint text that `ssh_key` gives for key bits.
pub uninterp spec fn sha256_fingerprint(material: KeyMaterialView) -> Seq<char>;

/// The message of the error that `ssh_key` gives for key bytes it refuses as
/// an Ed25519 key.
pub uninterp spec fn ed25519_error_text(bytes: Seq<u8>) -> Seq<char>;

/// The message of the error that `ssh_key` gives for bytes it refuses as a
/// SEC1 point.
pub uninterp spec fn sec1_error_text(sec1: Seq<u8>) -> Seq<char>;

impl SshKey {
    /// Every key is one that `ssh_key` can hold.
    #[verifier::type_invariant]
    spec fn inv(self) -> bool {
        key_well_formed(self@)
    }

    /// The key bits of this key, which are well formed.
    pub fn material(&self) -> (m: &KeyMaterial)
        ensures
            m@ == self@.material,
            key_well_formed(self@),
    {
        proof {
            use_type_invariant(self);
        }
        &self.material
    }

    /// The comment of this key.
    pub fn comment(&self) -> (c: &str)
        ensures
            c@ == self@.comment,
    {
        self.comment.as_str()
    }

    /// The `ssh_key::PublicKey` that this key carries: the one that the
    /// constructors below made together with its key bits and comment.
    pub closed spec fn carried_ssh_key(&self) -> ssh_key::PublicKey {
        self.inner
    }

    /// The `ssh_key::PublicKey` that this key stands for.
    pub fn as_ssh_key(&self) -> (k: &ssh_key::PublicKey)
        ensures
            *k == self.carried_ssh_key(),
    {
        &self.inner
    }
}

/// `ssh_key::PublicKey::from_openssh`: reads an OpenSSH public key text
/// (`ssh-ed25519 AAAA... comment`). The key read is named by
/// [`openssh_public_key`]; its key bits are those of the text's key data,
/// which `ssh_key` holds in its own types: 32 bytes for Ed25519, for ECDSA
/// a point that `EcdsaPublicKey::from_sec1_bytes` accepted for its curve, and
/// for RSA two mpints that `Mpint`'s decoding accepted, which it refuses with a
/// needless leading zero. The key data is decoded from the Base64 of the text,
/// so it takes at most three bytes for every four of the text, which a `str`
/// holds in at most `isize::MAX` bytes.
/// The text must begin with the key's algorithm identifier: those of the
/// algorithms `ssh_key` knows do not begin with `zq.lu`, and any other one
/// names a domain after an `@`, so a text that begins with `zq.lu` and holds
/// no `@` is refused.
#[verifier::external_body]
pub(crate) fn parse_openssh(text: &str) -> (r: Result<SshKey, ssh_key::Error>)
    ensures
        r is Ok <==> openssh_public_key(text@) is Some,
        r matches Ok(k) ==> openssh_public_key(text@) == Some(k@) && key_well_formed(k@),
        has_prefix(text@, "zq.lu"@) && !text@.contains('@') ==> r is Err,
{
    let key = ssh_key::PublicKey::from_openssh(text)?;
    let material = match key.key_data() {
        KeyData::Ed25519(k) => KeyMaterial::Ed25519(k.0.to_vec()),
        KeyData::Ecdsa(k) => KeyMaterial::Ecdsa {
            curve: match k.curve() {
                SshCurve::NistP256 => EcdsaCurve::NistP256,
                SshCurve::NistP384 => EcdsaCurve::NistP384,
                SshCurve::NistP521 => EcdsaCurve::NistP521,
            },
            sec1: k.as_sec1_bytes().to_vec(),
        },
        KeyData::Rsa(k) => KeyMaterial::Rsa { e: k.e.as_bytes().to_vec(), n: k.n.as_bytes().to_vec() },
        _ => KeyMaterial::Other(key.to_bytes()?),
    };
    Ok(SshKey { inner: key.clone(), material, comment: key.comment().to_string() })
}

/// `ssh_key::public::Ed25519PublicKey::try_from(&[u8])` and
/// `ssh_key::PublicKey::from`: a key without comment, made from 32 bytes;
/// any other length is refused, with the message [`ed25519_error_text`].
#[verifier::external_body]
pub(crate) fn ed25519_key(bytes: &[u8]) -> (r: Result<SshKey, String>)
    ensures
        r is Ok <==> bytes@.len() == 32,
        r matches Ok(k) ==> k@ == uncommented(KeyMaterialView::Ed25519(bytes@)),
        r matches Err(m) ==> m@ == ed25519_error_text(bytes@),
{
    match ssh_key::public::Ed25519PublicKey::try_from(bytes) {
        Ok(k) => Ok(SshKey {
            inner: ssh_key::PublicKey::from(k),
            material: KeyMaterial::Ed25519(k.0.to_vec()),
            comment: String::new(),
        }),
        Err(e) => Err(e.to_string()),
    }
}

/// `ssh_key::public::EcdsaPublicKey::from_sec1_bytes` and
/// `ssh_key::PublicKey::from`: a key without comment, made from a SEC1 point
/// whose tag and length fit P-256, P-384 or P-521 (see [`sec1_curve`]); the
/// point is kept as given. Anything else is refused, with the message
/// [`sec1_error_text`].
#[verifier::external_body]
pub(crate) fn ecdsa_key(sec1: &[u8]) -> (r: Result<SshKey, String>)
    ensures
        r is Ok <==> sec1_curve(sec1@) is Some,
        r matches Ok(k) ==> k@ == uncommented(
            KeyMaterialView::Ecdsa(sec1_curve(sec1@)->0, sec1@),
        ),
        r matches Err(m) ==> m@ == sec1_error_text(sec1@),
{
    match ssh_key::public::EcdsaPublicKey::from_sec1_bytes(sec1) {
        Ok(k) => Ok(SshKey {
            inner: ssh_key::PublicKey::from(k),
            material: KeyMaterial::Ecdsa {
                curve: match k.curve() {
                    ssh_key::EcdsaCurve::NistP256 => EcdsaCurve::NistP256,
                    ssh_key::EcdsaCurve::NistP384 => EcdsaCurve::NistP384,
                    ssh_key::EcdsaCurve::NistP521 => EcdsaCurve::NistP521,
                },
                sec1: k.as_sec1_bytes().to_vec(),
            },
            comment: String::new(),
        }),
        Err(e) => Err(e.to_string()),
    }
}

/// `ssh_key::public::RsaPublicKey` of two `ssh_key::Mpint::from_positive_bytes`,
/// and `ssh_key::PublicKey::from`: a key without comment, made from the
/// big-endian bytes of a public exponent and a modulus. `from_positive_bytes`
/// drops leading zeros and puts a zero byte in front where the top bit is set
/// ([`mpint_of_positive`]), which gives an mpint that its own check accepts,
/// so it does not fail.
#[verifier::external_body]
pub(crate) fn rsa_key(e: &[u8], n: &[u8]) -> (r: Result<SshKey, ssh_key::Error>)
    ensures
        r is Ok,
        r matches Ok(k) ==> k@ == uncommented(
            KeyMaterialView::Rsa(mpint_of_positive(e@), mpint_of_positive(n@)),
        ),
{
    let e = ssh_key::Mpint::from_positive_bytes(e)?;
    let n = ssh_key::Mpint::from_positive_bytes(n)?;
    let material = KeyMaterial::Rsa { e: e.as_bytes().to_vec(), n: n.as_bytes().to_vec() };
    let inner = ssh_key::PublicKey::from(ssh_key::public::RsaPublicKey { e, n });
    Ok(SshKey { inner, material, comment: String::new() })
}

/// Whether `ssh_key` can write a key as OpenSSH text for certain: an Ed25519,
/// ECDSA or RSA key whose comment (at most 2^26 characters) and, for RSA,
/// numbers (at most half of `isize::MAX` bytes) are short enough that the text
/// fits in a string.
pub open spec fn openssh_writable(k: SshKeyView) -> bool {
    &&& k.comment.len() <= 0x400_0000
    &&& match k.material {
        KeyMaterialView::Ed25519(_) | KeyMaterialView::Ecdsa(..) => true,
        KeyMaterialView::Rsa(e, n) => e.len() + n.len() <= isize::MAX / 2,
        KeyMaterialView::Other(_) => false,
    }
}

/// `ssh_key::PublicKey::to_openssh`: the OpenSSH text of the key, named by
/// [`openssh_text`]. `encode_string` sums the lengths of the algorithm name,
/// of a saturating estimate of the Base64 of the key data (four bytes for every
/// three, plus three) and of the comment with `checked_sum`, fails where that
/// overflows, and allocates that many bytes with `vec!`, which panics past
/// `isize::MAX`. For a key that [`openssh_writable`] accepts the comment takes
/// at most 2^28 bytes and the estimate at most two thirds of `isize::MAX` and a
/// few bytes, which stays below `isize::MAX` for a `usize` of 32 bits or more,
/// so it neither fails nor panics.
#[verifier::external_body]
pub(crate) fn to_openssh(key: &SshKey) -> (r: Result<String, ssh_key::Error>)
    requires
        openssh_writable(key@),
    ensures
        r matches Ok(s) ==> s@ == openssh_text(key@),
        key_well_formed(key@) && openssh_writable(key@) ==> r is Ok,
{
    key.inner.to_openssh()
}

/// `ssh_key::PublicKey::fingerprint` with the default hash (SHA-256), as
/// text: named by [`sha256_fingerprint`], a function of the key bits.
#[verifier::external_body]
pub(crate) fn fingerprint(key: &SshKey) -> (s: String)
    ensures
        s@ == sha256_fingerprint(key@.material),
{
    key.inner.fingerprint(Default::default()).to_string()
}

} // verus!
