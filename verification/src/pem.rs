//! The calls into `der`, `spki` and the curve crates that read a PEM public key.

use crate::curve::canonical_point;
use crate::key_type::EcdsaCurve;
use p256::elliptic_curve::pkcs8::der::Document;
use p256::elliptic_curve::pkcs8::{DecodePublicKey, SubjectPublicKeyInfoRef};
use p256::elliptic_curve::sec1::ToEncodedPoint;
use vstd::prelude::*;

verus! {

/// The fields of a SubjectPublicKeyInfo that the library reads.
pub struct SpkiInfo {
    /// The algorithm's object identifier, in dotted decimal notation.
    pub algorithm: String,
    /// Whether the algorithm identifier carries parameters.
    pub has_parameters: bool,
    /// The public key bit string as bytes, `None` when its length is not a
    /// whole number of bytes.
    pub key: Option<Vec<u8>>,
}

/// The mathematical value of a [`SpkiInfo`].
pub struct SpkiView {
    pub algorithm: Seq<char>,
    pub has_parameters: bool,
    pub key: Option<Seq<u8>>,
}

impl View for SpkiInfo {
    type V = SpkiView;

    open spec fn view(&self) -> SpkiView {
        SpkiView {
            algorithm: self.algorithm@,
            has_parameters: self.has_parameters,
            key: match self.key {
                Some(k) => Some(k@),
                None => None,
            },
        }
    }
}

/// What `der::Document::from_pem` makes of a PEM text: the DER bytes of the
/// document, or the message of the error it gives.
pub uninterp spec fn pem_der(text: Seq<char>) -> Result<Seq<u8>, Seq<char>>;

/// What `SubjectPublicKeyInfoRef::try_from` makes of DER bytes: the fields
/// the library reads, or the message of the error it gives.
pub uninterp spec fn spki_fields(der: Seq<u8>) -> Result<SpkiView, Seq<char>>;

/// What `from_public_key_pem` of the curve's crate makes of a PEM text: the
/// key's point, uncompressed SEC1, or the message of the error it gives.
pub uninterp spec fn pem_ec_point(curve: EcdsaCurve, text: Seq<char>) -> Result<Seq<u8>, Seq<char>>;

/// `der::Document::from_pem`: the DER bytes of a PEM document (its label
/// is not kept), or the error's message.
#[verifier::external_body]
pub(crate) fn pem_document(text: &str) -> (r: Result<Vec<u8>, String>)
    ensures
        match r {
            Ok(d) => pem_der(text@) == Ok::<Seq<u8>, Seq<char>>(d@),
            Err(m) => pem_der(text@) == Err::<Seq<u8>, Seq<char>>(m@),
        },
{
    match Document::from_pem(text) {
        Ok((_label, doc)) => Ok(doc.as_bytes().to_vec()),
        Err(e) => Err(e.to_string()),
    }
}

/// `spki::SubjectPublicKeyInfoRef::try_from`: the algorithm identifier, as
/// dotted decimal text, whether it has parameters, and the key bit string,
/// or the error's message.
#[verifier::external_body]
pub(crate) fn spki_info(der: &[u8]) -> (r: Result<SpkiInfo, String>)
    ensures
        match r {
            Ok(i) => spki_fields(der@) == Ok::<SpkiView, Seq<char>>(i@),
            Err(m) => spki_fields(der@) == Err::<SpkiView, Seq<char>>(m@),
        },
{
    match SubjectPublicKeyInfoRef::try_from(der) {
        Ok(spki) => Ok(SpkiInfo {
            algorithm: spki.algorithm.oid.to_string(),
            has_parameters: spki.algorithm.parameters.is_some(),
            key: match spki.subject_public_key.as_bytes() {
                Some(b) => Some(b.to_vec()),
                None => None,
            },
        }),
        Err(e) => Err(e.to_string()),
    }
}

/// `p256::PublicKey::from_public_key_pem`, then `to_encoded_point(false)`:
/// the key's point, uncompressed, or the error's message. A `PublicKey` of
/// the curve crates holds a point of the curve other than the identity, so its
/// SEC1 encoding is the tag 4 and both coordinates, and decompressing its x
/// coordinate with the parity of its y gives the same point back.
#[verifier::external_body]
pub(crate) fn p256_pem_point(text: &str) -> (r: Result<Vec<u8>, String>)
    ensures
        match r {
            Ok(p) => pem_ec_point(EcdsaCurve::NistP256, text@) == Ok::<Seq<u8>, Seq<char>>(p@)
                && canonical_point(EcdsaCurve::NistP256, p@),
            Err(m) => pem_ec_point(EcdsaCurve::NistP256, text@) == Err::<Seq<u8>, Seq<char>>(m@),
        },
{
    match p256::PublicKey::from_public_key_pem(text) {
        Ok(k) => Ok(k.to_encoded_point(false).as_bytes().to_vec()),
        Err(e) => Err(e.to_string()),
    }
}

/// `p384::PublicKey::from_public_key_pem`, then `to_encoded_point(false)`:
/// the key's point, uncompressed, or the error's message; as for P-256, a
/// point of the curve that decompression gives back.
#[verifier::external_body]
pub(crate) fn p384_pem_point(text: &str) -> (r: Result<Vec<u8>, String>)
    ensures
        match r {
            Ok(p) => pem_ec_point(EcdsaCurve::NistP384, text@) == Ok::<Seq<u8>, Seq<char>>(p@)
                && canonical_point(EcdsaCurve::NistP384, p@),
            Err(m) => pem_ec_point(EcdsaCurve::NistP384, text@) == Err::<Seq<u8>, Seq<char>>(m@),
        },
{
    match p384::PublicKey::from_public_key_pem(text) {
        Ok(k) => Ok(k.to_encoded_point(false).as_bytes().to_vec()),
        Err(e) => Err(e.to_string()),
    }
}

/// `p521::PublicKey::from_public_key_pem`, then `to_encoded_point(false)`:
/// the key's point, uncompressed, or the error's message; as for P-256, a
/// point of the curve that decompression gives back.
#[verifier::external_body]
pub(crate) fn p521_pem_point(text: &str) -> (r: Result<Vec<u8>, String>)
    ensures
        match r {
            Ok(p) => pem_ec_point(EcdsaCurve::NistP521, text@) == Ok::<Seq<u8>, Seq<char>>(p@)
                && canonical_point(EcdsaCurve::NistP521, p@),
            Err(m) => pem_ec_point(EcdsaCurve::NistP521, text@) == Err::<Seq<u8>, Seq<char>>(m@),
        },
{
    match p521::PublicKey::from_public_key_pem(text) {
        Ok(k) => Ok(k.to_encoded_point(false).as_bytes().to_vec()),
        Err(e) => Err(e.to_string()),
    }
}

} // verus!
