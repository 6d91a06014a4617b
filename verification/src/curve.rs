//! Point decompression on the NIST curves, by `primeorder`.

use crate::key::coordinate_size;
use crate::key_type::EcdsaCurve;
use p256::elliptic_curve::point::DecompressPoint;
use p256::elliptic_curve::sec1::ToEncodedPoint;
use p256::elliptic_curve::subtle::Choice;
use primeorder::generic_array::GenericArray;
use std::ops::Not;
use vstd::prelude::*;

verus! {

/// The uncompressed SEC1 encoding of the point on `curve` whose x coordinate
/// is `x` and whose y coordinate is even exactly when `y_is_even` holds,
/// `None` where no point of the curve has that x coordinate.
pub uninterp spec fn decompressed_point(curve: EcdsaCurve, x: Seq<u8>, y_is_even: bool) -> Option<
    Seq<u8>,
>;

/// What SEC1 gives of the uncompressed encoding of a point with x coordinate
/// `x` and a y coordinate of the given parity: the tag 4, then x, then y, each
/// coordinate big-endian in `coordinate_size(curve)` bytes.
pub open spec fn uncompressed_point_of(
    curve: EcdsaCurve,
    p: Seq<u8>,
    x: Seq<u8>,
    y_is_even: bool,
) -> bool {
    let n = coordinate_size(curve);
    &&& p.len() == 1 + 2 * n
    &&& p[0] == 4
    &&& p.subrange(1, 1 + n as int) == x
    &&& (p[2 * n as int] % 2 == 0) == y_is_even
}

/// The x coordinate of an uncompressed SEC1 point on `curve`.
pub open spec fn x_coordinate(curve: EcdsaCurve, p: Seq<u8>) -> Seq<u8> {
    p.subrange(1, 1 + coordinate_size(curve) as int)
}

/// Whether the y coordinate of an uncompressed SEC1 point is even.
pub open spec fn y_is_even(p: Seq<u8>) -> bool {
    p.last() % 2 == 0
}

/// Whether `p` is an uncompressed point of `curve` that decompressing its x
/// coordinate with the parity of its y gives back: a point of the curve.
pub open spec fn canonical_point(curve: EcdsaCurve, p: Seq<u8>) -> bool {
    &&& p.len() == 1 + 2 * coordinate_size(curve)
    &&& p[0] == 4
    &&& decompressed_point(curve, x_coordinate(curve, p), y_is_even(p)) == Some(p)
}

/// `primeorder::AffinePoint::<NistP256>::decompress`, then
/// `to_encoded_point(false)`: the point of P-256 with x coordinate `x` and a y
/// coordinate of the given parity, uncompressed. `x` must be 32 bytes long
/// (`GenericArray::from_slice` panics otherwise).
#[verifier::external_body]
#[allow(deprecated)]
pub(crate) fn decompress_p256(x: &[u8], y_is_even: bool) -> (r: Option<Vec<u8>>)
    requires
        x@.len() == 32,
    ensures
        r is Some <==> decompressed_point(EcdsaCurve::NistP256, x@, y_is_even) is Some,
        r matches Some(p) ==> p@ == decompressed_point(EcdsaCurve::NistP256, x@, y_is_even)->0,
        r matches Some(p) ==> uncompressed_point_of(EcdsaCurve::NistP256, p@, x@, y_is_even),
{
    let y_is_odd = Choice::from(y_is_even as u8).not();
    let point = primeorder::AffinePoint::<p256::NistP256>::decompress(
        GenericArray::from_slice(x),
        y_is_odd,
    );
    match Option::<primeorder::AffinePoint<p256::NistP256>>::from(point) {
        Some(p) => Some(p.to_encoded_point(false).as_bytes().to_vec()),
        None => None,
    }
}

/// `primeorder::AffinePoint::<NistP384>::decompress`, then
/// `to_encoded_point(false)`: the point of P-384 with x coordinate `x` and a y
/// coordinate of the given parity, uncompressed. `x` must be 48 bytes long.
#[verifier::external_body]
#[allow(deprecated)]
pub(crate) fn decompress_p384(x: &[u8], y_is_even: bool) -> (r: Option<Vec<u8>>)
    requires
        x@.len() == 48,
    ensures
        r is Some <==> decompressed_point(EcdsaCurve::NistP384, x@, y_is_even) is Some,
        r matches Some(p) ==> p@ == decompressed_point(EcdsaCurve::NistP384, x@, y_is_even)->0,
        r matches Some(p) ==> uncompressed_point_of(EcdsaCurve::NistP384, p@, x@, y_is_even),
{
    let y_is_odd = Choice::from(y_is_even as u8).not();
    let point = primeorder::AffinePoint::<p384::NistP384>::decompress(
        GenericArray::from_slice(x),
        y_is_odd,
    );
    match Option::<primeorder::AffinePoint<p384::NistP384>>::from(point) {
        Some(p) => Some(p.to_encoded_point(false).as_bytes().to_vec()),
        None => None,
    }
}

/// `primeorder::AffinePoint::<NistP521>::decompress`, then
/// `to_encoded_point(false)`: the point of P-521 with x coordinate `x` and a y
/// coordinate of the given parity, uncompressed. `x` must be 66 bytes long.
#[verifier::external_body]
#[allow(deprecated)]
pub(crate) fn decompress_p521(x: &[u8], y_is_even: bool) -> (r: Option<Vec<u8>>)
    requires
        x@.len() == 66,
    ensures
        r is Some <==> decompressed_point(EcdsaCurve::NistP521, x@, y_is_even) is Some,
        r matches Some(p) ==> p@ == decompressed_point(EcdsaCurve::NistP521, x@, y_is_even)->0,
        r matches Some(p) ==> uncompressed_point_of(EcdsaCurve::NistP521, p@, x@, y_is_even),
{
    let y_is_odd = Choice::from(y_is_even as u8).not();
    let point = primeorder::AffinePoint::<p521::NistP521>::decompress(
        GenericArray::from_slice(x),
        y_is_odd,
    );
    match Option::<primeorder::AffinePoint<p521::NistP521>>::from(point) {
        Some(p) => Some(p.to_encoded_point(false).as_bytes().to_vec()),
        None => None,
    }
}

} // verus!
