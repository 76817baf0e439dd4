//! The scalar field and the group of Ed25519, as the `curve25519-dalek` and
//! `dalek-ff-group` crates compute them, and the BLAKE2b hash of the `blake2` crate.
//!
//! Nothing in this file is proved: each function hands its arguments to an outside crate
//! and states what the crate's documentation says of the result. Scalars and points cross
//! this boundary in their canonical encodings.

use blake2::Digest;
use curve25519_dalek::traits::Identity;
use vstd::prelude::*;

verus! {

/// A scalar of Ed25519, as the 32 bytes that write it little-endian.
#[derive(Clone, Copy, Debug, PartialEq, Eq)]
pub struct EdScalar {
    pub repr: [u8; 32],
}

/// A point of Ed25519 in compressed form: the second coordinate, little-endian, with the
/// sign of the first in the highest bit.
#[derive(Clone, Copy, Debug, PartialEq, Eq)]
pub struct EdPoint {
    pub repr: [u8; 32],
}

/// The number that a byte string writes in base 256, least significant byte first.
pub open spec fn le_value(s: Seq<u8>) -> int
    decreases s.len(),
{
    if s.len() == 0 {
        0
    } else {
        s[0] as int + 256 * le_value(s.skip(1))
    }
}

/// The order of the prime-order subgroup of Ed25519, which is also the modulus of its
/// scalar field: 2²⁵² + 27742317777372353535851937790883648493.
pub open spec fn ed_order() -> int {
    0x1000000000000000000000000000000014def9dea2f79cd65812631a5cf5d3edint
}

/// The multiple of the basepoint that a point of the prime-order subgroup of Ed25519 is,
/// given the point's canonical encoding; the identity is the multiple 0.
pub uninterp spec fn ed_dlog(encoding: Seq<u8>) -> int;

/// The canonical encoding of a multiple of the basepoint of Ed25519: what `compress`
/// gives for `mul_base(k)`.
pub uninterp spec fn ed_encode(multiple: int) -> Seq<u8>;

/// What 32 bytes give when they are decompressed as a point of the curve and the point is
/// compressed again; `None` where they encode no point.
pub uninterp spec fn ed_recode(bytes: Seq<u8>) -> Option<Seq<u8>>;

/// Whether the point of the curve with the given canonical encoding lies in the
/// prime-order subgroup.
pub uninterp spec fn ed_torsion_free(encoding: Seq<u8>) -> bool;

/// The BLAKE2b-512 digest of a byte string.
pub uninterp spec fn blake2b512_digest(data: Seq<u8>) -> Seq<u8>;

/// Whether `s` holds a reduced scalar of Ed25519.
pub open spec fn ed_scalar(s: EdScalar) -> bool {
    0 <= le_value(s.repr@) < ed_order()
}

/// Whether `p` holds the canonical encoding of a point of the prime-order subgroup of
/// Ed25519: it decodes to itself, lies in the subgroup, and is the encoding of the
/// multiple of the basepoint that it stands for.
pub open spec fn ed_point(p: EdPoint) -> bool {
    &&& ed_recode(p.repr@) == Some(p.repr@)
    &&& ed_torsion_free(p.repr@)
    &&& 0 <= ed_dlog(p.repr@) < ed_order()
    &&& ed_encode(ed_dlog(p.repr@)) == p.repr@
}

/// `curve25519_dalek::Scalar`'s `*`: multiplication modulo the order.
#[verifier::external_body]
pub(crate) fn ed_scalar_mul(a: EdScalar, b: EdScalar) -> (r: EdScalar)
    requires
        ed_scalar(a),
        ed_scalar(b),
    ensures
        ed_scalar(r),
        le_value(r.repr@) == (le_value(a.repr@) * le_value(b.repr@)) % ed_order(),
{
    let x = curve25519_dalek::Scalar::from_canonical_bytes(a.repr).unwrap();
    let y = curve25519_dalek::Scalar::from_canonical_bytes(b.repr).unwrap();
    EdScalar { repr: (x * y).to_bytes() }
}

/// `curve25519_dalek::Scalar`'s `-`: subtraction modulo the order.
#[verifier::external_body]
pub(crate) fn ed_scalar_sub(a: EdScalar, b: EdScalar) -> (r: EdScalar)
    requires
        ed_scalar(a),
        ed_scalar(b),
    ensures
        ed_scalar(r),
        le_value(r.repr@) == (le_value(a.repr@) - le_value(b.repr@)) % ed_order(),
{
    let x = curve25519_dalek::Scalar::from_canonical_bytes(a.repr).unwrap();
    let y = curve25519_dalek::Scalar::from_canonical_bytes(b.repr).unwrap();
    EdScalar { repr: (x - y).to_bytes() }
}

/// `curve25519_dalek::Scalar::from_bytes_mod_order_wide`: the number that 64 bytes write,
/// little-endian, reduced modulo the order.
#[verifier::external_body]
pub(crate) fn ed_scalar_wide_reduce(bytes: &[u8]) -> (r: EdScalar)
    requires
        bytes@.len() == 64,
    ensures
        ed_scalar(r),
        le_value(r.repr@) == le_value(bytes@) % ed_order(),
{
    let wide: [u8; 64] = bytes.try_into().unwrap();
    EdScalar { repr: curve25519_dalek::Scalar::from_bytes_mod_order_wide(&wide).to_bytes() }
}

/// `curve25519_dalek::Scalar::from_canonical_bytes`: accepts 32 bytes where the number
/// they write, little-endian, is below the order.
#[verifier::external_body]
pub(crate) fn ed_scalar_from_repr(bytes: &[u8]) -> (r: Option<EdScalar>)
    requires
        bytes@.len() == 32,
    ensures
        r is Some <==> le_value(bytes@) < ed_order(),
        r matches Some(s) ==> s.repr@ == bytes@,
{
    let repr: [u8; 32] = bytes.try_into().unwrap();
    let scalar: Option<curve25519_dalek::Scalar> =
        curve25519_dalek::Scalar::from_canonical_bytes(repr).into();
    scalar.map(|s| EdScalar { repr: s.to_bytes() })
}

/// `curve25519_dalek::EdwardsPoint::identity`: the identity, which is the multiple 0 of
/// the basepoint.
#[verifier::external_body]
pub(crate) fn ed_identity() -> (r: EdPoint)
    ensures
        ed_point(r),
        ed_dlog(r.repr@) == 0,
{
    EdPoint { repr: curve25519_dalek::EdwardsPoint::identity().compress().to_bytes() }
}

/// `dalek_ff_group::EdwardsPoint`'s `+`: the sum of two points is the sum of their
/// multiples of the basepoint, modulo the order.
#[verifier::external_body]
pub(crate) fn ed_point_add(a: EdPoint, b: EdPoint) -> (r: EdPoint)
    requires
        ed_point(a),
        ed_point(b),
    ensures
        ed_point(r),
        ed_dlog(r.repr@) == (ed_dlog(a.repr@) + ed_dlog(b.repr@)) % ed_order(),
{
    let x = curve25519_dalek::edwards::CompressedEdwardsY(a.repr).decompress().unwrap();
    let y = curve25519_dalek::edwards::CompressedEdwardsY(b.repr).decompress().unwrap();
    let sum = dalek_ff_group::EdwardsPoint(x) + dalek_ff_group::EdwardsPoint(y);
    EdPoint { repr: sum.0.compress().to_bytes() }
}

/// `curve25519_dalek::EdwardsPoint`'s `-`: the difference of two points is the
/// difference of their multiples of the basepoint, modulo the order.
#[verifier::external_body]
pub(crate) fn ed_point_sub(a: EdPoint, b: EdPoint) -> (r: EdPoint)
    requires
        ed_point(a),
        ed_point(b),
    ensures
        ed_point(r),
        ed_dlog(r.repr@) == (ed_dlog(a.repr@) - ed_dlog(b.repr@)) % ed_order(),
{
    let x = curve25519_dalek::edwards::CompressedEdwardsY(a.repr).decompress().unwrap();
    let y = curve25519_dalek::edwards::CompressedEdwardsY(b.repr).decompress().unwrap();
    EdPoint { repr: (x - y).compress().to_bytes() }
}

/// `dalek_ff_group::EdwardsPoint`'s `*` by a scalar: the multiple of a point multiplies
/// its multiple of the basepoint, modulo the order.
#[verifier::external_body]
pub(crate) fn ed_point_mul(p: EdPoint, s: EdScalar) -> (r: EdPoint)
    requires
        ed_point(p),
        ed_scalar(s),
    ensures
        ed_point(r),
        ed_dlog(r.repr@) == (ed_dlog(p.repr@) * le_value(s.repr@)) % ed_order(),
{
    let x = curve25519_dalek::edwards::CompressedEdwardsY(p.repr).decompress().unwrap();
    let y = curve25519_dalek::Scalar::from_canonical_bytes(s.repr).unwrap();
    let product = dalek_ff_group::EdwardsPoint(x) * dalek_ff_group::Scalar(y);
    EdPoint { repr: product.0.compress().to_bytes() }
}

/// `curve25519_dalek::Scalar`'s `*` by `ED25519_BASEPOINT_TABLE`: the multiple of the
/// basepoint by a scalar, in its canonical encoding.
#[verifier::external_body]
pub(crate) fn ed_basepoint_mul(s: EdScalar) -> (r: EdPoint)
    requires
        ed_scalar(s),
    ensures
        ed_point(r),
        ed_dlog(r.repr@) == le_value(s.repr@),
        r.repr@ == ed_encode(le_value(s.repr@)),
{
    let x = curve25519_dalek::Scalar::from_canonical_bytes(s.repr).unwrap();
    EdPoint { repr: (&x * dalek_ff_group::ED25519_BASEPOINT_TABLE).compress().to_bytes() }
}

/// `curve25519_dalek::edwards::CompressedEdwardsY::decompress`, then `compress`: decodes
/// 32 bytes, where they encode a point of the curve, and gives the point's canonical
/// encoding. The point may lie outside the prime-order subgroup.
#[verifier::external_body]
pub(crate) fn ed_point_recode(bytes: &[u8]) -> (r: Option<EdPoint>)
    requires
        bytes@.len() == 32,
    ensures
        r is Some <==> ed_recode(bytes@) is Some,
        r matches Some(p) ==> ed_recode(bytes@) == Some(p.repr@) && ed_recode(p.repr@) == Some(
            p.repr@,
        ),
{
    let repr: [u8; 32] = bytes.try_into().unwrap();
    curve25519_dalek::edwards::CompressedEdwardsY(repr)
        .decompress()
        .map(|p| EdPoint { repr: p.compress().to_bytes() })
}

/// `curve25519_dalek::EdwardsPoint::is_torsion_free`: whether a point of the curve lies
/// in the prime-order subgroup. A point that does is a multiple of the basepoint, and its
/// encoding is that of the multiple.
#[verifier::external_body]
pub(crate) fn ed_point_is_torsion_free(p: EdPoint) -> (r: bool)
    requires
        ed_recode(p.repr@) == Some(p.repr@),
    ensures
        r == ed_torsion_free(p.repr@),
        r ==> ed_point(p),
{
    curve25519_dalek::edwards::CompressedEdwardsY(p.repr).decompress().unwrap().is_torsion_free()
}

/// `blake2::Blake2b512::digest`: the BLAKE2b-512 digest, 64 bytes.
#[verifier::external_body]
pub(crate) fn blake2b512(data: &[u8]) -> (r: Vec<u8>)
    ensures
        r@ == blake2b512_digest(data@),
        r@.len() == 64,
{
    blake2::Blake2b512::digest(data).to_vec()
}

} // verus!
