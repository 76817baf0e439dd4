//! The scalar field and the group of secp256k1, as the `k256` crate computes them.
//!
//! Nothing in this file is proved: each function hands its arguments to `k256` (or to
//! `multiexp`, on `k256`'s points) and states what the crate's documentation says of the
//! result. Scalars and points cross this boundary in their canonical encodings.

use crate::bytes::be_value;
use crate::curve::kp256::{Point, Scalar};
use crate::modmath::dot;
use group::ff::{Field, PrimeField};
use group::GroupEncoding;
use vstd::prelude::*;

verus! {

/// The order of the secp256k1 group, which is also the modulus of its scalar field.
pub open spec fn k256_order() -> int {
    0xfffffffffffffffffffffffffffffffebaaedce6af48a03bbfd25e8cd0364141int
}

/// The multiple of the generator that a secp256k1 point is, given the point's canonical
/// encoding. The group has prime order, so every point is exactly one multiple below the
/// order; the identity is the multiple 0.
pub uninterp spec fn k256_dlog(encoding: Seq<u8>) -> int;

/// The canonical encoding of a multiple of the generator of secp256k1: what `to_bytes` gives
/// for `GENERATOR * k`.
pub uninterp spec fn k256_encode(multiple: int) -> Seq<u8>;

/// What 33 bytes give when they are decoded as a secp256k1 point and the point is encoded
/// again; `None` where they encode no point.
pub uninterp spec fn k256_recode(bytes: Seq<u8>) -> Option<Seq<u8>>;

/// What a batch of secp256k1 statements holds, in the order of arrival: each statement with
/// its id, as the integers that its scalars and points stand for, the scalars as the
/// verifier keeps them, multiplied by the statement's weight.
pub uninterp spec fn k256_batch_entries(b: K256Batch) -> Seq<(u16, Seq<(int, int)>)>;

/// Whether `s` holds a reduced scalar of secp256k1.
pub open spec fn k256_scalar(s: Scalar) -> bool {
    0 <= be_value(s.repr@) < k256_order()
}

/// Whether `p` holds the canonical encoding of a point of secp256k1: it decodes to itself, and
/// it is the encoding of the multiple of the generator that it stands for.
pub open spec fn k256_point(p: Point) -> bool {
    &&& k256_recode(p.repr@) == Some(p.repr@)
    &&& 0 <= k256_dlog(p.repr@) < k256_order()
    &&& k256_encode(k256_dlog(p.repr@)) == p.repr@
}

/// Whether every pair holds a scalar and a point of secp256k1.
pub open spec fn k256_pairs_wf(pairs: Seq<(Scalar, Point)>) -> bool {
    forall|i: int| 0 <= i < pairs.len() ==> k256_scalar(#[trigger] pairs[i].0) && k256_point(pairs[i].1)
}

/// The integers that the scalars and points of the pairs stand for.
pub open spec fn k256_pairs(pairs: Seq<(Scalar, Point)>) -> Seq<(int, int)> {
    Seq::new(pairs.len(), |i: int| (be_value(pairs[i].0.repr@), k256_dlog(pairs[i].1.repr@)))
}

/// `multiexp::BatchVerifier` over secp256k1 points, with 16-bit ids.
#[verifier::external_body]
pub struct K256Batch {
    inner: multiexp::BatchVerifier<u16, k256::ProjectivePoint>,
}

/// `k256::Scalar::from(u64)`: the scalar that stands for `x`, which is below the order.
#[verifier::external_body]
pub(crate) fn k256_scalar_from_u64(x: u64) -> (r: Scalar)
    ensures
        k256_scalar(r),
        be_value(r.repr@) == x,
{
    Scalar { repr: k256::Scalar::from(x).to_repr().into() }
}

/// `k256::Scalar`'s `+`: addition modulo the order.
#[verifier::external_body]
pub(crate) fn k256_scalar_add(a: Scalar, b: Scalar) -> (r: Scalar)
    requires
        k256_scalar(a),
        k256_scalar(b),
    ensures
        k256_scalar(r),
        be_value(r.repr@) == (be_value(a.repr@) + be_value(b.repr@)) % k256_order(),
{
    let x = k256::Scalar::from_repr(a.repr.into()).unwrap();
    let y = k256::Scalar::from_repr(b.repr.into()).unwrap();
    Scalar { repr: (x + y).to_repr().into() }
}

/// `k256::Scalar`'s `*`: multiplication modulo the order. The order is prime, so the
/// product is zero only where a factor is.
#[verifier::external_body]
pub(crate) fn k256_scalar_mul(a: Scalar, b: Scalar) -> (r: Scalar)
    requires
        k256_scalar(a),
        k256_scalar(b),
    ensures
        k256_scalar(r),
        be_value(r.repr@) == (be_value(a.repr@) * be_value(b.repr@)) % k256_order(),
        be_value(r.repr@) == 0 <==> be_value(a.repr@) == 0 || be_value(b.repr@) == 0,
{
    let x = k256::Scalar::from_repr(a.repr.into()).unwrap();
    let y = k256::Scalar::from_repr(b.repr.into()).unwrap();
    Scalar { repr: (x * y).to_repr().into() }
}

/// `k256::Scalar`'s unary `-`: negation modulo the order.
#[verifier::external_body]
pub(crate) fn k256_scalar_neg(a: Scalar) -> (r: Scalar)
    requires
        k256_scalar(a),
    ensures
        k256_scalar(r),
        be_value(r.repr@) == (-be_value(a.repr@)) % k256_order(),
{
    let x = k256::Scalar::from_repr(a.repr.into()).unwrap();
    Scalar { repr: (-x).to_repr().into() }
}

/// `k256::Scalar::invert`: the inverse modulo the order, which every scalar but zero has.
#[verifier::external_body]
pub(crate) fn k256_scalar_invert(a: Scalar) -> (r: Option<Scalar>)
    requires
        k256_scalar(a),
    ensures
        r is Some <==> be_value(a.repr@) != 0,
        r matches Some(x) ==> k256_scalar(x) && (be_value(a.repr@) * be_value(x.repr@))
            % k256_order() == 1,
{
    let x = k256::Scalar::from_repr(a.repr.into()).unwrap();
    let inverse: Option<k256::Scalar> = x.invert().into();
    inverse.map(|i| Scalar { repr: i.to_repr().into() })
}

/// `k256::Scalar::random`: a scalar drawn with the given generator. Nothing is known of it
/// but that it is a scalar.
#[verifier::external_body]
pub(crate) fn k256_scalar_random(rng: &mut rand_core::OsRng) -> (r: Scalar)
    ensures
        k256_scalar(r),
{
    Scalar { repr: k256::Scalar::random(rng).to_repr().into() }
}

/// `k256::Scalar::from_repr`: accepts 32 bytes where the number they write, big-endian, is
/// below the order.
#[verifier::external_body]
pub(crate) fn k256_scalar_from_repr(bytes: &[u8]) -> (r: Option<Scalar>)
    requires
        bytes@.len() == 32,
    ensures
        r is Some <==> be_value(bytes@) < k256_order(),
        r matches Some(s) ==> s.repr@ == bytes@,
{
    let repr: [u8; 32] = bytes.try_into().unwrap();
    let scalar: Option<k256::Scalar> = k256::Scalar::from_repr(repr.into()).into();
    scalar.map(|s| Scalar { repr: s.to_repr().into() })
}

/// `k256::ProjectivePoint::GENERATOR`: the generator, which is its own multiple 1.
#[verifier::external_body]
pub(crate) fn k256_generator() -> (r: Point)
    ensures
        k256_point(r),
        k256_dlog(r.repr@) == 1,
        r.repr@ == k256_encode(1),
{
    Point { repr: k256::ProjectivePoint::GENERATOR.to_bytes().into() }
}

/// `k256::ProjectivePoint`'s `+`: the sum of two points is the sum of their multiples of
/// the generator, modulo the order.
#[verifier::external_body]
pub(crate) fn k256_point_add(a: Point, b: Point) -> (r: Point)
    requires
        k256_point(a),
        k256_point(b),
    ensures
        k256_point(r),
        k256_dlog(r.repr@) == (k256_dlog(a.repr@) + k256_dlog(b.repr@)) % k256_order(),
{
    let x = k256::ProjectivePoint::from_bytes(&a.repr.into()).unwrap();
    let y = k256::ProjectivePoint::from_bytes(&b.repr.into()).unwrap();
    Point { repr: (x + y).to_bytes().into() }
}

/// `k256::ProjectivePoint`'s `*` by a scalar: the multiple of a point multiplies its
/// multiple of the generator, modulo the order.
#[verifier::external_body]
pub(crate) fn k256_point_mul(p: Point, s: Scalar) -> (r: Point)
    requires
        k256_point(p),
        k256_scalar(s),
    ensures
        k256_point(r),
        k256_dlog(r.repr@) == (k256_dlog(p.repr@) * be_value(s.repr@)) % k256_order(),
{
    let x = k256::ProjectivePoint::from_bytes(&p.repr.into()).unwrap();
    let y = k256::Scalar::from_repr(s.repr.into()).unwrap();
    Point { repr: (x * y).to_bytes().into() }
}

/// `k256::ProjectivePoint::is_identity`: the identity is the multiple 0 of the generator.
#[verifier::external_body]
pub(crate) fn k256_point_is_identity(p: Point) -> (r: bool)
    requires
        k256_point(p),
    ensures
        r == (k256_dlog(p.repr@) == 0),
{
    let x = k256::ProjectivePoint::from_bytes(&p.repr.into()).unwrap();
    group::Group::is_identity(&x).into()
}

/// `k256::ProjectivePoint::from_bytes`, then `to_bytes`: decodes 33 bytes, where they
/// encode a point, and gives the point in its canonical encoding.
#[verifier::external_body]
pub(crate) fn k256_point_decode(bytes: &[u8]) -> (r: Option<Point>)
    requires
        bytes@.len() == 33,
    ensures
        r is Some <==> k256_recode(bytes@) is Some,
        r matches Some(p) ==> k256_point(p) && k256_recode(bytes@) == Some(p.repr@),
{
    let repr: [u8; 33] = bytes.try_into().unwrap();
    let point: Option<k256::ProjectivePoint> = k256::ProjectivePoint::from_bytes(&repr.into()).into();
    point.map(|p| Point { repr: p.to_bytes().into() })
}

/// `multiexp::multiexp_vartime` on secp256k1: the sum of the multiples of the points by their
/// scalars. The scalars of secp256k1 are written big-endian, which `little` must say.
#[verifier::external_body]
pub(crate) fn k256_multiexp_vartime(pairs: &Vec<(Scalar, Point)>, little: bool) -> (r: Point)
    requires
        !little,
        pairs.len() > 0,
        k256_pairs_wf(pairs@),
    ensures
        k256_point(r),
        k256_dlog(r.repr@) == dot(k256_pairs(pairs@)) % k256_order(),
{
    let converted: Vec<(k256::Scalar, k256::ProjectivePoint)> = pairs.iter().map(|(s, p)| (
        k256::Scalar::from_repr(s.repr.into()).unwrap(),
        k256::ProjectivePoint::from_bytes(&p.repr.into()).unwrap(),
    )).collect();
    Point { repr: multiexp::multiexp_vartime(&converted, little).to_bytes().into() }
}

/// `multiexp::BatchVerifier::new`: an empty batch.
#[verifier::external_body]
pub(crate) fn k256_batch_new(capacity: usize, little: bool) -> (b: K256Batch)
    requires
        !little,
    ensures
        k256_batch_entries(b) == Seq::<(u16, Seq<(int, int)>)>::empty(),
{
    K256Batch { inner: multiexp::BatchVerifier::new(capacity, little) }
}

/// `multiexp::BatchVerifier::queue`: adds a statement to the batch, under an id. The
/// verifier multiplies the statement's scalars by a weight and keeps the products: the
/// weight is 1 where the batch is empty, and else a scalar drawn with the given generator.
#[verifier::external_body]
pub(crate) fn k256_batch_queue(
    b: &mut K256Batch,
    rng: &mut rand_core::OsRng,
    id: u16,
    pairs: Vec<(Scalar, Point)>,
)
    requires
        pairs.len() > 0,
        k256_pairs_wf(pairs@),
    ensures
        exists|u: int|
            crate::curve::batch_queued(
                k256_batch_entries(*old(b)),
                k256_batch_entries(*final(b)),
                id,
                k256_pairs(pairs@),
                u,
                k256_order(),
            ),
{
    let converted: Vec<(k256::Scalar, k256::ProjectivePoint)> = pairs.iter().map(|(s, p)| (
        k256::Scalar::from_repr(s.repr.into()).unwrap(),
        k256::ProjectivePoint::from_bytes(&p.repr.into()).unwrap(),
    )).collect();
    b.inner.queue(rng, id, converted);
}

/// `multiexp::BatchVerifier::verify_with_vartime_blame`: adds up all that the batch
/// holds and returns `Ok` exactly where the sum is the identity. Where it is not, it halves
/// the batch until one statement is left whose own sum is not the identity, and returns
/// that statement's id. It needs a statement to add up.
#[verifier::external_body]
pub(crate) fn k256_batch_verify(b: &K256Batch) -> (r: Result<(), u16>)
    requires
        crate::curve::batch_checkable(k256_batch_entries(*b)),
    ensures
        crate::curve::batch_outcome(k256_batch_entries(*b), k256_order(), r),
{
    b.inner.verify_with_vartime_blame()
}

/// `multiexp::BatchVerifier::verify_vartime_with_vartime_blame`: as
/// `verify_with_vartime_blame`, adding up in variable time.
#[verifier::external_body]
pub(crate) fn k256_batch_verify_vartime(b: &K256Batch) -> (r: Result<(), u16>)
    requires
        crate::curve::batch_checkable(k256_batch_entries(*b)),
    ensures
        crate::curve::batch_outcome(k256_batch_entries(*b), k256_order(), r),
{
    b.inner.verify_vartime_with_vartime_blame()
}

} // verus!
