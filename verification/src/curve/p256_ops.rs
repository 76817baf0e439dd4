//! The scalar field and the group of P-256, as the `p256` crate computes them.
//!
//! Nothing in this file is proved: each function hands its arguments to `p256` (or to
//! `multiexp`, on `p256`'s points) and states what the crate's documentation says of the
//! result. Scalars and points cross this boundary in their canonical encodings.

use crate::bytes::be_value;
use crate::curve::kp256::{Point, Scalar};
use crate::modmath::dot;
use group::ff::{Field, PrimeField};
use group::GroupEncoding;
use vstd::prelude::*;

verus! {

/// The order of the P-256 group, which is also the modulus of its scalar field.
pub open spec fn p256_order() -> int {
    0xffffffff00000000ffffffffffffffffbce6faada7179e84f3b9cac2fc632551int
}

/// The multiple of the generator that a P-256 point is, given the point's canonical
/// encoding. The group has prime order, so every point is exactly one multiple below the
/// order; the identity is the multiple 0.
pub uninterp spec fn p256_dlog(encoding: Seq<u8>) -> int;

/// The canonical encoding of a multiple of the generator of P-256: what `to_bytes` gives
/// for `GENERATOR * k`.
pub uninterp spec fn p256_encode(multiple: int) -> Seq<u8>;

/// What 33 bytes give when they are decoded as a P-256 point and the point is encoded
/// again; `None` where they encode no point.
pub uninterp spec fn p256_recode(bytes: Seq<u8>) -> Option<Seq<u8>>;

/// What a batch of P-256 statements holds, in the order of arrival: each statement with
/// its id, as the integers that its scalars and points stand for, the scalars as the
/// verifier keeps them, multiplied by the statement's weight.
pub uninterp spec fn p256_batch_entries(b: P256Batch) -> Seq<(u16, Seq<(int, int)>)>;

/// Whether `s` holds a reduced scalar of P-256.
pub open spec fn p256_scalar(s: Scalar) -> bool {
    0 <= be_value(s.repr@) < p256_order()
}

/// Whether `p` holds the canonical encoding of a point of P-256: it decodes to itself, and
/// it is the encoding of the multiple of the generator that it stands for.
pub open spec fn p256_point(p: Point) -> bool {
    &&& p256_recode(p.repr@) == Some(p.repr@)
    &&& 0 <= p256_dlog(p.repr@) < p256_order()
    &&& p256_encode(p256_dlog(p.repr@)) == p.repr@
}

/// Whether every pair holds a scalar and a point of P-256.
pub open spec fn p256_pairs_wf(pairs: Seq<(Scalar, Point)>) -> bool {
    forall|i: int| 0 <= i < pairs.len() ==> p256_scalar(#[trigger] pairs[i].0) && p256_point(pairs[i].1)
}

/// The integers that the scalars and points of the pairs stand for.
pub open spec fn p256_pairs(pairs: Seq<(Scalar, Point)>) -> Seq<(int, int)> {
    Seq::new(pairs.len(), |i: int| (be_value(pairs[i].0.repr@), p256_dlog(pairs[i].1.repr@)))
}

/// `multiexp::BatchVerifier` over P-256 points, with 16-bit ids.
#[verifier::external_body]
pub struct P256Batch {
    inner: multiexp::BatchVerifier<u16, p256::ProjectivePoint>,
}

/// `p256::Scalar::from(u64)`: the scalar that stands for `x`, which is below the order.
#[verifier::external_body]
pub(crate) fn p256_scalar_from_u64(x: u64) -> (r: Scalar)
    ensures
        p256_scalar(r),
        be_value(r.repr@) == x,
{
    Scalar { repr: p256::Scalar::from(x).to_repr().into() }
}

/// `p256::Scalar`'s `+`: addition modulo the order.
#[verifier::external_body]
pub(crate) fn p256_scalar_add(a: Scalar, b: Scalar) -> (r: Scalar)
    requires
        p256_scalar(a),
        p256_scalar(b),
    ensures
        p256_scalar(r),
        be_value(r.repr@) == (be_value(a.repr@) + be_value(b.repr@)) % p256_order(),
{
    let x = p256::Scalar::from_repr(a.repr.into()).unwrap();
    let y = p256::Scalar::from_repr(b.repr.into()).unwrap();
    Scalar { repr: (x + y).to_repr().into() }
}

/// `p256::Scalar`'s `*`: multiplication modulo the order. The order is prime, so the
/// product is zero only where a factor is.
#[verifier::external_body]
pub(crate) fn p256_scalar_mul(a: Scalar, b: Scalar) -> (r: Scalar)
    requires
        p256_scalar(a),
        p256_scalar(b),
    ensures
        p256_scalar(r),
        be_value(r.repr@) == (be_value(a.repr@) * be_value(b.repr@)) % p256_order(),
        be_value(r.repr@) == 0 <==> be_value(a.repr@) == 0 || be_value(b.repr@) == 0,
{
    let x = p256::Scalar::from_repr(a.repr.into()).unwrap();
    let y = p256::Scalar::from_repr(b.repr.into()).unwrap();
    Scalar { repr: (x * y).to_repr().into() }
}

/// `p256::Scalar`'s unary `-`: negation modulo the order.
#[verifier::external_body]
pub(crate) fn p256_scalar_neg(a: Scalar) -> (r: Scalar)
    requires
        p256_scalar(a),
    ensures
        p256_scalar(r),
        be_value(r.repr@) == (-be_value(a.repr@)) % p256_order(),
{
    let x = p256::Scalar::from_repr(a.repr.into()).unwrap();
    Scalar { repr: (-x).to_repr().into() }
}

/// `p256::Scalar::invert`: the inverse modulo the order, which every scalar but zero has.
#[verifier::external_body]
pub(crate) fn p256_scalar_invert(a: Scalar) -> (r: Option<Scalar>)
    requires
        p256_scalar(a),
    ensures
        r is Some <==> be_value(a.repr@) != 0,
        r matches Some(x) ==> p256_scalar(x) && (be_value(a.repr@) * be_value(x.repr@))
            % p256_order() == 1,
{
    let x = p256::Scalar::from_repr(a.repr.into()).unwrap();
    let inverse: Option<p256::Scalar> = x.invert().into();
    inverse.map(|i| Scalar { repr: i.to_repr().into() })
}

/// `p256::Scalar::random`: a scalar drawn with the given generator. Nothing is known of it
/// but that it is a scalar.
#[verifier::external_body]
pub(crate) fn p256_scalar_random(rng: &mut rand_core::OsRng) -> (r: Scalar)
    ensures
        p256_scalar(r),
{
    Scalar { repr: p256::Scalar::random(rng).to_repr().into() }
}

/// `p256::Scalar::from_repr`: accepts 32 bytes where the number they write, big-endian, is
/// below the order.
#[verifier::external_body]
pub(crate) fn p256_scalar_from_repr(bytes: &[u8]) -> (r: Option<Scalar>)
    requires
        bytes@.len() == 32,
    ensures
        r is Some <==> be_value(bytes@) < p256_order(),
        r matches Some(s) ==> s.repr@ == bytes@,
{
    let repr: [u8; 32] = bytes.try_into().unwrap();
    let scalar: Option<p256::Scalar> = p256::Scalar::from_repr(repr.into()).into();
    scalar.map(|s| Scalar { repr: s.to_repr().into() })
}

/// `p256::ProjectivePoint::GENERATOR`: the generator, which is its own multiple 1.
#[verifier::external_body]
pub(crate) fn p256_generator() -> (r: Point)
    ensures
        p256_point(r),
        p256_dlog(r.repr@) == 1,
        r.repr@ == p256_encode(1),
{
    Point { repr: p256::ProjectivePoint::GENERATOR.to_bytes().into() }
}

/// `p256::ProjectivePoint`'s `+`: the sum of two points is the sum of their multiples of
/// the generator, modulo the order.
#[verifier::external_body]
pub(crate) fn p256_point_add(a: Point, b: Point) -> (r: Point)
    requires
        p256_point(a),
        p256_point(b),
    ensures
        p256_point(r),
        p256_dlog(r.repr@) == (p256_dlog(a.repr@) + p256_dlog(b.repr@)) % p256_order(),
{
    let x = p256::ProjectivePoint::from_bytes(&a.repr.into()).unwrap();
    let y = p256::ProjectivePoint::from_bytes(&b.repr.into()).unwrap();
    Point { repr: (x + y).to_bytes().into() }
}

/// `p256::ProjectivePoint`'s `*` by a scalar: the multiple of a point multiplies its
/// multiple of the generator, modulo the order.
#[verifier::external_body]
pub(crate) fn p256_point_mul(p: Point, s: Scalar) -> (r: Point)
    requires
        p256_point(p),
        p256_scalar(s),
    ensures
        p256_point(r),
        p256_dlog(r.repr@) == (p256_dlog(p.repr@) * be_value(s.repr@)) % p256_order(),
{
    let x = p256::ProjectivePoint::from_bytes(&p.repr.into()).unwrap();
    let y = p256::Scalar::from_repr(s.repr.into()).unwrap();
    Point { repr: (x * y).to_bytes().into() }
}

/// `p256::ProjectivePoint::is_identity`: the identity is the multiple 0 of the generator.
#[verifier::external_body]
pub(crate) fn p256_point_is_identity(p: Point) -> (r: bool)
    requires
        p256_point(p),
    ensures
        r == (p256_dlog(p.repr@) == 0),
{
    let x = p256::ProjectivePoint::from_bytes(&p.repr.into()).unwrap();
    group::Group::is_identity(&x).into()
}

/// `p256::ProjectivePoint::from_bytes`, then `to_bytes`: decodes 33 bytes, where they
/// encode a point, and gives the point in its canonical encoding.
#[verifier::external_body]
pub(crate) fn p256_point_decode(bytes: &[u8]) -> (r: Option<Point>)
    requires
        bytes@.len() == 33,
    ensures
        r is Some <==> p256_recode(bytes@) is Some,
        r matches Some(p) ==> p256_point(p) && p256_recode(bytes@) == Some(p.repr@),
{
    let repr: [u8; 33] = bytes.try_into().unwrap();
    let point: Option<p256::ProjectivePoint> = p256::ProjectivePoint::from_bytes(&repr.into()).into();
    point.map(|p| Point { repr: p.to_bytes().into() })
}

/// `multiexp::multiexp_vartime` on P-256: the sum of the multiples of the points by their
/// scalars. The scalars of P-256 are written big-endian, which `little` must say.
#[verifier::external_body]
pub(crate) fn p256_multiexp_vartime(pairs: &Vec<(Scalar, Point)>, little: bool) -> (r: Point)
    requires
        !little,
        pairs.len() > 0,
        p256_pairs_wf(pairs@),
    ensures
        p256_point(r),
        p256_dlog(r.repr@) == dot(p256_pairs(pairs@)) % p256_order(),
{
    let converted: Vec<(p256::Scalar, p256::ProjectivePoint)> = pairs.iter().map(|(s, p)| (
        p256::Scalar::from_repr(s.repr.into()).unwrap(),
        p256::ProjectivePoint::from_bytes(&p.repr.into()).unwrap(),
    )).collect();
    Point { repr: multiexp::multiexp_vartime(&converted, little).to_bytes().into() }
}

/// `multiexp::BatchVerifier::new`: an empty batch.
#[verifier::external_body]
pub(crate) fn p256_batch_new(capacity: usize, little: bool) -> (b: P256Batch)
    requires
        !little,
    ensures
        p256_batch_entries(b) == Seq::<(u16, Seq<(int, int)>)>::empty(),
{
    P256Batch { inner: multiexp::BatchVerifier::new(capacity, little) }
}

/// `multiexp::BatchVerifier::queue`: adds a statement to the batch, under an id. The
/// verifier multiplies the statement's scalars by a weight and keeps the products: the
/// weight is 1 where the batch is empty, and else a scalar drawn with the given generator.
#[verifier::external_body]
pub(crate) fn p256_batch_queue(
    b: &mut P256Batch,
    rng: &mut rand_core::OsRng,
    id: u16,
    pairs: Vec<(Scalar, Point)>,
)
    requires
        pairs.len() > 0,
        p256_pairs_wf(pairs@),
    ensures
        exists|u: int|
            crate::curve::batch_queued(
                p256_batch_entries(*old(b)),
                p256_batch_entries(*final(b)),
                id,
                p256_pairs(pairs@),
                u,
                p256_order(),
            ),
{
    let converted: Vec<(p256::Scalar, p256::ProjectivePoint)> = pairs.iter().map(|(s, p)| (
        p256::Scalar::from_repr(s.repr.into()).unwrap(),
        p256::ProjectivePoint::from_bytes(&p.repr.into()).unwrap(),
    )).collect();
    b.inner.queue(rng, id, converted);
}

/// `multiexp::BatchVerifier::verify_with_vartime_blame`: adds up all that the batch
/// holds and returns `Ok` exactly where the sum is the identity. Where it is not, it halves
/// the batch until one statement is left whose own sum is not the identity, and returns
/// that statement's id. It needs a statement to add up.
#[verifier::external_body]
pub(crate) fn p256_batch_verify(b: &P256Batch) -> (r: Result<(), u16>)
    requires
        crate::curve::batch_checkable(p256_batch_entries(*b)),
    ensures
        crate::curve::batch_outcome(p256_batch_entries(*b), p256_order(), r),
{
    b.inner.verify_with_vartime_blame()
}

/// `multiexp::BatchVerifier::verify_vartime_with_vartime_blame`: as
/// `verify_with_vartime_blame`, adding up in variable time.
#[verifier::external_body]
pub(crate) fn p256_batch_verify_vartime(b: &P256Batch) -> (r: Result<(), u16>)
    requires
        crate::curve::batch_checkable(p256_batch_entries(*b)),
    ensures
        crate::curve::batch_outcome(p256_batch_entries(*b), p256_order(), r),
{
    b.inner.verify_vartime_with_vartime_blame()
}

} // verus!
