//! What the protocol needs of a curve: a group of prime order with its scalar field,
//! fixed-length encodings, and hashes into the field.

use crate::modmath::{
    dot, lemma_add_mod_left, lemma_add_mod_right, lemma_mul_mod_left, lemma_mul_mod_right,
    lemma_reduced,
};
use vstd::prelude::*;

pub mod hash;
pub mod k256_ops;
pub mod kp256;
pub mod p256_ops;

verus! {

/// The operating system's random number generator, `rand_core::OsRng`: the source of every
/// random value that the protocol draws.
#[verifier::external_type_specification]
#[verifier::external_body]
pub struct ExOsRng(rand_core::OsRng);

/// Why a byte string is not the encoding of a scalar or of a point.
#[derive(Clone, Copy, Debug)]
pub enum CurveError {
    /// The byte string has the wrong length: expected, found.
    InvalidLength(usize, usize),
    /// The bytes are not the canonical encoding of a scalar.
    InvalidScalar,
    /// The bytes are not the canonical encoding of a point, or encode the identity.
    InvalidPoint,
}

/// A curve.
///
/// A scalar `f` stands for the integer `f_val(f)` modulo `order()`. A point `g` stands for
/// the multiple `g_log(g)` of the generator: the group has prime order, so every point is
/// one, and adding points adds these multiples modulo `order()`.
pub trait Curve: Sized {
    /// A scalar: an element of the field of integers modulo the group's order.
    type F: Copy;

    /// A point: an element of the group.
    type G: Copy;

    /// A batch of statements about scalars and points, to be checked together.
    type Batch;

    /// The order of the group, a prime.
    spec fn order() -> int;

    /// The bytes that identify the curve.
    spec fn id_spec() -> Seq<u8>;

    /// Whether the scalars' encoding is little-endian.
    spec fn little_endian_spec() -> bool;

    /// The length of an encoded scalar.
    spec fn f_len_spec() -> nat;

    /// The length of an encoded point.
    spec fn g_len_spec() -> nat;

    /// Whether `f` is a scalar of this curve.
    spec fn f_wf(f: Self::F) -> bool;

    /// The integer that `f` stands for, at least 0 and below `order()`.
    spec fn f_val(f: Self::F) -> int;

    /// The encoding of `f`.
    spec fn f_repr(f: Self::F) -> Seq<u8>;

    /// Whether `g` is a point of this curve.
    spec fn g_wf(g: Self::G) -> bool;

    /// The multiple of the generator that `g` is, at least 0 and below `order()`.
    spec fn g_log(g: Self::G) -> int;

    /// The encoding of `g`.
    spec fn g_repr(g: Self::G) -> Seq<u8>;

    /// Whether `bytes` is the canonical encoding of a scalar.
    spec fn scalar_encoding(bytes: Seq<u8>) -> bool;

    /// Whether `bytes` is the canonical encoding of a point other than the identity.
    spec fn point_encoding(bytes: Seq<u8>) -> bool;

    /// The digest of a message.
    spec fn hash_msg_spec(msg: Seq<u8>) -> Seq<u8>;

    /// The scalar that a message hashes to under a domain separation tag.
    spec fn hash_to_f_spec(dst: Seq<u8>, msg: Seq<u8>) -> int;

    /// The binding factor that a transcript hashes to.
    spec fn hash_binding_factor_spec(binding: Seq<u8>) -> int;

    /// The nonce made from a secret scalar and a seed.
    spec fn nonce_spec(secret: Self::F, seed: Seq<u8>) -> int;

    /// What a batch holds, in the order of arrival: each statement with the id it was queued
    /// under, as the pairs of integers that its scalars and points stand for, every scalar
    /// multiplied by the weight that the batch gave the statement.
    spec fn batch_entries(b: &Self::Batch) -> Seq<(u16, Seq<(int, int)>)>;

    /// The order is larger than every participant index.
    proof fn lemma_order()
        ensures
            Self::order() > 0x10000,
    ;

    /// The lengths of the encodings are positive and small.
    proof fn lemma_lengths()
        ensures
            Self::id_spec().len() <= 255,
            0 < Self::f_len_spec() <= 255,
            0 < Self::g_len_spec() <= 255,
    ;

    /// A scalar stands for a reduced integer, and its encoding is canonical.
    proof fn lemma_scalar(f: Self::F)
        requires
            Self::f_wf(f),
        ensures
            0 <= Self::f_val(f) < Self::order(),
            Self::f_repr(f).len() == Self::f_len_spec(),
            Self::scalar_encoding(Self::f_repr(f)),
    ;

    /// A point stands for a reduced multiple, and its encoding is canonical; it is the
    /// encoding of a point other than the identity exactly where the point is not the
    /// identity.
    proof fn lemma_point(g: Self::G)
        requires
            Self::g_wf(g),
        ensures
            0 <= Self::g_log(g) < Self::order(),
            Self::g_repr(g).len() == Self::g_len_spec(),
            Self::g_log(g) != 0 <==> Self::point_encoding(Self::g_repr(g)),
    ;

    /// Scalars with the same encoding are the same.
    proof fn lemma_scalar_repr(a: Self::F, b: Self::F)
        requires
            Self::f_wf(a),
            Self::f_wf(b),
            Self::f_repr(a) == Self::f_repr(b),
        ensures
            a == b,
    ;

    /// Every reduced integer is what some scalar stands for.
    proof fn lemma_scalar_exists(val: int)
        requires
            0 <= val < Self::order(),
        ensures
            exists|f: Self::F| Self::f_wf(f) && Self::f_val(f) == val,
    ;

    /// Scalars that stand for the same integer are the same.
    proof fn lemma_scalar_val(a: Self::F, b: Self::F)
        requires
            Self::f_wf(a),
            Self::f_wf(b),
            Self::f_val(a) == Self::f_val(b),
        ensures
            a == b,
    ;

    /// Points that are the same multiple of the generator are the same.
    proof fn lemma_point_log(a: Self::G, b: Self::G)
        requires
            Self::g_wf(a),
            Self::g_wf(b),
            Self::g_log(a) == Self::g_log(b),
        ensures
            a == b,
    ;

    /// Points with the same encoding are the same.
    proof fn lemma_point_repr(a: Self::G, b: Self::G)
        requires
            Self::g_wf(a),
            Self::g_wf(b),
            Self::g_repr(a) == Self::g_repr(b),
        ensures
            a == b,
    ;

    /// The bytes that identify the curve.
    fn id() -> (r: Vec<u8>)
        ensures
            r@ == Self::id_spec(),
    ;

    /// Whether the scalars' encoding is little-endian.
    fn little_endian() -> (r: bool)
        ensures
            r == Self::little_endian_spec(),
    ;

    /// The generator of the group.
    fn generator() -> (g: Self::G)
        ensures
            Self::g_wf(g),
            Self::g_log(g) == 1,
    ;

    /// The scalar that stands for `x`.
    fn f_from_u64(x: u64) -> (r: Self::F)
        ensures
            Self::f_wf(r),
            Self::f_val(r) == x as int % Self::order(),
    ;

    /// The sum of two scalars.
    fn f_add(a: Self::F, b: Self::F) -> (r: Self::F)
        requires
            Self::f_wf(a),
            Self::f_wf(b),
        ensures
            Self::f_wf(r),
            Self::f_val(r) == (Self::f_val(a) + Self::f_val(b)) % Self::order(),
    ;

    /// The product of two scalars. The scalars are a field: the product is zero only where
    /// a factor is.
    fn f_mul(a: Self::F, b: Self::F) -> (r: Self::F)
        requires
            Self::f_wf(a),
            Self::f_wf(b),
        ensures
            Self::f_wf(r),
            Self::f_val(r) == (Self::f_val(a) * Self::f_val(b)) % Self::order(),
            Self::f_val(r) == 0 <==> Self::f_val(a) == 0 || Self::f_val(b) == 0,
    ;

    /// The negation of a scalar.
    fn f_neg(a: Self::F) -> (r: Self::F)
        requires
            Self::f_wf(a),
        ensures
            Self::f_wf(r),
            Self::f_val(r) == (-Self::f_val(a)) % Self::order(),
    ;

    /// The inverse of a scalar: every scalar but zero has one.
    fn f_invert(a: Self::F) -> (r: Option<Self::F>)
        requires
            Self::f_wf(a),
        ensures
            r is Some <==> Self::f_val(a) != 0,
            r matches Some(x) ==> Self::f_wf(x) && (Self::f_val(a) * Self::f_val(x))
                % Self::order() == 1,
    ;

    /// A scalar drawn at random.
    fn f_random(rng: &mut rand_core::OsRng) -> (r: Self::F)
        ensures
            Self::f_wf(r),
    ;

    /// Whether two scalars are the same.
    fn f_eq(a: Self::F, b: Self::F) -> (r: bool)
        requires
            Self::f_wf(a),
            Self::f_wf(b),
        ensures
            r == (Self::f_val(a) == Self::f_val(b)),
            r == (a == b),
    ;

    /// The sum of two points.
    fn g_add(a: Self::G, b: Self::G) -> (r: Self::G)
        requires
            Self::g_wf(a),
            Self::g_wf(b),
        ensures
            Self::g_wf(r),
            Self::g_log(r) == (Self::g_log(a) + Self::g_log(b)) % Self::order(),
    ;

    /// The multiple of a point by a scalar.
    fn g_mul(p: Self::G, s: Self::F) -> (r: Self::G)
        requires
            Self::g_wf(p),
            Self::f_wf(s),
        ensures
            Self::g_wf(r),
            Self::g_log(r) == (Self::g_log(p) * Self::f_val(s)) % Self::order(),
    ;

    /// Whether two points are the same.
    fn g_eq(a: Self::G, b: Self::G) -> (r: bool)
        requires
            Self::g_wf(a),
            Self::g_wf(b),
        ensures
            r == (Self::g_log(a) == Self::g_log(b)),
            r == (a == b),
    ;

    /// The sum of the multiples of the points by their scalars.
    fn multiexp_vartime(pairs: &Vec<(Self::F, Self::G)>) -> (r: Self::G)
        requires
            pairs.len() > 0,
            forall|i: int|
                0 <= i < pairs@.len() ==> Self::f_wf(#[trigger] pairs@[i].0) && Self::g_wf(
                    pairs@[i].1,
                ),
        ensures
            Self::g_wf(r),
            Self::g_log(r) == dot(Seq::new(
                    pairs@.len(),
                    |i: int| (Self::f_val(pairs@[i].0), Self::g_log(pairs@[i].1)),
                )) % Self::order(),
    ;

    /// An empty batch.
    fn batch_new(capacity: usize) -> (b: Self::Batch)
        ensures
            Self::batch_entries(&b) == Seq::<(u16, Seq<(int, int)>)>::empty(),
    ;

    /// Queues under `id` the statement that the multiples of the points by their scalars
    /// add up to the identity. The batch multiplies the statement's scalars by a weight: 1
    /// for the first statement, a scalar drawn at random for every other.
    fn batch_queue(
        b: &mut Self::Batch,
        rng: &mut rand_core::OsRng,
        id: u16,
        pairs: Vec<(Self::F, Self::G)>,
    )
        requires
            pairs.len() > 0,
            forall|i: int|
                0 <= i < pairs@.len() ==> Self::f_wf(#[trigger] pairs@[i].0) && Self::g_wf(
                    pairs@[i].1,
                ),
        ensures
            exists|u: int|
                #[trigger] batch_weight(u, Self::order(), Self::batch_entries(old(b)).len())
                    && Self::batch_entries(final(b)) == Self::batch_entries(old(b)).push(
                    (
                        id,
                        weighted(
                            Seq::new(
                                pairs@.len(),
                                |i: int| (Self::f_val(pairs@[i].0), Self::g_log(pairs@[i].1)),
                            ),
                            u,
                            Self::order(),
                        ),
                    ),
                ),
    ;

    /// Checks the statements of a batch together, in constant time: the batch passes
    /// exactly where all that it holds adds up to the identity. Where it does not, a
    /// statement is named that, as the batch holds it, does not add up to the identity.
    fn batch_verify(b: &Self::Batch) -> (r: Result<(), u16>)
        requires
            batch_checkable(Self::batch_entries(b)),
        ensures
            batch_outcome(Self::batch_entries(b), Self::order(), r),
    ;

    /// Checks the statements of a batch together, in variable time: as `batch_verify`.
    fn batch_verify_vartime(b: &Self::Batch) -> (r: Result<(), u16>)
        requires
            batch_checkable(Self::batch_entries(b)),
        ensures
            batch_outcome(Self::batch_entries(b), Self::order(), r),
    ;

    /// The length of an encoded scalar.
    #[allow(non_snake_case)]
    fn F_len() -> (r: usize)
        ensures
            r == Self::f_len_spec(),
    ;

    /// The length of an encoded point.
    #[allow(non_snake_case)]
    fn G_len() -> (r: usize)
        ensures
            r == Self::g_len_spec(),
    ;

    /// Decodes a scalar: the byte string must have the scalars' length and be canonical.
    #[allow(non_snake_case)]
    fn F_from_slice(slice: &[u8]) -> (r: Result<Self::F, CurveError>)
        ensures
            match r {
                Ok(f) => slice@.len() == Self::f_len_spec() && Self::scalar_encoding(slice@)
                    && Self::f_wf(f) && Self::f_repr(f) == slice@,
                Err(CurveError::InvalidLength(expected, found)) => slice@.len()
                    != Self::f_len_spec() && expected == Self::f_len_spec() && found
                    == slice@.len(),
                Err(CurveError::InvalidScalar) => slice@.len() == Self::f_len_spec()
                    && !Self::scalar_encoding(slice@),
                Err(CurveError::InvalidPoint) => false,
            },
    ;

    /// Decodes a point: the byte string must have the points' length, be canonical, and not
    /// encode the identity.
    #[allow(non_snake_case)]
    fn G_from_slice(slice: &[u8]) -> (r: Result<Self::G, CurveError>)
        ensures
            match r {
                Ok(g) => slice@.len() == Self::g_len_spec() && Self::point_encoding(slice@)
                    && Self::g_wf(g) && Self::g_repr(g) == slice@ && Self::g_log(g) != 0,
                Err(CurveError::InvalidLength(expected, found)) => slice@.len()
                    != Self::g_len_spec() && expected == Self::g_len_spec() && found
                    == slice@.len(),
                Err(CurveError::InvalidPoint) => slice@.len() == Self::g_len_spec()
                    && !Self::point_encoding(slice@),
                Err(CurveError::InvalidScalar) => false,
            },
    ;

    /// Encodes a scalar.
    #[allow(non_snake_case)]
    fn F_to_bytes(f: &Self::F) -> (r: Vec<u8>)
        requires
            Self::f_wf(*f),
        ensures
            r@ == Self::f_repr(*f),
    ;

    /// Encodes a point.
    #[allow(non_snake_case)]
    fn G_to_bytes(g: &Self::G) -> (r: Vec<u8>)
        requires
            Self::g_wf(*g),
        ensures
            r@ == Self::g_repr(*g),
    ;

    /// A nonce for one signature: 32 fresh random bytes, hashed together with the secret.
    fn random_nonce(secret: Self::F, rng: &mut rand_core::OsRng) -> (r: Self::F)
        requires
            Self::f_wf(secret),
        ensures
            Self::f_wf(r),
            exists|seed: Seq<u8>| seed.len() == 32 && Self::f_val(r) == Self::nonce_spec(secret, seed),
    ;

    /// The nonce made from a secret scalar and a seed.
    fn nonce_from_seed(secret: Self::F, seed: &[u8]) -> (r: Self::F)
        requires
            Self::f_wf(secret),
        ensures
            Self::f_wf(r),
            Self::f_val(r) == Self::nonce_spec(secret, seed@),
    ;

    /// The digest of a message.
    fn hash_msg(msg: &[u8]) -> (r: Vec<u8>)
        ensures
            r@ == Self::hash_msg_spec(msg@),
    ;

    /// The binding factor that a transcript hashes to.
    fn hash_binding_factor(binding: &[u8]) -> (r: Self::F)
        ensures
            Self::f_wf(r),
            Self::f_val(r) == Self::hash_binding_factor_spec(binding@),
    ;

    /// The scalar that a message hashes to under a domain separation tag, which is not empty.
    #[allow(non_snake_case)]
    fn hash_to_F(dst: &[u8], msg: &[u8]) -> (r: Self::F)
        requires
            dst@.len() > 0,
        ensures
            Self::f_wf(r),
            Self::f_val(r) == Self::hash_to_f_spec(dst@, msg@),
    ;
}

/// Whether every scalar and point of the pairs is one of the curve.
pub open spec fn pairs_wf<C: Curve>(pairs: Seq<(C::F, C::G)>) -> bool {
    forall|i: int| 0 <= i < pairs.len() ==> C::f_wf(#[trigger] pairs[i].0) && C::g_wf(pairs[i].1)
}

/// The integers that the scalars and points of the pairs stand for.
pub open spec fn pairs_model<C: Curve>(pairs: Seq<(C::F, C::G)>) -> Seq<(int, int)> {
    Seq::new(pairs.len(), |i: int| (C::f_val(pairs[i].0), C::g_log(pairs[i].1)))
}

/// Whether a statement holds: the sum of the products of its pairs is 0 modulo `q`.
pub open spec fn statement_holds(pairs: Seq<(int, int)>, q: int) -> bool {
    dot(pairs) % q == 0
}

/// Whether a batch can be checked: it is not empty, and neither is any of its statements.
pub open spec fn batch_checkable(entries: Seq<(u16, Seq<(int, int)>)>) -> bool {
    &&& entries.len() > 0
    &&& forall|i: int| 0 <= i < entries.len() ==> (#[trigger] entries[i]).1.len() > 0
}

/// The pairs of a statement with every scalar multiplied by the weight `u`.
pub open spec fn weighted(pairs: Seq<(int, int)>, u: int, q: int) -> Seq<(int, int)> {
    Seq::new(pairs.len(), |i: int| ((pairs[i].0 * u) % q, pairs[i].1))
}

/// Whether `u` is a weight that a batch may give a statement when it holds `held` others:
/// a reduced scalar, and 1 where the statement is the first.
pub open spec fn batch_weight(u: int, q: int, held: nat) -> bool {
    &&& 0 <= u < q
    &&& held == 0 ==> u == 1
}

/// Whether a batch that held `before` holds `after` once a statement is queued under `id`
/// with the weight `u`.
pub open spec fn batch_queued(
    before: Seq<(u16, Seq<(int, int)>)>,
    after: Seq<(u16, Seq<(int, int)>)>,
    id: u16,
    pairs: Seq<(int, int)>,
    u: int,
    q: int,
) -> bool {
    &&& batch_weight(u, q, before.len())
    &&& after == before.push((id, weighted(pairs, u, q)))
}

/// The sum of the first `upto` statements that a batch holds.
pub open spec fn batch_total(entries: Seq<(u16, Seq<(int, int)>)>, upto: nat) -> int
    decreases upto,
{
    if upto == 0 {
        0
    } else {
        batch_total(entries, (upto - 1) as nat) + dot(entries[upto - 1].1)
    }
}

/// What the check of a batch returns: success exactly where all that the batch holds adds
/// up to 0 modulo `q`, and else the id of a statement that, as the batch holds it, does
/// not.
pub open spec fn batch_outcome(
    entries: Seq<(u16, Seq<(int, int)>)>,
    q: int,
    r: Result<(), u16>,
) -> bool {
    &&& r is Ok <==> batch_total(entries, entries.len()) % q == 0
    &&& r matches Err(id) ==> exists|i: int|
        0 <= i < entries.len() && (#[trigger] entries[i]).0 == id && dot(entries[i].1) % q != 0
}

/// Whether `weights` are weights that a batch may give `n` statements: reduced scalars,
/// the first of them 1.
pub open spec fn batch_weights(weights: Seq<int>, n: nat, q: int) -> bool {
    &&& weights.len() == n
    &&& forall|i: int| 0 <= i < n ==> 0 <= #[trigger] weights[i] < q
    &&& n > 0 ==> weights[0] == 1
}

/// Whether a batch holds the given statements under the given weights.
pub open spec fn batch_of(
    entries: Seq<(u16, Seq<(int, int)>)>,
    statements: Seq<(u16, Seq<(int, int)>)>,
    weights: Seq<int>,
    q: int,
) -> bool {
    &&& entries.len() == statements.len()
    &&& batch_weights(weights, statements.len(), q)
    &&& forall|i: int|
        0 <= i < entries.len() ==> #[trigger] entries[i] == (
            statements[i].0,
            weighted(statements[i].1, weights[i], q),
        )
}

/// The sum of the first `upto` statements, each times its weight.
pub open spec fn weighted_total(
    statements: Seq<(u16, Seq<(int, int)>)>,
    weights: Seq<int>,
    upto: nat,
) -> int
    decreases upto,
{
    if upto == 0 {
        0
    } else {
        weighted_total(statements, weights, (upto - 1) as nat) + weights[upto - 1] * dot(
            statements[upto - 1].1,
        )
    }
}

/// What the check of statements in a batch returns, given the weights that the batch gave
/// them: success exactly where the statements, each times its weight, add up to 0 modulo
/// `q`, and else the id of a statement that, times its weight, does not.
pub open spec fn batch_verdict(
    statements: Seq<(u16, Seq<(int, int)>)>,
    weights: Seq<int>,
    q: int,
    r: Result<(), u16>,
) -> bool {
    &&& r is Ok <==> weighted_total(statements, weights, statements.len()) % q == 0
    &&& r matches Err(id) ==> exists|i: int|
        0 <= i < statements.len() && (#[trigger] statements[i]).0 == id && (weights[i] * dot(
            statements[i].1,
        )) % q != 0
}

/// A statement with its scalars multiplied by a weight adds up to the weight times what
/// it adds up to.
pub proof fn lemma_dot_weighted(pairs: Seq<(int, int)>, u: int, q: int)
    requires
        q > 0,
    ensures
        dot(weighted(pairs, u, q)) % q == (u * dot(pairs)) % q,
    decreases pairs.len(),
{
    if pairs.len() == 0 {
        assert(u * 0 == 0) by (nonlinear_arith);
    } else {
        let front = pairs.drop_last();
        let last = pairs.last();
        lemma_dot_weighted(front, u, q);
        assert(weighted(pairs, u, q).drop_last() =~= weighted(front, u, q));
        assert(weighted(pairs, u, q).last() == ((last.0 * u) % q, last.1));
        // ((s·u) % q)·p = s·u·p modulo q
        lemma_mul_mod_left(last.0 * u, last.1, q);
        assert((last.0 * u) * last.1 == u * (last.0 * last.1)) by (nonlinear_arith);
        lemma_add_mod_left(dot(weighted(front, u, q)), ((last.0 * u) % q) * last.1, q);
        lemma_add_mod_left(u * dot(front), ((last.0 * u) % q) * last.1, q);
        lemma_add_mod_right(u * dot(front), ((last.0 * u) % q) * last.1, q);
        lemma_add_mod_right(u * dot(front), u * (last.0 * last.1), q);
        assert(u * dot(front) + u * (last.0 * last.1) == u * (dot(front) + last.0 * last.1))
            by (nonlinear_arith);
    }
}

/// What a batch holds adds up to what its statements, each times its weight, add up to.
pub proof fn lemma_batch_total(
    entries: Seq<(u16, Seq<(int, int)>)>,
    statements: Seq<(u16, Seq<(int, int)>)>,
    weights: Seq<int>,
    q: int,
    upto: nat,
)
    requires
        q > 0,
        batch_of(entries, statements, weights, q),
        upto <= entries.len(),
    ensures
        batch_total(entries, upto) % q == weighted_total(statements, weights, upto) % q,
    decreases upto,
{
    if upto > 0 {
        let k = (upto - 1) as nat;
        lemma_batch_total(entries, statements, weights, q, k);
        assert(entries[k as int] == (
            statements[k as int].0,
            weighted(statements[k as int].1, weights[k as int], q),
        ));
        lemma_dot_weighted(statements[k as int].1, weights[k as int], q);
        lemma_add_mod_left(batch_total(entries, k), dot(entries[k as int].1), q);
        lemma_add_mod_left(weighted_total(statements, weights, k), dot(entries[k as int].1), q);
        lemma_add_mod_right(weighted_total(statements, weights, k), dot(entries[k as int].1), q);
        lemma_add_mod_right(
            weighted_total(statements, weights, k),
            weights[k as int] * dot(statements[k as int].1),
            q,
        );
    }
}

/// Statements that all hold add up to 0, whatever their weights.
pub proof fn lemma_weighted_total_holds(
    statements: Seq<(u16, Seq<(int, int)>)>,
    weights: Seq<int>,
    q: int,
    upto: nat,
)
    requires
        q > 0,
        upto <= statements.len(),
        weights.len() == statements.len(),
        forall|i: int| 0 <= i < statements.len() ==> statement_holds((#[trigger] statements[i]).1, q),
    ensures
        weighted_total(statements, weights, upto) % q == 0,
    decreases upto,
{
    if upto > 0 {
        let k = (upto - 1) as nat;
        lemma_weighted_total_holds(statements, weights, q, k);
        lemma_weight_keeps(statements[k as int].1, weights[k as int], q);
        lemma_add_mod_left(
            weighted_total(statements, weights, k),
            weights[k as int] * dot(statements[k as int].1),
            q,
        );
        lemma_add_mod_right(0, weights[k as int] * dot(statements[k as int].1), q);
        assert(0int % q == 0);
    }
}

/// A statement that holds holds times any weight.
pub proof fn lemma_weight_keeps(pairs: Seq<(int, int)>, u: int, q: int)
    requires
        q > 0,
        statement_holds(pairs, q),
    ensures
        (u * dot(pairs)) % q == 0,
{
    lemma_mul_mod_right(u, dot(pairs), q);
    assert(u * (dot(pairs) % q) == 0) by (nonlinear_arith)
        requires
            dot(pairs) % q == 0,
    ;
    assert(0int % q == 0);
}

/// The check of a batch, as the check of its statements under their weights: it passes
/// exactly where the weighted statements add up to 0. So it passes where every statement
/// holds, and a statement that it names does not hold.
pub proof fn lemma_batch_verdict(
    entries: Seq<(u16, Seq<(int, int)>)>,
    statements: Seq<(u16, Seq<(int, int)>)>,
    weights: Seq<int>,
    q: int,
    r: Result<(), u16>,
)
    requires
        q > 0,
        batch_of(entries, statements, weights, q),
        batch_outcome(entries, q, r),
    ensures
        batch_verdict(statements, weights, q, r),
        (forall|i: int| 0 <= i < statements.len() ==> statement_holds((#[trigger] statements[i]).1, q))
            ==> r is Ok,
        r matches Err(id) ==> exists|i: int|
            0 <= i < statements.len() && (#[trigger] statements[i]).0 == id && !statement_holds(
                statements[i].1,
                q,
            ),
{
    lemma_batch_total(entries, statements, weights, q, entries.len());
    if forall|i: int| 0 <= i < statements.len() ==> statement_holds((#[trigger] statements[i]).1, q) {
        lemma_weighted_total_holds(statements, weights, q, statements.len());
    }
    if let Err(id) = r {
        let i = choose|i: int|
            0 <= i < entries.len() && (#[trigger] entries[i]).0 == id && dot(entries[i].1) % q != 0;
        assert(entries[i] == (statements[i].0, weighted(statements[i].1, weights[i], q)));
        lemma_dot_weighted(statements[i].1, weights[i], q);
        assert(statements[i].0 == id);
        if statement_holds(statements[i].1, q) {
            lemma_weight_keeps(statements[i].1, weights[i], q);
        }
    }
}

/// The scalar zero.
pub fn f_zero<C: Curve>() -> (r: C::F)
    ensures
        C::f_wf(r),
        C::f_val(r) == 0,
{
    proof {
        C::lemma_order();
        lemma_reduced(0, C::order());
    }
    C::f_from_u64(0)
}

/// The scalar one.
pub fn f_one<C: Curve>() -> (r: C::F)
    ensures
        C::f_wf(r),
        C::f_val(r) == 1,
{
    proof {
        C::lemma_order();
        lemma_reduced(1, C::order());
    }
    C::f_from_u64(1)
}

/// The scalar that stands for a participant index.
pub fn f_from_u16<C: Curve>(x: u16) -> (r: C::F)
    ensures
        C::f_wf(r),
        C::f_val(r) == x,
{
    proof {
        C::lemma_order();
        lemma_reduced(x as int, C::order());
    }
    C::f_from_u64(x as u64)
}

/// The difference of two scalars.
pub fn f_sub<C: Curve>(a: C::F, b: C::F) -> (r: C::F)
    requires
        C::f_wf(a),
        C::f_wf(b),
    ensures
        C::f_wf(r),
        C::f_val(r) == (C::f_val(a) - C::f_val(b)) % C::order(),
{
    proof {
        C::lemma_order();
        lemma_add_mod_right(C::f_val(a), -C::f_val(b), C::order());
    }
    C::f_add(a, C::f_neg(b))
}

/// The scalar that a byte string encodes.
pub open spec fn scalar_of<C: Curve>(bytes: Seq<u8>) -> C::F {
    choose|f: C::F| C::f_wf(f) && C::f_repr(f) == bytes
}

/// The point that a byte string encodes.
pub open spec fn point_of<C: Curve>(bytes: Seq<u8>) -> C::G {
    choose|g: C::G| C::g_wf(g) && C::g_repr(g) == bytes
}

/// The integer that the scalar encoded by a byte string stands for.
pub open spec fn encoded_val<C: Curve>(bytes: Seq<u8>) -> int {
    C::f_val(scalar_of::<C>(bytes))
}

/// The multiple of the generator that the point encoded by a byte string is.
pub open spec fn encoded_log<C: Curve>(bytes: Seq<u8>) -> int {
    C::g_log(point_of::<C>(bytes))
}

/// A scalar is the scalar that its encoding encodes.
pub proof fn lemma_scalar_of<C: Curve>(f: C::F)
    requires
        C::f_wf(f),
    ensures
        scalar_of::<C>(C::f_repr(f)) == f,
        encoded_val::<C>(C::f_repr(f)) == C::f_val(f),
{
    let other = scalar_of::<C>(C::f_repr(f));
    C::lemma_scalar_repr(other, f);
}

/// A point is the point that its encoding encodes.
pub proof fn lemma_point_of<C: Curve>(g: C::G)
    requires
        C::g_wf(g),
    ensures
        point_of::<C>(C::g_repr(g)) == g,
        encoded_log::<C>(C::g_repr(g)) == C::g_log(g),
{
    let other = point_of::<C>(C::g_repr(g));
    C::lemma_point_repr(other, g);
}

/// The scalar that stands for an integer.
pub open spec fn scalar_with<C: Curve>(val: int) -> C::F {
    choose|f: C::F| C::f_wf(f) && C::f_val(f) == val
}

/// The point that is a multiple of the generator.
pub open spec fn point_with<C: Curve>(log: int) -> C::G {
    choose|g: C::G| C::g_wf(g) && C::g_log(g) == log
}

/// The scalar that stands for a reduced integer stands for it.
pub proof fn lemma_scalar_with_val<C: Curve>(val: int)
    requires
        0 <= val < C::order(),
    ensures
        C::f_wf(scalar_with::<C>(val)),
        C::f_val(scalar_with::<C>(val)) == val,
{
    C::lemma_scalar_exists(val);
}

/// A scalar is the scalar that stands for its integer.
pub proof fn lemma_scalar_with<C: Curve>(f: C::F)
    requires
        C::f_wf(f),
    ensures
        scalar_with::<C>(C::f_val(f)) == f,
{
    C::lemma_scalar_val(scalar_with::<C>(C::f_val(f)), f);
}

/// A point is the point that is its multiple of the generator.
pub proof fn lemma_point_with<C: Curve>(g: C::G)
    requires
        C::g_wf(g),
    ensures
        point_with::<C>(C::g_log(g)) == g,
{
    C::lemma_point_log(point_with::<C>(C::g_log(g)), g);
}

/// The integers that a sequence of scalars stands for.
pub open spec fn scalar_vals<C: Curve>(s: Seq<C::F>) -> Seq<int> {
    Seq::new(s.len(), |k: int| C::f_val(s[k]))
}

/// The multiples of the generator that a sequence of points is.
pub open spec fn point_logs<C: Curve>(s: Seq<C::G>) -> Seq<int> {
    Seq::new(s.len(), |k: int| C::g_log(s[k]))
}

/// Whether every scalar of a sequence belongs to the curve.
pub open spec fn scalars_wf<C: Curve>(s: Seq<C::F>) -> bool {
    forall|k: int| 0 <= k < s.len() ==> C::f_wf(#[trigger] s[k])
}

/// Whether every point of a sequence belongs to the curve.
pub open spec fn points_wf<C: Curve>(s: Seq<C::G>) -> bool {
    forall|k: int| 0 <= k < s.len() ==> C::g_wf(#[trigger] s[k])
}

/// Where every statement but the first holds, the weighted statements add up to what the
/// first adds up to: its weight is 1.
pub proof fn lemma_weighted_total_first(
    statements: Seq<(u16, Seq<(int, int)>)>,
    weights: Seq<int>,
    q: int,
    upto: nat,
)
    requires
        q > 0,
        1 <= upto <= statements.len(),
        batch_weights(weights, statements.len(), q),
        forall|k: int| 0 < k < statements.len() ==> statement_holds((#[trigger] statements[k]).1, q),
    ensures
        weighted_total(statements, weights, upto) % q == dot(statements[0].1) % q,
    decreases upto,
{
    if upto == 1 {
        assert(weighted_total(statements, weights, 0) == 0);
        assert(weights[0] * dot(statements[0].1) == dot(statements[0].1)) by (nonlinear_arith)
            requires
                weights[0] == 1,
        ;
    } else {
        let k = (upto - 1) as nat;
        lemma_weighted_total_first(statements, weights, q, k);
        lemma_weight_keeps(statements[k as int].1, weights[k as int], q);
        lemma_add_mod_right(
            weighted_total(statements, weights, k),
            weights[k as int] * dot(statements[k as int].1),
            q,
        );
    }
}

/// A fault in the first statement is never hidden: where the first statement of a batch
/// fails and every other holds, the check names the first.
pub proof fn lemma_first_fails(
    statements: Seq<(u16, Seq<(int, int)>)>,
    weights: Seq<int>,
    q: int,
    r: Result<(), u16>,
)
    requires
        q > 0,
        statements.len() > 0,
        batch_weights(weights, statements.len(), q),
        batch_verdict(statements, weights, q, r),
        !statement_holds(statements[0].1, q),
        forall|k: int| 0 < k < statements.len() ==> statement_holds((#[trigger] statements[k]).1, q),
    ensures
        r == Err::<(), u16>(statements[0].0),
{
    lemma_weighted_total_first(statements, weights, q, statements.len());
    if let Err(id) = r {
        let k = choose|k: int|
            0 <= k < statements.len() && (#[trigger] statements[k]).0 == id && (weights[k] * dot(
                statements[k].1,
            )) % q != 0;
        if k > 0 {
            lemma_weight_keeps(statements[k].1, weights[k], q);
        }
    }
}

/// Queues a statement in a batch, under an id: the batch then holds the statement as
/// well, under a weight that is 1 for the first statement and drawn at random for every
/// other.
pub fn queue<C: Curve>(
    batch: &mut C::Batch,
    rng: &mut rand_core::OsRng,
    id: u16,
    pairs: Vec<(C::F, C::G)>,
)
    requires
        pairs@.len() > 0,
        pairs_wf::<C>(pairs@),
    ensures
        exists|u: int|
            batch_queued(
                C::batch_entries(old(batch)),
                C::batch_entries(final(batch)),
                id,
                pairs_model::<C>(pairs@),
                u,
                C::order(),
            ),
{
    let ghost before = C::batch_entries(batch);
    let ghost model = pairs_model::<C>(pairs@);
    C::batch_queue(batch, rng, id, pairs);
    proof {
        let u = choose|u: int|
            #[trigger] batch_weight(u, C::order(), before.len()) && C::batch_entries(batch)
                == before.push((id, weighted(model, u, C::order())));
        assert(batch_queued(before, C::batch_entries(batch), id, model, u, C::order()));
    }
}

/// A batch that holds statements under weights holds one more once it is queued.
pub proof fn lemma_batch_queued(
    before: Seq<(u16, Seq<(int, int)>)>,
    after: Seq<(u16, Seq<(int, int)>)>,
    statements: Seq<(u16, Seq<(int, int)>)>,
    weights: Seq<int>,
    id: u16,
    pairs: Seq<(int, int)>,
    u: int,
    q: int,
)
    requires
        batch_of(before, statements, weights, q),
        batch_queued(before, after, id, pairs, u, q),
    ensures
        batch_of(after, statements.push((id, pairs)), weights.push(u), q),
{
    let more = statements.push((id, pairs));
    let heavier = weights.push(u);
    assert forall|i: int| 0 <= i < after.len() implies #[trigger] after[i] == (
        more[i].0,
        weighted(more[i].1, heavier[i], q),
    ) by {
        if i < before.len() {
            assert(after[i] == before[i]);
        }
    }
}

} // verus!
