//! The curves P-256 and secp256k1: scalars of 32 bytes, points of 33 bytes in compressed
//! form, and hashing with SHA-256.

use crate::bytes::{
    append, be_bytes, be_value, bytes_eq, lemma_be_bytes, lemma_be_value_bound,
    lemma_be_value_injective, pow256,
};
use crate::curve::hash::{hash_to_reduced, hash_to_wide, random_bytes, sha256, sha256_digest};
use crate::curve::k256_ops::{
    k256_batch_entries, k256_batch_new, k256_batch_queue, k256_batch_verify,
    k256_batch_verify_vartime, k256_dlog, k256_generator, k256_multiexp_vartime, k256_order,
    k256_pairs, k256_point, k256_point_add, k256_point_decode, k256_point_is_identity,
    k256_point_mul, k256_recode, k256_scalar, k256_scalar_add, k256_scalar_from_repr,
    k256_scalar_from_u64, k256_scalar_invert, k256_scalar_mul, k256_scalar_neg, k256_scalar_random,
    K256Batch,
};
use crate::curve::p256_ops::{
    p256_batch_entries, p256_batch_new, p256_batch_queue, p256_batch_verify,
    p256_batch_verify_vartime, p256_dlog, p256_generator, p256_multiexp_vartime, p256_order,
    p256_pairs, p256_point, p256_point_add, p256_point_decode, p256_point_is_identity,
    p256_point_mul, p256_recode, p256_scalar, p256_scalar_add, p256_scalar_from_repr,
    p256_scalar_from_u64, p256_scalar_invert, p256_scalar_mul, p256_scalar_neg, p256_scalar_random,
    P256Batch,
};
use crate::algorithm::Hram;
use crate::curve::{batch_queued, batch_weight, Curve, CurveError};
use vstd::array::array_as_slice;
use vstd::prelude::*;
use vstd::slice::slice_to_vec;

verus! {

/// A scalar, as the 32 bytes that write it big-endian.
#[derive(Clone, Copy, Debug, PartialEq, Eq)]
pub struct Scalar {
    pub repr: [u8; 32],
}

/// A point, as the 33 bytes of its compressed encoding: a byte that tells the sign of the
/// second coordinate, then the first coordinate. The identity is written as 33 zero bytes.
#[derive(Clone, Copy, Debug, PartialEq, Eq)]
pub struct Point {
    pub repr: [u8; 33],
}

/// The array of 32 bytes that holds the first `upto` bytes of `s`, and zeros after them.
pub open spec fn array_of(s: Seq<u8>, upto: nat) -> [u8; 32]
    decreases upto,
{
    if upto == 0 {
        vstd::array::spec_array_fill_for_copy_type::<u8, 32>(0u8)
    } else {
        vstd::array::spec_array_update(array_of(s, (upto - 1) as nat), upto - 1, s[upto - 1])
    }
}

/// The array that holds the first `upto` bytes of `s` holds them.
pub proof fn lemma_array_of(s: Seq<u8>, upto: nat)
    requires
        upto <= 32,
        upto <= s.len(),
    ensures
        forall|k: int| 0 <= k < upto ==> #[trigger] array_of(s, upto)@[k] == s[k],
    decreases upto,
{
    if upto > 0 {
        lemma_array_of(s, (upto - 1) as nat);
        let before = array_of(s, (upto - 1) as nat);
        assert(array_of(s, upto)@ == before@.update(upto - 1, s[upto - 1]));
    }
}

/// A number below 256 to the power 32 is the value of an array of 32 bytes.
pub proof fn lemma_scalar_of_value(val: int)
    requires
        0 <= val < pow256(32),
    ensures
        be_value(array_of(be_bytes(val, 32), 32)@) == val,
{
    lemma_be_bytes(val, 32);
    lemma_array_of(be_bytes(val, 32), 32);
    assert(array_of(be_bytes(val, 32), 32)@ =~= be_bytes(val, 32));
}

/// 256 to the power 32.
pub proof fn lemma_pow256_32()
    ensures
        pow256(32) == 0x1_0000_0000_0000_0000_0000_0000_0000_0000_0000_0000_0000_0000_0000_0000_0000_0000int,
{
    reveal_with_fuel(pow256, 33);
}

/// The label of the message digest: "digest".
pub open spec fn label_digest() -> Seq<u8> {
    seq![0x64u8, 0x69, 0x67, 0x65, 0x73, 0x74]
}

/// The label of the nonce hash: "nonce".
pub open spec fn label_nonce() -> Seq<u8> {
    seq![0x6eu8, 0x6f, 0x6e, 0x63, 0x65]
}

/// The label of the binding factor hash: "rho".
pub open spec fn label_rho() -> Seq<u8> {
    seq![0x72u8, 0x68, 0x6f]
}

/// The label of the challenge hash: "chal".
pub open spec fn label_chal() -> Seq<u8> {
    seq![0x63u8, 0x68, 0x61, 0x6c]
}

/// The curve P-256.
#[derive(Clone, Copy, Debug, PartialEq, Eq)]
pub struct P256;

/// The context string of P-256: "FROST-P256-SHA256-v5".
pub open spec fn p256_context() -> Seq<u8> {
    seq![
        0x46u8, 0x52, 0x4f, 0x53, 0x54, 0x2d, 0x50, 0x32, 0x35, 0x36, 0x2d, 0x53, 0x48, 0x41, 0x32,
        0x35, 0x36, 0x2d, 0x76, 0x35,
    ]
}

impl Curve for P256 {
    type F = Scalar;

    type G = Point;

    type Batch = P256Batch;

    open spec fn order() -> int {
        p256_order()
    }

    /// "P-256".
    open spec fn id_spec() -> Seq<u8> {
        seq![0x50u8, 0x2d, 0x32, 0x35, 0x36]
    }

    open spec fn little_endian_spec() -> bool {
        false
    }

    open spec fn f_len_spec() -> nat {
        32
    }

    open spec fn g_len_spec() -> nat {
        33
    }

    open spec fn f_wf(f: Scalar) -> bool {
        p256_scalar(f)
    }

    open spec fn f_val(f: Scalar) -> int {
        be_value(f.repr@)
    }

    open spec fn f_repr(f: Scalar) -> Seq<u8> {
        f.repr@
    }

    open spec fn g_wf(g: Point) -> bool {
        p256_point(g)
    }

    open spec fn g_log(g: Point) -> int {
        p256_dlog(g.repr@)
    }

    open spec fn g_repr(g: Point) -> Seq<u8> {
        g.repr@
    }

    open spec fn scalar_encoding(bytes: Seq<u8>) -> bool {
        bytes.len() == 32 && be_value(bytes) < p256_order()
    }

    open spec fn point_encoding(bytes: Seq<u8>) -> bool {
        &&& bytes.len() == 33
        &&& p256_recode(bytes) == Some(bytes)
        &&& p256_dlog(bytes) != 0
    }

    open spec fn hash_msg_spec(msg: Seq<u8>) -> Seq<u8> {
        sha256_digest(p256_context() + label_digest() + msg)
    }

    open spec fn hash_to_f_spec(dst: Seq<u8>, msg: Seq<u8>) -> int {
        hash_to_wide(dst, msg) % p256_order()
    }

    open spec fn hash_binding_factor_spec(binding: Seq<u8>) -> int {
        Self::hash_to_f_spec(p256_context() + label_rho(), binding)
    }

    open spec fn nonce_spec(secret: Scalar, seed: Seq<u8>) -> int {
        Self::hash_to_f_spec(p256_context() + label_nonce(), seed + secret.repr@)
    }

    open spec fn batch_entries(b: &P256Batch) -> Seq<(u16, Seq<(int, int)>)> {
        p256_batch_entries(*b)
    }

    proof fn lemma_order() {
    }

    proof fn lemma_lengths() {
    }

    proof fn lemma_scalar(f: Scalar) {
        lemma_be_value_bound(f.repr@);
    }

    proof fn lemma_point(g: Point) {
    }

    proof fn lemma_scalar_repr(a: Scalar, b: Scalar) {
        assert(a.repr =~= b.repr);
    }

    proof fn lemma_scalar_exists(val: int) {
        lemma_pow256_32();
        lemma_scalar_of_value(val);
        let f = Scalar { repr: array_of(be_bytes(val, 32), 32) };
        assert(Self::f_wf(f) && Self::f_val(f) == val);
    }

    proof fn lemma_scalar_val(a: Scalar, b: Scalar) {
        lemma_be_value_injective(a.repr@, b.repr@);
        assert(a.repr =~= b.repr);
    }

    proof fn lemma_point_log(a: Point, b: Point) {
        assert(a.repr =~= b.repr);
    }

    proof fn lemma_point_repr(a: Point, b: Point) {
        assert(a.repr =~= b.repr);
    }

    fn id() -> (r: Vec<u8>) {
        let mut r: Vec<u8> = Vec::new();
        append(&mut r, &[0x50u8, 0x2d, 0x32, 0x35, 0x36]);
        assert(r@ =~= Self::id_spec());
        r
    }

    fn little_endian() -> (r: bool) {
        false
    }

    fn generator() -> (g: Point) {
        p256_generator()
    }

    fn f_from_u64(x: u64) -> (r: Scalar) {
        p256_scalar_from_u64(x)
    }

    fn f_add(a: Scalar, b: Scalar) -> (r: Scalar) {
        p256_scalar_add(a, b)
    }

    fn f_mul(a: Scalar, b: Scalar) -> (r: Scalar) {
        p256_scalar_mul(a, b)
    }

    fn f_neg(a: Scalar) -> (r: Scalar) {
        p256_scalar_neg(a)
    }

    fn f_invert(a: Scalar) -> (r: Option<Scalar>) {
        p256_scalar_invert(a)
    }

    fn f_random(rng: &mut rand_core::OsRng) -> (r: Scalar) {
        p256_scalar_random(rng)
    }

    fn f_eq(a: Scalar, b: Scalar) -> (r: bool) {
        let r = bytes_eq(array_as_slice(&a.repr), array_as_slice(&b.repr));
        proof {
            if r {
                assert(a.repr =~= b.repr);
            }
            if be_value(a.repr@) == be_value(b.repr@) {
                lemma_be_value_injective(a.repr@, b.repr@);
            }
        }
        r
    }

    fn g_add(a: Point, b: Point) -> (r: Point) {
        p256_point_add(a, b)
    }

    fn g_mul(p: Point, s: Scalar) -> (r: Point) {
        p256_point_mul(p, s)
    }

    fn g_eq(a: Point, b: Point) -> (r: bool) {
        // points are the same where their canonical encodings are
        let r = bytes_eq(array_as_slice(&a.repr), array_as_slice(&b.repr));
        proof {
            if r {
                assert(a.repr =~= b.repr);
            }
        }
        r
    }

    fn multiexp_vartime(pairs: &Vec<(Scalar, Point)>) -> (r: Point) {
        assert(Seq::new(
            pairs@.len(),
            |i: int| (Self::f_val(pairs@[i].0), Self::g_log(pairs@[i].1)),
        ) =~= p256_pairs(pairs@));
        p256_multiexp_vartime(pairs, Self::little_endian())
    }

    fn batch_new(capacity: usize) -> (b: P256Batch) {
        p256_batch_new(capacity, Self::little_endian())
    }

    fn batch_queue(b: &mut P256Batch, rng: &mut rand_core::OsRng, id: u16, pairs: Vec<(Scalar, Point)>) {
        let ghost before = Self::batch_entries(b);
        let ghost given = pairs@;
        p256_batch_queue(b, rng, id, pairs);
        proof {
            let u = choose|u: int|
                batch_queued(before, p256_batch_entries(*b), id, p256_pairs(given), u, p256_order());
            assert(Seq::new(given.len(), |i: int| (Self::f_val(given[i].0), Self::g_log(given[i].1)))
                =~= p256_pairs(given));
            assert(batch_weight(u, Self::order(), before.len()));
        }
    }

    fn batch_verify(b: &P256Batch) -> (r: Result<(), u16>) {
        p256_batch_verify(b)
    }

    fn batch_verify_vartime(b: &P256Batch) -> (r: Result<(), u16>) {
        p256_batch_verify_vartime(b)
    }

    #[allow(non_snake_case)]
    fn F_len() -> (r: usize) {
        32
    }

    #[allow(non_snake_case)]
    fn G_len() -> (r: usize) {
        33
    }

    #[allow(non_snake_case)]
    fn F_from_slice(slice: &[u8]) -> (r: Result<Scalar, CurveError>) {
        if slice.len() != 32 {
            return Err(CurveError::InvalidLength(32, slice.len()));
        }
        match p256_scalar_from_repr(slice) {
            Some(scalar) => {
                proof {
                    lemma_be_value_bound(slice@);
                }
                Ok(scalar)
            },
            None => Err(CurveError::InvalidScalar),
        }
    }

    #[allow(non_snake_case)]
    fn G_from_slice(slice: &[u8]) -> (r: Result<Point, CurveError>) {
        if slice.len() != 33 {
            return Err(CurveError::InvalidLength(33, slice.len()));
        }
        match p256_point_decode(slice) {
            Some(point) => {
                if p256_point_is_identity(point) || !bytes_eq(array_as_slice(&point.repr), slice) {
                    Err(CurveError::InvalidPoint)
                } else {
                    Ok(point)
                }
            },
            None => Err(CurveError::InvalidPoint),
        }
    }

    #[allow(non_snake_case)]
    fn F_to_bytes(f: &Scalar) -> (r: Vec<u8>) {
        slice_to_vec(array_as_slice(&f.repr))
    }

    #[allow(non_snake_case)]
    fn G_to_bytes(g: &Point) -> (r: Vec<u8>) {
        slice_to_vec(array_as_slice(&g.repr))
    }

    fn random_nonce(secret: Scalar, rng: &mut rand_core::OsRng) -> (r: Scalar) {
        let seed = random_bytes(rng, 32);
        Self::nonce_from_seed(secret, seed.as_slice())
    }

    fn nonce_from_seed(secret: Scalar, seed: &[u8]) -> (r: Scalar) {
        let mut dst = p256_context_bytes();
        append(&mut dst, &[0x6eu8, 0x6f, 0x6e, 0x63, 0x65]);
        assert(dst@ =~= p256_context() + label_nonce());
        let mut input = slice_to_vec(seed);
        append(&mut input, array_as_slice(&secret.repr));
        Self::hash_to_F(dst.as_slice(), input.as_slice())
    }

    fn hash_msg(msg: &[u8]) -> (r: Vec<u8>) {
        let mut input = p256_context_bytes();
        append(&mut input, &[0x64u8, 0x69, 0x67, 0x65, 0x73, 0x74]);
        append(&mut input, msg);
        assert(input@ =~= p256_context() + label_digest() + msg@);
        sha256(input.as_slice())
    }

    fn hash_binding_factor(binding: &[u8]) -> (r: Scalar) {
        let mut dst = p256_context_bytes();
        append(&mut dst, &[0x72u8, 0x68, 0x6f]);
        assert(dst@ =~= p256_context() + label_rho());
        Self::hash_to_F(dst.as_slice(), binding)
    }

    #[allow(non_snake_case)]
    fn hash_to_F(dst: &[u8], msg: &[u8]) -> (r: Scalar) {
        let minus_one = p256_scalar_neg(p256_scalar_from_u64(1));
        let reduced = hash_to_reduced(dst, msg, array_as_slice(&minus_one.repr));
        proof {
            vstd::arithmetic::div_mod::lemma_mod_bound(hash_to_wide(dst@, msg@), p256_order());
        }
        match p256_scalar_from_repr(reduced.as_slice()) {
            Some(scalar) => scalar,
            None => vstd::pervasive::unreached(),
        }
    }
}

/// The context string of P-256, as bytes.
pub fn p256_context_bytes() -> (r: Vec<u8>)
    ensures
        r@ == p256_context(),
{
    let mut r: Vec<u8> = Vec::new();
    append(&mut r, &[
        0x46u8, 0x52, 0x4f, 0x53, 0x54, 0x2d, 0x50, 0x32, 0x35, 0x36, 0x2d, 0x53, 0x48, 0x41, 0x32,
        0x35, 0x36, 0x2d, 0x76, 0x35,
    ]);
    assert(r@ =~= p256_context());
    r
}

/// The curve secp256k1.
#[derive(Clone, Copy, Debug, PartialEq, Eq)]
pub struct Secp256k1;

/// The context string of secp256k1: "FROST-secp256k1-SHA256-v5".
pub open spec fn k256_context() -> Seq<u8> {
    seq![
        0x46u8, 0x52, 0x4f, 0x53, 0x54, 0x2d, 0x73, 0x65, 0x63, 0x70, 0x32, 0x35, 0x36, 0x6b, 0x31,
        0x2d, 0x53, 0x48, 0x41, 0x32, 0x35, 0x36, 0x2d, 0x76, 0x35,
    ]
}

impl Curve for Secp256k1 {
    type F = Scalar;

    type G = Point;

    type Batch = K256Batch;

    open spec fn order() -> int {
        k256_order()
    }

    /// "secp256k1".
    open spec fn id_spec() -> Seq<u8> {
        seq![0x73u8, 0x65, 0x63, 0x70, 0x32, 0x35, 0x36, 0x6b, 0x31]
    }

    open spec fn little_endian_spec() -> bool {
        false
    }

    open spec fn f_len_spec() -> nat {
        32
    }

    open spec fn g_len_spec() -> nat {
        33
    }

    open spec fn f_wf(f: Scalar) -> bool {
        k256_scalar(f)
    }

    open spec fn f_val(f: Scalar) -> int {
        be_value(f.repr@)
    }

    open spec fn f_repr(f: Scalar) -> Seq<u8> {
        f.repr@
    }

    open spec fn g_wf(g: Point) -> bool {
        k256_point(g)
    }

    open spec fn g_log(g: Point) -> int {
        k256_dlog(g.repr@)
    }

    open spec fn g_repr(g: Point) -> Seq<u8> {
        g.repr@
    }

    open spec fn scalar_encoding(bytes: Seq<u8>) -> bool {
        bytes.len() == 32 && be_value(bytes) < k256_order()
    }

    open spec fn point_encoding(bytes: Seq<u8>) -> bool {
        &&& bytes.len() == 33
        &&& k256_recode(bytes) == Some(bytes)
        &&& k256_dlog(bytes) != 0
    }

    open spec fn hash_msg_spec(msg: Seq<u8>) -> Seq<u8> {
        sha256_digest(k256_context() + label_digest() + msg)
    }

    open spec fn hash_to_f_spec(dst: Seq<u8>, msg: Seq<u8>) -> int {
        hash_to_wide(dst, msg) % k256_order()
    }

    open spec fn hash_binding_factor_spec(binding: Seq<u8>) -> int {
        Self::hash_to_f_spec(k256_context() + label_rho(), binding)
    }

    open spec fn nonce_spec(secret: Scalar, seed: Seq<u8>) -> int {
        Self::hash_to_f_spec(k256_context() + label_nonce(), seed + secret.repr@)
    }

    open spec fn batch_entries(b: &K256Batch) -> Seq<(u16, Seq<(int, int)>)> {
        k256_batch_entries(*b)
    }

    proof fn lemma_order() {
    }

    proof fn lemma_lengths() {
    }

    proof fn lemma_scalar(f: Scalar) {
        lemma_be_value_bound(f.repr@);
    }

    proof fn lemma_point(g: Point) {
    }

    proof fn lemma_scalar_repr(a: Scalar, b: Scalar) {
        assert(a.repr =~= b.repr);
    }

    proof fn lemma_scalar_exists(val: int) {
        lemma_pow256_32();
        lemma_scalar_of_value(val);
        let f = Scalar { repr: array_of(be_bytes(val, 32), 32) };
        assert(Self::f_wf(f) && Self::f_val(f) == val);
    }

    proof fn lemma_scalar_val(a: Scalar, b: Scalar) {
        lemma_be_value_injective(a.repr@, b.repr@);
        assert(a.repr =~= b.repr);
    }

    proof fn lemma_point_log(a: Point, b: Point) {
        assert(a.repr =~= b.repr);
    }

    proof fn lemma_point_repr(a: Point, b: Point) {
        assert(a.repr =~= b.repr);
    }

    fn id() -> (r: Vec<u8>) {
        let mut r: Vec<u8> = Vec::new();
        append(&mut r, &[0x73u8, 0x65, 0x63, 0x70, 0x32, 0x35, 0x36, 0x6b, 0x31]);
        assert(r@ =~= Self::id_spec());
        r
    }

    fn little_endian() -> (r: bool) {
        false
    }

    fn generator() -> (g: Point) {
        k256_generator()
    }

    fn f_from_u64(x: u64) -> (r: Scalar) {
        k256_scalar_from_u64(x)
    }

    fn f_add(a: Scalar, b: Scalar) -> (r: Scalar) {
        k256_scalar_add(a, b)
    }

    fn f_mul(a: Scalar, b: Scalar) -> (r: Scalar) {
        k256_scalar_mul(a, b)
    }

    fn f_neg(a: Scalar) -> (r: Scalar) {
        k256_scalar_neg(a)
    }

    fn f_invert(a: Scalar) -> (r: Option<Scalar>) {
        k256_scalar_invert(a)
    }

    fn f_random(rng: &mut rand_core::OsRng) -> (r: Scalar) {
        k256_scalar_random(rng)
    }

    fn f_eq(a: Scalar, b: Scalar) -> (r: bool) {
        let r = bytes_eq(array_as_slice(&a.repr), array_as_slice(&b.repr));
        proof {
            if r {
                assert(a.repr =~= b.repr);
            }
            if be_value(a.repr@) == be_value(b.repr@) {
                lemma_be_value_injective(a.repr@, b.repr@);
            }
        }
        r
    }

    fn g_add(a: Point, b: Point) -> (r: Point) {
        k256_point_add(a, b)
    }

    fn g_mul(p: Point, s: Scalar) -> (r: Point) {
        k256_point_mul(p, s)
    }

    fn g_eq(a: Point, b: Point) -> (r: bool) {
        // points are the same where their canonical encodings are
        let r = bytes_eq(array_as_slice(&a.repr), array_as_slice(&b.repr));
        proof {
            if r {
                assert(a.repr =~= b.repr);
            }
        }
        r
    }

    fn multiexp_vartime(pairs: &Vec<(Scalar, Point)>) -> (r: Point) {
        assert(Seq::new(
            pairs@.len(),
            |i: int| (Self::f_val(pairs@[i].0), Self::g_log(pairs@[i].1)),
        ) =~= k256_pairs(pairs@));
        k256_multiexp_vartime(pairs, Self::little_endian())
    }

    fn batch_new(capacity: usize) -> (b: K256Batch) {
        k256_batch_new(capacity, Self::little_endian())
    }

    fn batch_queue(b: &mut K256Batch, rng: &mut rand_core::OsRng, id: u16, pairs: Vec<(Scalar, Point)>) {
        let ghost before = Self::batch_entries(b);
        let ghost given = pairs@;
        k256_batch_queue(b, rng, id, pairs);
        proof {
            let u = choose|u: int|
                batch_queued(before, k256_batch_entries(*b), id, k256_pairs(given), u, k256_order());
            assert(Seq::new(given.len(), |i: int| (Self::f_val(given[i].0), Self::g_log(given[i].1)))
                =~= k256_pairs(given));
            assert(batch_weight(u, Self::order(), before.len()));
        }
    }

    fn batch_verify(b: &K256Batch) -> (r: Result<(), u16>) {
        k256_batch_verify(b)
    }

    fn batch_verify_vartime(b: &K256Batch) -> (r: Result<(), u16>) {
        k256_batch_verify_vartime(b)
    }

    #[allow(non_snake_case)]
    fn F_len() -> (r: usize) {
        32
    }

    #[allow(non_snake_case)]
    fn G_len() -> (r: usize) {
        33
    }

    #[allow(non_snake_case)]
    fn F_from_slice(slice: &[u8]) -> (r: Result<Scalar, CurveError>) {
        if slice.len() != 32 {
            return Err(CurveError::InvalidLength(32, slice.len()));
        }
        match k256_scalar_from_repr(slice) {
            Some(scalar) => {
                proof {
                    lemma_be_value_bound(slice@);
                }
                Ok(scalar)
            },
            None => Err(CurveError::InvalidScalar),
        }
    }

    #[allow(non_snake_case)]
    fn G_from_slice(slice: &[u8]) -> (r: Result<Point, CurveError>) {
        if slice.len() != 33 {
            return Err(CurveError::InvalidLength(33, slice.len()));
        }
        match k256_point_decode(slice) {
            Some(point) => {
                if k256_point_is_identity(point) || !bytes_eq(array_as_slice(&point.repr), slice) {
                    Err(CurveError::InvalidPoint)
                } else {
                    Ok(point)
                }
            },
            None => Err(CurveError::InvalidPoint),
        }
    }

    #[allow(non_snake_case)]
    fn F_to_bytes(f: &Scalar) -> (r: Vec<u8>) {
        slice_to_vec(array_as_slice(&f.repr))
    }

    #[allow(non_snake_case)]
    fn G_to_bytes(g: &Point) -> (r: Vec<u8>) {
        slice_to_vec(array_as_slice(&g.repr))
    }

    fn random_nonce(secret: Scalar, rng: &mut rand_core::OsRng) -> (r: Scalar) {
        let seed = random_bytes(rng, 32);
        Self::nonce_from_seed(secret, seed.as_slice())
    }

    fn nonce_from_seed(secret: Scalar, seed: &[u8]) -> (r: Scalar) {
        let mut dst = k256_context_bytes();
        append(&mut dst, &[0x6eu8, 0x6f, 0x6e, 0x63, 0x65]);
        assert(dst@ =~= k256_context() + label_nonce());
        let mut input = slice_to_vec(seed);
        append(&mut input, array_as_slice(&secret.repr));
        Self::hash_to_F(dst.as_slice(), input.as_slice())
    }

    fn hash_msg(msg: &[u8]) -> (r: Vec<u8>) {
        let mut input = k256_context_bytes();
        append(&mut input, &[0x64u8, 0x69, 0x67, 0x65, 0x73, 0x74]);
        append(&mut input, msg);
        assert(input@ =~= k256_context() + label_digest() + msg@);
        sha256(input.as_slice())
    }

    fn hash_binding_factor(binding: &[u8]) -> (r: Scalar) {
        let mut dst = k256_context_bytes();
        append(&mut dst, &[0x72u8, 0x68, 0x6f]);
        assert(dst@ =~= k256_context() + label_rho());
        Self::hash_to_F(dst.as_slice(), binding)
    }

    #[allow(non_snake_case)]
    fn hash_to_F(dst: &[u8], msg: &[u8]) -> (r: Scalar) {
        let minus_one = k256_scalar_neg(k256_scalar_from_u64(1));
        let reduced = hash_to_reduced(dst, msg, array_as_slice(&minus_one.repr));
        proof {
            vstd::arithmetic::div_mod::lemma_mod_bound(hash_to_wide(dst@, msg@), k256_order());
        }
        match k256_scalar_from_repr(reduced.as_slice()) {
            Some(scalar) => scalar,
            None => vstd::pervasive::unreached(),
        }
    }
}

/// The context string of secp256k1, as bytes.
pub fn k256_context_bytes() -> (r: Vec<u8>)
    ensures
        r@ == k256_context(),
{
    let mut r: Vec<u8> = Vec::new();
    append(&mut r, &[
        0x46u8, 0x52, 0x4f, 0x53, 0x54, 0x2d, 0x73, 0x65, 0x63, 0x70, 0x32, 0x35, 0x36, 0x6b, 0x31,
        0x2d, 0x53, 0x48, 0x41, 0x32, 0x35, 0x36, 0x2d, 0x76, 0x35,
    ]);
    assert(r@ =~= k256_context());
    r
}

/// The challenge of a Schnorr signature over P-256: the hash of the nonce commitment,
/// the key and the message under the context with the label "chal".
#[derive(Clone, Copy, Debug)]
pub struct IetfP256Hram;

impl Hram<P256> for IetfP256Hram {
    #[allow(non_snake_case)]
    open spec fn hram_spec(R: Seq<u8>, A: Seq<u8>, m: Seq<u8>) -> int {
        P256::hash_to_f_spec(p256_context() + label_chal(), R + A + m)
    }

    #[allow(non_snake_case)]
    proof fn lemma_hram_range(R: Seq<u8>, A: Seq<u8>, m: Seq<u8>) {
        vstd::arithmetic::div_mod::lemma_mod_bound(
            hash_to_wide(p256_context() + label_chal(), R + A + m),
            p256_order(),
        );
    }

    #[allow(non_snake_case)]
    fn hram(R: &Point, A: &Point, m: &[u8]) -> (c: Scalar) {
        let mut dst = p256_context_bytes();
        append(&mut dst, &[0x63u8, 0x68, 0x61, 0x6c]);
        assert(dst@ =~= p256_context() + label_chal());
        let mut input = P256::G_to_bytes(R);
        append(&mut input, P256::G_to_bytes(A).as_slice());
        append(&mut input, m);
        P256::hash_to_F(dst.as_slice(), input.as_slice())
    }
}

/// The challenge of a Schnorr signature over secp256k1: the hash of the nonce commitment,
/// the key and the message under the context with the label "chal".
#[derive(Clone, Copy, Debug)]
pub struct NonIetfSecp256k1Hram;

impl Hram<Secp256k1> for NonIetfSecp256k1Hram {
    #[allow(non_snake_case)]
    open spec fn hram_spec(R: Seq<u8>, A: Seq<u8>, m: Seq<u8>) -> int {
        Secp256k1::hash_to_f_spec(k256_context() + label_chal(), R + A + m)
    }

    #[allow(non_snake_case)]
    proof fn lemma_hram_range(R: Seq<u8>, A: Seq<u8>, m: Seq<u8>) {
        vstd::arithmetic::div_mod::lemma_mod_bound(
            hash_to_wide(k256_context() + label_chal(), R + A + m),
            k256_order(),
        );
    }

    #[allow(non_snake_case)]
    fn hram(R: &Point, A: &Point, m: &[u8]) -> (c: Scalar) {
        let mut dst = k256_context_bytes();
        append(&mut dst, &[0x63u8, 0x68, 0x61, 0x6c]);
        assert(dst@ =~= k256_context() + label_chal());
        let mut input = Secp256k1::G_to_bytes(R);
        append(&mut input, Secp256k1::G_to_bytes(A).as_slice());
        append(&mut input, m);
        Secp256k1::hash_to_F(dst.as_slice(), input.as_slice())
    }
}

} // verus!
