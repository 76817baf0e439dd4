//! Hashes, wide integers and random bytes, as the `sha2`, `elliptic-curve` and `rand_core`
//! crates compute them, and the hash into a scalar field that is built on them.

use crate::bytes::{
    append, be_value, copy_range, lemma_be_value_bound, lemma_be_value_leading_zeros,
    lemma_be_value_low_bytes, pow256,
};
use elliptic_curve::bigint::Encoding;
use elliptic_curve::hash2curve::{ExpandMsg, Expander};
use rand_core::RngCore;
use sha2::Digest;
use vstd::prelude::*;

verus! {

/// The SHA-256 digest of a byte string.
pub uninterp spec fn sha256_digest(data: Seq<u8>) -> Seq<u8>;

/// The first `len` bytes of `expand_message_xmd` with SHA-256, of a message under a domain
/// separation tag.
pub uninterp spec fn expand_message_xmd_sha256(msg: Seq<u8>, dst: Seq<u8>, len: nat) -> Seq<u8>;

/// The salt that a domain separation tag of more than 255 bytes is hashed with.
pub open spec fn oversize_dst_salt() -> Seq<u8> {
    seq![
        0x48u8, 0x32, 0x43, 0x2d, 0x4f, 0x56, 0x45, 0x52, 0x53, 0x49, 0x5a, 0x45, 0x2d, 0x44, 0x53,
        0x54, 0x2d,
    ]
}

/// The tag that a message is expanded under: the tag itself, or its digest with the salt
/// where it is longer than 255 bytes.
pub open spec fn effective_dst(dst: Seq<u8>) -> Seq<u8> {
    if dst.len() > 255 {
        sha256_digest(oversize_dst_salt() + dst)
    } else {
        dst
    }
}

/// The number that a message hashes to under a tag, before it is reduced: 48 expanded
/// bytes, read big-endian.
pub open spec fn hash_to_wide(dst: Seq<u8>, msg: Seq<u8>) -> int {
    be_value(expand_message_xmd_sha256(msg, effective_dst(dst), 48))
}

/// `sha2::Sha256::digest`: the SHA-256 digest, 32 bytes.
#[verifier::external_body]
pub(crate) fn sha256(data: &[u8]) -> (r: Vec<u8>)
    ensures
        r@ == sha256_digest(data@),
        r@.len() == 32,
{
    sha2::Sha256::digest(data).to_vec()
}

/// `elliptic_curve::hash2curve::ExpandMsgXmd::<Sha256>::expand_message`, then `fill_bytes`:
/// expands a message to `len` bytes under a tag. The crate refuses an empty tag and a
/// length of zero or above 255 digests; it would hash a tag above 255 bytes itself.
#[verifier::external_body]
pub(crate) fn expand_message_xmd(msg: &[u8], dst: &[u8], len: usize) -> (r: Vec<u8>)
    requires
        0 < dst@.len() <= 255,
        0 < len <= 8160,
    ensures
        r@ == expand_message_xmd_sha256(msg@, dst@, len as nat),
        r@.len() == len,
{
    let mut bytes = vec![0u8; len];
    elliptic_curve::hash2curve::ExpandMsgXmd::<sha2::Sha256>::expand_message(&[msg], dst, len)
        .unwrap()
        .fill_bytes(&mut bytes);
    bytes
}

/// `elliptic_curve::bigint::U384::wrapping_add`: the sum of two 384-bit numbers, each
/// written as 48 bytes big-endian, modulo 2 to the power 384.
#[verifier::external_body]
pub(crate) fn u384_wrapping_add(a: &[u8], b: &[u8]) -> (r: Vec<u8>)
    requires
        a@.len() == 48,
        b@.len() == 48,
    ensures
        r@.len() == 48,
        be_value(r@) == (be_value(a@) + be_value(b@)) % pow256(48),
{
    let x = elliptic_curve::bigint::U384::from_be_slice(a);
    let y = elliptic_curve::bigint::U384::from_be_slice(b);
    x.wrapping_add(&y).to_be_bytes().to_vec()
}

/// `elliptic_curve::bigint::U384::reduce`: the remainder of one 384-bit number by another,
/// each written as 48 bytes big-endian; none where the modulus is zero.
#[verifier::external_body]
pub(crate) fn u384_reduce(a: &[u8], modulus: &[u8]) -> (r: Option<Vec<u8>>)
    requires
        a@.len() == 48,
        modulus@.len() == 48,
    ensures
        r is Some <==> be_value(modulus@) != 0,
        r matches Some(x) ==> x@.len() == 48 && be_value(x@) == be_value(a@) % be_value(modulus@),
{
    let x = elliptic_curve::bigint::U384::from_be_slice(a);
    let m = elliptic_curve::bigint::U384::from_be_slice(modulus);
    let reduced: Option<elliptic_curve::bigint::U384> = x.reduce(&m).into();
    reduced.map(|v| v.to_be_bytes().to_vec())
}

/// `rand_core::RngCore::fill_bytes` on the operating system's generator: `len` random
/// bytes. Nothing is known of them but their number.
#[verifier::external_body]
pub(crate) fn random_bytes(rng: &mut rand_core::OsRng, len: usize) -> (r: Vec<u8>)
    ensures
        r@.len() == len,
{
    let mut bytes = vec![0u8; len];
    rng.fill_bytes(&mut bytes);
    bytes
}

/// The salt that a domain separation tag of more than 255 bytes is hashed with:
/// "H2C-OVERSIZE-DST-".
pub fn oversize_salt() -> (r: Vec<u8>)
    ensures
        r@ == oversize_dst_salt(),
{
    let mut r: Vec<u8> = Vec::new();
    append(
        &mut r,
        &[
            0x48u8, 0x32, 0x43, 0x2d, 0x4f, 0x56, 0x45, 0x52, 0x53, 0x49, 0x5a, 0x45, 0x2d, 0x44,
            0x53, 0x54, 0x2d,
        ],
    );
    assert(r@ =~= oversize_dst_salt());
    r
}

/// `n` zero bytes.
pub fn zeros(n: usize) -> (r: Vec<u8>)
    ensures
        r@.len() == n,
        forall|i: int| 0 <= i < n ==> r@[i] == 0,
{
    let mut r: Vec<u8> = Vec::new();
    while r.len() < n
        invariant
            r@.len() <= n,
            forall|i: int| 0 <= i < r@.len() ==> r@[i] == 0,
        decreases n - r@.len(),
    {
        r.push(0u8);
    }
    r
}

/// Hashes a message to a number below a modulus, under a domain separation tag: the
/// message is expanded to 48 bytes, which are read big-endian and reduced. The modulus is
/// given as the 32 bytes, big-endian, of the number before it. A tag of more than 255 bytes
/// is first replaced by its digest.
///
/// Returns the 32 bytes, big-endian, of the result.
pub fn hash_to_reduced(dst: &[u8], msg: &[u8], modulus_minus_one: &[u8]) -> (r: Vec<u8>)
    requires
        dst@.len() > 0,
        modulus_minus_one@.len() == 32,
    ensures
        r@.len() == 32,
        be_value(r@) == hash_to_wide(dst@, msg@) % (be_value(modulus_minus_one@) + 1),
{
    let wide = if dst.len() > 255 {
        let mut salted = oversize_salt();
        append(&mut salted, dst);
        let hashed = sha256(salted.as_slice());
        expand_message_xmd(msg, hashed.as_slice(), 48)
    } else {
        expand_message_xmd(msg, dst, 48)
    };

    let mut below = zeros(16);
    let ghost front = below@;
    append(&mut below, modulus_minus_one);
    let mut one = zeros(47);
    let ghost one_front = one@;
    one.push(1u8);
    proof {
        lemma_be_value_leading_zeros(front, modulus_minus_one@);
        lemma_be_value_leading_zeros(one_front, seq![1u8]);
        assert(one@ =~= one_front + seq![1u8]);
        assert(be_value(seq![1u8]) == 1) by {
            reveal_with_fuel(be_value, 2);
            assert(seq![1u8].drop_last() =~= Seq::<u8>::empty());
        }
        lemma_be_value_bound(modulus_minus_one@);
        lemma_pow256_32_48();
    }
    let modulus = u384_wrapping_add(below.as_slice(), one.as_slice());
    let ghost q = be_value(modulus_minus_one@) + 1;
    assert(be_value(modulus@) == q) by {
        vstd::arithmetic::div_mod::lemma_small_mod(q as nat, pow256(48) as nat);
    }
    match u384_reduce(wide.as_slice(), modulus.as_slice()) {
        Some(reduced) => {
            proof {
                lemma_be_value_bound(wide@);
                vstd::arithmetic::div_mod::lemma_mod_bound(be_value(wide@), q);
                lemma_be_value_low_bytes(reduced@, 32);
            }
            copy_range(reduced.as_slice(), 16, 48)
        },
        None => vstd::pervasive::unreached(),
    }
}

/// 256 to the power 32 is below 256 to the power 48.
pub proof fn lemma_pow256_32_48()
    ensures
        0 < pow256(32) < pow256(48),
{
    lemma_pow256_positive(32);
    lemma_pow256_monotonic(32, 48);
}

/// The powers of 256 are positive.
pub proof fn lemma_pow256_positive(n: nat)
    ensures
        pow256(n) > 0,
    decreases n,
{
    if n > 0 {
        lemma_pow256_positive((n - 1) as nat);
    }
}

/// The powers of 256 grow.
pub proof fn lemma_pow256_monotonic(a: nat, b: nat)
    requires
        a < b,
    ensures
        pow256(a) < pow256(b),
    decreases b,
{
    lemma_pow256_positive(a);
    if a + 1 < b {
        lemma_pow256_monotonic(a, (b - 1) as nat);
    }
}

} // verus!
