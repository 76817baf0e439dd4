//! The threshold side of CLSAG ring signatures over Ed25519: what each participant adds
//! to its preprocess, the randomness that all participants agree on, and the shares of the
//! signature.
//!
//! The ring signature itself, the hash of a ring member to a point, and the proofs that
//! two points are the same multiple of two bases are made outside this module. Their
//! results enter here as values.

use crate::bytes::{append, be16, be16_spec, bytes_eq, copy_range};
use crate::clsag::ed25519_ops::{
    blake2b512, blake2b512_digest, ed_basepoint_mul, ed_dlog, ed_identity, ed_order, ed_point,
    ed_point_add, ed_point_is_torsion_free, ed_point_mul, ed_point_recode, ed_point_sub,
    ed_recode, ed_scalar, ed_scalar_from_repr, ed_scalar_mul, ed_scalar_sub,
    ed_scalar_wide_reduce, ed_torsion_free, le_value, EdPoint, EdScalar,
};
use crate::curve::hash::zeros;
use crate::FrostError;
use vstd::array::array_as_slice;
use vstd::prelude::*;
use vstd::slice::{slice_subrange, slice_to_vec};

pub mod ed25519_ops;

verus! {

/// What the algorithm keeps of the ring signature between making its share and the
/// checks: the challenge times the key's multiplier, and the mask's contribution.
#[derive(Clone, Copy, Debug)]
struct ClsagSignInterim {
    c: EdScalar,
    s: EdScalar,
}

/// What the core of the ring signature yields for the sum of the nonce commitments: the
/// challenge `c`, the multipliers `mu_C` of the commitment and `mu_P` of the key, and the
/// contribution `z` of the hidden commitment.
#[allow(non_snake_case)]
#[derive(Clone, Copy, Debug)]
pub struct ClsagCore {
    pub c: EdScalar,
    pub mu_C: EdScalar,
    pub mu_P: EdScalar,
    pub z: EdScalar,
}

/// What a participant adds to its preprocess: the images of its two nonces under the hash
/// of the ring member signed for, and the two proofs that each image is the same multiple
/// as its nonce commitment.
#[derive(Debug)]
pub struct Addendum {
    pub images: (EdPoint, EdPoint),
    pub proofs: (Vec<u8>, Vec<u8>),
}

/// The algorithm of a participant in a CLSAG ring signature.
#[allow(non_snake_case)]
#[derive(Debug)]
pub struct Multisig {
    b: Vec<u8>,
    AH: EdPoint,
    msg: [u8; 32],
    input: Vec<u8>,
    interim: Option<ClsagSignInterim>,
}

/// The length of what a participant adds to its preprocess: two points and two proofs of
/// 64 bytes.
pub open spec fn addendum_len() -> int {
    192
}

/// The prefix of the agreed randomness: "clsag_randomness".
pub open spec fn randomness_label() -> Seq<u8> {
    seq![
        0x63u8, 0x6c, 0x73, 0x61, 0x67, 0x5f, 0x72, 0x61, 0x6e, 0x64, 0x6f, 0x6d, 0x6e, 0x65, 0x73,
        0x73,
    ]
}

/// Whether 32 bytes are the canonical encoding of a point of the prime-order subgroup.
pub open spec fn ed_point_encoding(bytes: Seq<u8>) -> bool {
    ed_recode(bytes) == Some(bytes) && ed_torsion_free(bytes)
}

/// Whether 32 bytes are the canonical encoding of a nonce's image: a point of the
/// prime-order subgroup other than the identity.
pub open spec fn image_encoding(bytes: Seq<u8>) -> bool {
    ed_point_encoding(bytes) && ed_dlog(bytes) != 0
}

/// Whether an addendum parses: it has the length of an addendum, and starts with the
/// canonical encodings of two points, neither the identity.
pub open spec fn addendum_parses(serialized: Seq<u8>) -> bool {
    &&& serialized.len() == addendum_len()
    &&& image_encoding(serialized.subrange(0, 32))
    &&& image_encoding(serialized.subrange(32, 64))
}

/// Decodes a point: the 32 bytes must be the canonical encoding of a point of the
/// prime-order subgroup.
pub fn decode_point(bytes: &[u8]) -> (r: Option<EdPoint>)
    requires
        bytes@.len() == 32,
    ensures
        r is Some <==> ed_point_encoding(bytes@),
        r matches Some(p) ==> ed_point(p) && p.repr@ == bytes@,
{
    match ed_point_recode(bytes) {
        Some(point) => {
            if bytes_eq(array_as_slice(&point.repr), bytes) && ed_point_is_torsion_free(point) {
                Some(point)
            } else {
                None
            }
        },
        None => None,
    }
}

/// Decodes a scalar: the 32 bytes must write, little-endian, a number below the order.
pub fn decode_scalar(bytes: &[u8]) -> (r: Option<EdScalar>)
    requires
        bytes@.len() == 32,
    ensures
        r is Some <==> le_value(bytes@) < ed_order(),
        r matches Some(s) ==> ed_scalar(s) && s.repr@ == bytes@,
{
    let r = ed_scalar_from_repr(bytes);
    proof {
        lemma_le_value_bound(bytes@);
    }
    r
}

/// The value of a byte string is not negative.
pub proof fn lemma_le_value_bound(s: Seq<u8>)
    ensures
        0 <= le_value(s),
    decreases s.len(),
{
    if s.len() > 0 {
        lemma_le_value_bound(s.skip(1));
    }
}

/// Zero bytes at the end do not change a byte string's value.
pub proof fn lemma_le_value_trailing_zeros(s: Seq<u8>, zeros: Seq<u8>)
    requires
        forall|i: int| 0 <= i < zeros.len() ==> zeros[i] == 0,
    ensures
        le_value(s + zeros) == le_value(s),
    decreases s.len(),
{
    if s.len() == 0 {
        assert(s + zeros =~= zeros);
        lemma_le_value_zeros(zeros);
    } else {
        assert((s + zeros).skip(1) =~= s.skip(1) + zeros);
        lemma_le_value_trailing_zeros(s.skip(1), zeros);
    }
}

/// A string of zero bytes has the value zero.
pub proof fn lemma_le_value_zeros(zeros: Seq<u8>)
    requires
        forall|i: int| 0 <= i < zeros.len() ==> zeros[i] == 0,
    ensures
        le_value(zeros) == 0,
    decreases zeros.len(),
{
    if zeros.len() > 0 {
        lemma_le_value_zeros(zeros.skip(1));
    }
}

impl Multisig {
    /// What all participants have agreed on so far: for each addendum processed, the
    /// index of its sender and the two images.
    pub closed spec fn transcript(&self) -> Seq<u8> {
        self.b@
    }

    /// The sum of the images of everyone's nonce commitment, so far.
    pub closed spec fn image_sum(&self) -> EdPoint {
        self.AH
    }

    /// The message signed.
    pub closed spec fn message(&self) -> Seq<u8> {
        self.msg@
    }

    /// The context of the input signed for.
    pub closed spec fn input_context(&self) -> Seq<u8> {
        self.input@
    }

    /// The challenge times the key's multiplier, once the share has been made.
    pub closed spec fn challenge(&self) -> Option<EdScalar> {
        match self.interim {
            Some(interim) => Some(interim.c),
            None => None,
        }
    }

    /// The mask's contribution to the response, once the share has been made.
    pub closed spec fn mask_part(&self) -> Option<EdScalar> {
        match self.interim {
            Some(interim) => Some(interim.s),
            None => None,
        }
    }

    /// Whether the algorithm's points and scalars belong to the curve.
    #[verifier::type_invariant]
    pub closed spec fn wf(&self) -> bool {
        &&& ed_point(self.AH)
        &&& self.interim matches Some(interim) ==> ed_scalar(interim.c) && ed_scalar(interim.s)
    }

    /// The algorithm for a message and an input, before any addendum.
    pub fn new(msg: [u8; 32], input: Vec<u8>) -> (r: Multisig)
        ensures
            r.message() == msg@,
            r.input_context() == input@,
            r.transcript() == Seq::<u8>::empty(),
            ed_dlog(r.image_sum().repr@) == 0,
            r.challenge() is None,
    {
        Multisig { b: Vec::new(), AH: ed_identity(), msg, input, interim: None }
    }

    /// The context that the binding factors commit to: the message and the input's
    /// context.
    pub fn context(&self) -> (r: Vec<u8>)
        ensures
            r@ == self.message() + self.input_context(),
    {
        let mut context = slice_to_vec(array_as_slice(&self.msg));
        append(&mut context, self.input.as_slice());
        context
    }

    /// The length of what a participant adds to its preprocess.
    pub fn addendum_commit_len() -> (r: usize)
        ensures
            r == addendum_len(),
    {
        192
    }

    /// The images of the two nonces under the base `alt`, the hash of the ring member
    /// signed for.
    pub fn nonce_images(alt: EdPoint, nonces: &(EdScalar, EdScalar)) -> (r: (EdPoint, EdPoint))
        requires
            ed_point(alt),
            ed_scalar(nonces.0),
            ed_scalar(nonces.1),
        ensures
            ed_point(r.0),
            ed_point(r.1),
            ed_dlog(r.0.repr@) == (ed_dlog(alt.repr@) * le_value(nonces.0.repr@)) % ed_order(),
            ed_dlog(r.1.repr@) == (ed_dlog(alt.repr@) * le_value(nonces.1.repr@)) % ed_order(),
    {
        (ed_point_mul(alt, nonces.0), ed_point_mul(alt, nonces.1))
    }

    /// What a participant adds to its preprocess: the two images, then the two proofs.
    pub fn preprocess_addendum(addendum: &Addendum) -> (r: Vec<u8>)
        requires
            addendum.proofs.0@.len() == 64,
            addendum.proofs.1@.len() == 64,
        ensures
            r@ == addendum.images.0.repr@ + addendum.images.1.repr@ + addendum.proofs.0@
                + addendum.proofs.1@,
            r@.len() == addendum_len(),
    {
        // 32 + 32 + 64 + 64
        let mut serialized = slice_to_vec(array_as_slice(&addendum.images.0.repr));
        append(&mut serialized, array_as_slice(&addendum.images.1.repr));
        append(&mut serialized, addendum.proofs.0.as_slice());
        append(&mut serialized, addendum.proofs.1.as_slice());
        serialized
    }

    /// Reads the addendum of the participant `l`: it must have the length of an addendum,
    /// and its images must be canonical encodings of points other than the identity.
    pub fn read_addendum(l: u16, serialized: &[u8]) -> (r: Result<Addendum, FrostError>)
        ensures
            match r {
                Ok(addendum) => {
                    &&& addendum_parses(serialized@)
                    &&& ed_point(addendum.images.0)
                    &&& ed_point(addendum.images.1)
                    &&& addendum.images.0.repr@ == serialized@.subrange(0, 32)
                    &&& addendum.images.1.repr@ == serialized@.subrange(32, 64)
                    &&& addendum.proofs.0@ == serialized@.subrange(64, 128)
                    &&& addendum.proofs.1@ == serialized@.subrange(128, 192)
                },
                Err(FrostError::InvalidCommitment(blamed)) => blamed == l && !addendum_parses(
                    serialized@,
                ),
                Err(_) => false,
            },
    {
        if serialized.len() != 192 {
            return Err(FrostError::InvalidCommitment(l));
        }
        let identity = ed_identity();
        let h0 = match decode_point(slice_subrange(serialized, 0, 32)) {
            Some(h0) => h0,
            None => {
                return Err(FrostError::InvalidCommitment(l));
            },
        };
        let h1 = match decode_point(slice_subrange(serialized, 32, 64)) {
            Some(h1) => h1,
            None => {
                return Err(FrostError::InvalidCommitment(l));
            },
        };
        if bytes_eq(array_as_slice(&h0.repr), array_as_slice(&identity.repr)) || bytes_eq(
            array_as_slice(&h1.repr),
            array_as_slice(&identity.repr),
        ) {
            return Err(FrostError::InvalidCommitment(l));
        }
        Ok(
            Addendum {
                images: (h0, h1),
                proofs: (copy_range(serialized, 64, 128), copy_range(serialized, 128, 192)),
            },
        )
    }

    /// Processes the addendum of the participant `l`, given its binding factor and whether
    /// both of its proofs were found valid: each for its image, its nonce commitment and
    /// the hash of the ring member signed for.
    ///
    /// Where a proof is not valid the participant is blamed, and nothing changes. Else the
    /// participant's index and images are added to what all participants agree on, and
    /// its images, the second times the binding factor, to the sum of the images.
    pub fn process_addendum(
        &mut self,
        l: u16,
        binding: &EdScalar,
        addendum: &Addendum,
        proofs_valid: bool,
    ) -> (r: Result<(), FrostError>)
        requires
            ed_scalar(*binding),
            ed_point(addendum.images.0),
            ed_point(addendum.images.1),
        ensures
            final(self).message() == old(self).message(),
            final(self).input_context() == old(self).input_context(),
            final(self).challenge() == old(self).challenge(),
            final(self).mask_part() == old(self).mask_part(),
            match r {
                Ok(()) => {
                    &&& proofs_valid
                    &&& final(self).transcript() == old(self).transcript() + be16_spec(l)
                        + addendum.images.0.repr@ + addendum.images.1.repr@
                    &&& ed_dlog(final(self).image_sum().repr@) == (ed_dlog(
                        old(self).image_sum().repr@,
                    ) + ed_dlog(addendum.images.0.repr@) + ed_dlog(addendum.images.1.repr@)
                        * le_value(binding.repr@)) % ed_order()
                },
                Err(FrostError::InvalidCommitment(blamed)) => {
                    &&& !proofs_valid
                    &&& blamed == l
                    &&& final(self).transcript() == old(self).transcript()
                    &&& final(self).image_sum() == old(self).image_sum()
                },
                Err(_) => false,
            },
    {
        proof {
            use_type_invariant(&*self);
        }
        if !proofs_valid {
            return Err(FrostError::InvalidCommitment(l));
        }
        let ghost before = ed_dlog(self.AH.repr@);
        let h0 = addendum.images.0;
        let h1 = addendum.images.1;
        let weighted = ed_point_mul(h1, *binding);
        let both = ed_point_add(h0, weighted);
        let sum = ed_point_add(self.AH, both);
        proof {
            let q = ed_order();
            crate::modmath::lemma_add_mod_right(
                ed_dlog(h0.repr@),
                ed_dlog(h1.repr@) * le_value(binding.repr@),
                q,
            );
            crate::modmath::lemma_add_mod_right(
                before,
                ed_dlog(h0.repr@) + ed_dlog(h1.repr@) * le_value(binding.repr@),
                q,
            );
        }
        let mut agreed = copy_range(self.b.as_slice(), 0, self.b.len());
        assert(agreed@ =~= self.b@);
        append(&mut agreed, &be16(l));
        append(&mut agreed, array_as_slice(&h0.repr));
        append(&mut agreed, array_as_slice(&h1.repr));
        self.b = agreed;
        self.AH = sum;
        Ok(())
    }

    /// The sum of the images of everyone's nonce commitment, for the core of the ring
    /// signature.
    pub fn nonce_image_sum(&self) -> (r: EdPoint)
        ensures
            r == self.image_sum(),
            ed_point(r),
    {
        proof {
            use_type_invariant(self);
        }
        self.AH
    }

    /// The randomness that all participants agree on, as everyone has processed the same
    /// addenda: the BLAKE2b-512 digest of "clsag_randomness" and of what was agreed on.
    /// Its first half, reduced modulo the order, is the mask of the output commitment;
    /// its second half seeds the core of the ring signature.
    pub fn randomness(&self) -> (r: (EdScalar, Vec<u8>))
        ensures
            ed_scalar(r.0),
            le_value(r.0.repr@) == le_value(agreed_randomness(self.transcript()).subrange(0, 32))
                % ed_order(),
            r.1@ == agreed_randomness(self.transcript()).subrange(32, 64),
    {
        // Use everyone's commitments to derive a random source all signers can agree upon
        // Cannot be manipulated to effect and all signers must, and will, know this
        let mut input: Vec<u8> = Vec::new();
        append(
            &mut input,
            &[
                0x63u8, 0x6c, 0x73, 0x61, 0x67, 0x5f, 0x72, 0x61, 0x6e, 0x64, 0x6f, 0x6d, 0x6e, 0x65,
                0x73, 0x73,
            ],
        );
        assert(input@ =~= randomness_label());
        append(&mut input, self.b.as_slice());
        let rand = blake2b512(input.as_slice());
        let mut wide = copy_range(rand.as_slice(), 0, 32);
        let padding = zeros(32);
        append(&mut wide, padding.as_slice());
        proof {
            lemma_le_value_trailing_zeros(rand@.subrange(0, 32), padding@);
        }
        (ed_scalar_wide_reduce(wide.as_slice()), copy_range(rand.as_slice(), 32, 64))
    }

    /// Makes this participant's share of the signature: its nonce less the challenge
    /// times the key's multiplier times its weighted secret share. The algorithm keeps
    /// what the checks need of the core's results.
    pub fn sign_share(&mut self, secret_share: EdScalar, nonce: EdScalar, core: &ClsagCore) -> (r:
        EdScalar)
        requires
            ed_scalar(secret_share),
            ed_scalar(nonce),
            ed_scalar(core.c),
            ed_scalar(core.mu_C),
            ed_scalar(core.mu_P),
            ed_scalar(core.z),
        ensures
            ed_scalar(r),
            le_value(r.repr@) == share_spec(
                le_value(nonce.repr@),
                le_value(core.c.repr@),
                le_value(core.mu_P.repr@),
                le_value(secret_share.repr@),
            ),
            final(self).challenge() matches Some(c) && ed_scalar(c) && le_value(c.repr@) == (
            le_value(core.c.repr@) * le_value(core.mu_P.repr@)) % ed_order(),
            final(self).mask_part() matches Some(s) && ed_scalar(s) && le_value(s.repr@) == (
            le_value(core.c.repr@) * le_value(core.mu_C.repr@) * le_value(core.z.repr@))
                % ed_order(),
            final(self).transcript() == old(self).transcript(),
            final(self).image_sum() == old(self).image_sum(),
            final(self).message() == old(self).message(),
            final(self).input_context() == old(self).input_context(),
    {
        proof {
            use_type_invariant(&*self);
        }
        let key_part = ed_scalar_mul(core.c, core.mu_P);
        let mask_part = ed_scalar_mul(ed_scalar_mul(core.c, core.mu_C), core.z);
        proof {
            let q = ed_order();
            crate::modmath::lemma_mul_mod_left(
                le_value(core.c.repr@) * le_value(core.mu_C.repr@),
                le_value(core.z.repr@),
                q,
            );
            crate::modmath::lemma_mul_mod_left(
                le_value(core.c.repr@) * le_value(core.mu_P.repr@),
                le_value(secret_share.repr@),
                q,
            );
            vstd::arithmetic::div_mod::lemma_sub_mod_noop_right(
                le_value(nonce.repr@),
                (le_value(core.c.repr@) * le_value(core.mu_P.repr@)) * le_value(
                    secret_share.repr@,
                ),
                q,
            );
        }
        self.interim = Some(ClsagSignInterim { c: key_part, s: mask_part });
        ed_scalar_sub(nonce, ed_scalar_mul(key_part, secret_share))
    }

    /// The response for the signer's place in the ring, of the sum of the shares: the sum
    /// less the mask's contribution. The ring signature with this response is then
    /// checked outside.
    pub fn verify(&self, sum: EdScalar) -> (r: Option<EdScalar>)
        requires
            ed_scalar(sum),
        ensures
            match (r, self.mask_part()) {
                (Some(response), Some(mask)) => ed_scalar(response) && le_value(response.repr@)
                    == (le_value(sum.repr@) - le_value(mask.repr@)) % ed_order(),
                (None, None) => true,
                _ => false,
            },
    {
        proof {
            use_type_invariant(self);
        }
        match self.interim {
            Some(interim) => Some(ed_scalar_sub(sum, interim.s)),
            None => None,
        }
    }

    /// Checks a participant's share against its weighted verification share and its nonce
    /// commitment: whether `share·G = nonce − c·v`. Before the share is made there is
    /// nothing to check against, and no share is valid.
    pub fn verify_share(&self, verification_share: EdPoint, nonce: EdPoint, share: EdScalar) -> (r:
        bool)
        requires
            ed_point(verification_share),
            ed_point(nonce),
            ed_scalar(share),
        ensures
            r == (self.challenge() matches Some(c) && share_valid(
                ed_dlog(verification_share.repr@),
                ed_dlog(nonce.repr@),
                le_value(share.repr@),
                le_value(c.repr@),
            )),
    {
        proof {
            use_type_invariant(self);
        }
        match self.interim {
            Some(interim) => {
                let expected = ed_point_sub(nonce, ed_point_mul(verification_share, interim.c));
                proof {
                    let q = ed_order();
                    vstd::arithmetic::div_mod::lemma_sub_mod_noop_right(
                        ed_dlog(nonce.repr@),
                        ed_dlog(verification_share.repr@) * le_value(interim.c.repr@),
                        q,
                    );
                    crate::modmath::lemma_reduced(le_value(share.repr@), q);
                    assert(ed_dlog(verification_share.repr@) * le_value(interim.c.repr@)
                        == le_value(interim.c.repr@) * ed_dlog(verification_share.repr@))
                        by (nonlinear_arith);
                }
                let shared = ed_basepoint_mul(share);
                // points of the subgroup are the same where their encodings are
                bytes_eq(array_as_slice(&shared.repr), array_as_slice(&expected.repr))
            },
            None => false,
        }
    }
}

/// The randomness that all participants agree on, given what they agreed on.
pub open spec fn agreed_randomness(transcript: Seq<u8>) -> Seq<u8> {
    blake2b512_digest(randomness_label() + transcript)
}

/// A participant's share of the signature: `nonce − c·mu_P·x`.
pub open spec fn share_spec(nonce: int, c: int, mu_p: int, secret_share: int) -> int {
    (nonce - (c * mu_p) * secret_share) % ed_order()
}

/// Whether a share is valid: `share·G = nonce − c·v`, with the points given as multiples
/// of the basepoint `G`.
pub open spec fn share_valid(verification_share: int, nonce: int, share: int, c: int) -> bool {
    share % ed_order() == (nonce - c * verification_share) % ed_order()
}

/// A share made of a nonce and of a secret share is valid for the nonce's commitment and
/// for the secret share's verification share.
pub proof fn lemma_share_valid(nonce: int, c: int, mu_p: int, secret_share: int)
    ensures
        share_valid(
            secret_share,
            nonce,
            share_spec(nonce, c, mu_p, secret_share),
            (c * mu_p) % ed_order(),
        ),
{
    let q = ed_order();
    vstd::arithmetic::div_mod::lemma_mod_twice(nonce - (c * mu_p) * secret_share, q);
    crate::modmath::lemma_mul_mod_left(c * mu_p, secret_share, q);
    vstd::arithmetic::div_mod::lemma_sub_mod_noop_right(nonce, (c * mu_p) * secret_share, q);
    vstd::arithmetic::div_mod::lemma_sub_mod_noop_right(
        nonce,
        ((c * mu_p) % q) * secret_share,
        q,
    );
}

} // verus!
