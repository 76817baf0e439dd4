//! What the signing machine needs of a signature scheme, and the scheme of plain Schnorr
//! signatures.

use crate::curve::Curve;
use crate::schnorr::{respond, schnorr_valid, verify, SchnorrSignature};
use crate::{FrostError, MultisigView};
use vstd::prelude::*;

verus! {

/// A signature scheme that the participants of a multisig can sign in.
///
/// The signing machine calls the scheme at fixed points of the protocol: for the context
/// that the binding factors commit to, for what the scheme adds to each participant's
/// preprocess, for this participant's share of the signature, and for the checks of the
/// others' shares and of the signature that the shares add up to. What each call returns
/// is the scheme's own; the machine relies on the names given to it here.
pub trait Algorithm<C: Curve>: Sized {
    /// The signature that the scheme produces.
    type Signature;

    /// Whether the scheme's state is well formed.
    spec fn wf(&self) -> bool;

    /// Whether the scheme has made its share, and so holds what the checks need.
    spec fn signed(&self) -> bool;

    /// The context that the binding factors commit to.
    spec fn context_spec(&self) -> Seq<u8>;

    /// The length of what the scheme adds to a participant's preprocess.
    spec fn addendum_len_spec() -> nat;

    /// What processing the addendum of the participant `l` leads to: the scheme's next
    /// state, or an error.
    spec fn addendum_outcome(
        &self,
        view: &MultisigView<C>,
        l: u16,
        commitments: (C::G, C::G),
        binding: C::F,
        serialized: Seq<u8>,
    ) -> Result<Self, FrostError>;

    /// This participant's share of the signature.
    spec fn share_spec(&self, view: &MultisigView<C>, nonce_sum: C::G, nonce: C::F, msg: Seq<u8>) -> int;

    /// The scheme's state after it has made its share.
    spec fn after_sign(&self, view: &MultisigView<C>, nonce_sum: C::G, nonce: C::F, msg: Seq<u8>) -> Self;

    /// The signature that the shares add up to, where it is valid.
    spec fn verify_spec(&self, group_key: C::G, nonce: C::G, sum: C::F) -> Option<Self::Signature>;

    /// Whether a participant's share is valid.
    spec fn share_valid(&self, verification_share: C::G, nonce: C::G, share: C::F) -> bool;

    /// The context that the binding factors commit to: the scheme's domain separator and
    /// what it signs.
    fn context(&self) -> (r: Vec<u8>)
        requires
            self.wf(),
        ensures
            r@ == self.context_spec(),
    ;

    /// The length of what the scheme adds to a participant's preprocess.
    fn addendum_commit_len() -> (r: usize)
        ensures
            r == Self::addendum_len_spec(),
    ;

    /// What the scheme adds to this participant's preprocess, given its nonces.
    fn preprocess_addendum(
        rng: &mut rand_core::OsRng,
        view: &MultisigView<C>,
        nonces: &(C::F, C::F),
    ) -> (r: Vec<u8>)
        requires
            view.wf(),
            C::f_wf(nonces.0),
            C::f_wf(nonces.1),
        ensures
            r@.len() == Self::addendum_len_spec(),
    ;

    /// Processes the addendum of the participant `l`, given its nonce commitments and its
    /// binding factor.
    fn process_addendum(
        &mut self,
        view: &MultisigView<C>,
        l: u16,
        commitments: &(C::G, C::G),
        binding: &C::F,
        serialized: &[u8],
    ) -> (r: Result<(), FrostError>)
        requires
            old(self).wf(),
            view.wf(),
            C::g_wf(commitments.0),
            C::g_wf(commitments.1),
            C::f_wf(*binding),
        ensures
            final(self).wf(),
            match old(self).addendum_outcome(view, l, *commitments, *binding, serialized@) {
                Ok(next) => r is Ok && *final(self) == next,
                Err(e) => r == Err::<(), FrostError>(e),
            },
    ;

    /// Makes this participant's share of the signature, given the sum of the nonce
    /// commitments and this participant's nonce.
    fn sign_share(&mut self, view: &MultisigView<C>, nonce_sum: C::G, nonce: C::F, msg: &[u8]) -> (r:
        C::F)
        requires
            old(self).wf(),
            view.wf(),
            C::g_wf(nonce_sum),
            C::f_wf(nonce),
        ensures
            final(self).wf(),
            final(self).signed(),
            C::f_wf(r),
            C::f_val(r) == old(self).share_spec(view, nonce_sum, nonce, msg@),
            *final(self) == old(self).after_sign(view, nonce_sum, nonce, msg@),
    ;

    /// Checks the signature that the shares add up to, and returns it where it is valid.
    fn verify(&self, group_key: C::G, nonce: C::G, sum: C::F) -> (r: Option<Self::Signature>)
        requires
            self.wf(),
            self.signed(),
            C::g_wf(group_key),
            C::g_wf(nonce),
            C::f_wf(sum),
        ensures
            r == self.verify_spec(group_key, nonce, sum),
    ;

    /// Checks a participant's share against its verification share and its nonce
    /// commitment.
    fn verify_share(&self, verification_share: C::G, nonce: C::G, share: C::F) -> (r: bool)
        requires
            self.wf(),
            self.signed(),
            C::g_wf(verification_share),
            C::g_wf(nonce),
            C::f_wf(share),
        ensures
            r == self.share_valid(verification_share, nonce, share),
    ;
}

/// The hash of a nonce commitment, a key and a message to the challenge of a Schnorr
/// signature.
pub trait Hram<C: Curve>: Sized {
    /// The challenge, given the encodings of the nonce commitment and of the key.
    #[allow(non_snake_case)]
    spec fn hram_spec(R: Seq<u8>, A: Seq<u8>, m: Seq<u8>) -> int;

    /// The challenge is a reduced integer.
    #[allow(non_snake_case)]
    proof fn lemma_hram_range(R: Seq<u8>, A: Seq<u8>, m: Seq<u8>)
        ensures
            0 <= Self::hram_spec(R, A, m) < C::order(),
    ;

    /// The challenge for a nonce commitment `R`, a key `A` and a message `m`.
    #[allow(non_snake_case)]
    fn hram(R: &C::G, A: &C::G, m: &[u8]) -> (c: C::F)
        requires
            C::g_wf(*R),
            C::g_wf(*A),
        ensures
            C::f_wf(c),
            C::f_val(c) == Self::hram_spec(C::g_repr(*R), C::g_repr(*A), m@),
    ;
}

/// Plain Schnorr signatures, with the challenge made by `H`.
pub struct Schnorr<C: Curve, H: Hram<C>> {
    c: Option<C::F>,
    _hram: core::marker::PhantomData<H>,
}

impl<C: Curve, H: Hram<C>> Schnorr<C, H> {
    /// The challenge of the signature being made, once the share has been made.
    pub closed spec fn challenge(&self) -> Option<C::F> {
        self.c
    }

    /// The scheme before any signature.
    pub fn new() -> (r: Schnorr<C, H>)
        ensures
            r.challenge() is None,
            Algorithm::<C>::wf(&r),
    {
        Schnorr { c: None, _hram: core::marker::PhantomData }
    }
}

impl<C: Curve, H: Hram<C>> Clone for Schnorr<C, H> {
    /// A copy of the scheme, with its challenge.
    fn clone(&self) -> (res: Schnorr<C, H>)
        ensures
            res.challenge() == self.challenge(),
    {
        Schnorr { c: self.c, _hram: core::marker::PhantomData }
    }
}

impl<C: Curve, H: Hram<C>> Algorithm<C> for Schnorr<C, H> {
    type Signature = SchnorrSignature<C>;

    open spec fn wf(&self) -> bool {
        self.challenge() matches Some(c) ==> C::f_wf(c)
    }

    open spec fn signed(&self) -> bool {
        self.challenge() is Some
    }

    open spec fn context_spec(&self) -> Seq<u8> {
        Seq::<u8>::empty()
    }

    open spec fn addendum_len_spec() -> nat {
        0
    }

    open spec fn addendum_outcome(
        &self,
        view: &MultisigView<C>,
        l: u16,
        commitments: (C::G, C::G),
        binding: C::F,
        serialized: Seq<u8>,
    ) -> Result<Self, FrostError> {
        Ok(*self)
    }

    /// The share `z = r + x·c`, with this participant's nonce `r`, its weighted secret
    /// share `x`, and the challenge `c` made of the nonce sum, the group key and the
    /// message.
    open spec fn share_spec(
        &self,
        view: &MultisigView<C>,
        nonce_sum: C::G,
        nonce: C::F,
        msg: Seq<u8>,
    ) -> int {
        (C::f_val(nonce) + C::f_val(view.spec_secret_share()) * H::hram_spec(
            C::g_repr(nonce_sum),
            C::g_repr(view.spec_group_key()),
            msg,
        )) % C::order()
    }

    closed spec fn after_sign(
        &self,
        view: &MultisigView<C>,
        nonce_sum: C::G,
        nonce: C::F,
        msg: Seq<u8>,
    ) -> Self {
        Schnorr {
            c: Some(
                choose|c: C::F|
                    C::f_wf(c) && C::f_val(c) == H::hram_spec(
                        C::g_repr(nonce_sum),
                        C::g_repr(view.spec_group_key()),
                        msg,
                    ),
            ),
            _hram: core::marker::PhantomData,
        }
    }

    open spec fn verify_spec(&self, group_key: C::G, nonce: C::G, sum: C::F) -> Option<
        SchnorrSignature<C>,
    > {
        if schnorr_valid(
            C::g_log(group_key),
            C::f_val(self.challenge()->Some_0),
            C::g_log(nonce),
            C::f_val(sum),
            C::order(),
        ) {
            Some(SchnorrSignature { R: nonce, s: sum })
        } else {
            None
        }
    }

    open spec fn share_valid(&self, verification_share: C::G, nonce: C::G, share: C::F) -> bool {
        schnorr_valid(
            C::g_log(verification_share),
            C::f_val(self.challenge()->Some_0),
            C::g_log(nonce),
            C::f_val(share),
            C::order(),
        )
    }

    fn context(&self) -> (r: Vec<u8>) {
        Vec::new()
    }

    fn addendum_commit_len() -> (r: usize) {
        0
    }

    fn preprocess_addendum(
        rng: &mut rand_core::OsRng,
        view: &MultisigView<C>,
        nonces: &(C::F, C::F),
    ) -> (r: Vec<u8>) {
        Vec::new()
    }

    fn process_addendum(
        &mut self,
        view: &MultisigView<C>,
        l: u16,
        commitments: &(C::G, C::G),
        binding: &C::F,
        serialized: &[u8],
    ) -> (r: Result<(), FrostError>) {
        Ok(())
    }

    fn sign_share(&mut self, view: &MultisigView<C>, nonce_sum: C::G, nonce: C::F, msg: &[u8]) -> (r:
        C::F) {
        proof {
            use_type_invariant(view);
        }
        let group_key = view.group_key();
        let c = H::hram(&nonce_sum, &group_key, msg);
        self.c = Some(c);
        proof {
            let chosen = choose|x: C::F|
                C::f_wf(x) && C::f_val(x) == H::hram_spec(
                    C::g_repr(nonce_sum),
                    C::g_repr(view.spec_group_key()),
                    msg@,
                );
            C::lemma_scalar_val(c, chosen);
        }
        respond::<C>(view.secret_share(), nonce, c)
    }

    fn verify(&self, group_key: C::G, nonce: C::G, sum: C::F) -> (r: Option<SchnorrSignature<C>>) {
        let signature = SchnorrSignature { R: nonce, s: sum };
        let c = match self.c {
            Some(c) => c,
            None => vstd::pervasive::unreached(),
        };
        if verify::<C>(group_key, c, &signature) {
            Some(signature)
        } else {
            None
        }
    }

    fn verify_share(&self, verification_share: C::G, nonce: C::G, share: C::F) -> (r: bool) {
        let c = match self.c {
            Some(c) => c,
            None => vstd::pervasive::unreached(),
        };
        verify::<C>(verification_share, c, &SchnorrSignature { R: nonce, s: share })
    }
}

/// After its share is made, the scheme holds the challenge: the hash of the nonce sum,
/// of the group's key and of the message.
pub proof fn lemma_schnorr_after_sign<C: Curve, H: Hram<C>>(
    before: Schnorr<C, H>,
    view: &MultisigView<C>,
    nonce_sum: C::G,
    nonce: C::F,
    msg: Seq<u8>,
)
    ensures
        before.after_sign(view, nonce_sum, nonce, msg).challenge() matches Some(c) && C::f_wf(c)
            && C::f_val(c) == H::hram_spec(
            C::g_repr(nonce_sum),
            C::g_repr(view.spec_group_key()),
            msg,
        ),
{
    let value = H::hram_spec(C::g_repr(nonce_sum), C::g_repr(view.spec_group_key()), msg);
    H::lemma_hram_range(C::g_repr(nonce_sum), C::g_repr(view.spec_group_key()), msg);
    C::lemma_scalar_exists(value);
}

} // verus!
