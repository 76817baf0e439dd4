//! Threshold Schnorr signatures: distributed key generation, the keys it leaves each
//! participant with, and signing by any large enough subset of them.

use crate::bytes::{append, be16, be16_spec, be64, be64_spec, bytes_eq, read_be16};
use crate::curve::{f_from_u16, f_one, f_zero, Curve};
use crate::modmath::{
    inv_mod, is_inverse, lemma_add_mod_left, lemma_add_mod_right, lemma_inv_mod,
    lemma_mul_mod_left, lemma_mul_mod_right, lemma_reduced,
};
use crate::sign::{sort_indices, sorted_indices};
use std::collections::HashMap;
use vstd::prelude::*;
use vstd::slice::{slice_subrange, slice_to_vec};

pub mod algorithm;
pub mod bytes;
pub mod clsag;
pub mod curve;
pub mod interpolation;
pub mod key_gen;
pub mod laws;
pub mod modmath;
pub mod schnorr;
pub mod sign;

verus! {

/// Parameters for a multisig: how many participants are needed to sign, how many there
/// are, and which of them this one is.
#[derive(Clone, Copy, PartialEq, Eq, Debug)]
pub struct MultisigParams {
    /// Participants needed to sign on behalf of the group
    t: u16,
    /// Amount of participants
    n: u16,
    /// Index of the participant being acted for
    i: u16,
}

impl MultisigParams {
    /// Participants needed to sign on behalf of the group.
    pub closed spec fn spec_t(&self) -> u16 {
        self.t
    }

    /// Amount of participants.
    pub closed spec fn spec_n(&self) -> u16 {
        self.n
    }

    /// Index of the participant being acted for.
    pub closed spec fn spec_i(&self) -> u16 {
        self.i
    }

    /// Whether the parameters are valid: `1 ≤ t ≤ n` and `1 ≤ i ≤ n`.
    #[verifier::type_invariant]
    pub open spec fn wf(&self) -> bool {
        &&& 1 <= self.t() <= self.n()
        &&& 1 <= self.i() <= self.n()
    }

    /// Validates the parameters: neither `t` nor `n` may be zero, `t` may not exceed `n`,
    /// and `i` must be an index from 1 to `n`. The conditions are tested in this order.
    pub fn new(t: u16, n: u16, i: u16) -> (r: Result<MultisigParams, FrostError>)
        ensures
            match r {
                Ok(p) => p.wf() && p.t() == t && p.n() == n && p.i() == i,
                Err(FrostError::ZeroParameter(a, b)) => (t == 0 || n == 0) && a == t && b == n,
                Err(FrostError::InvalidRequiredQuantity(a, b)) => t != 0 && n != 0 && t > n && a
                    == t && b == n,
                Err(FrostError::InvalidParticipantIndex(a, b)) => 0 < t <= n && (i == 0 || i > n)
                    && a == n && b == i,
                Err(_) => false,
            },
    {
        if (t == 0) || (n == 0) {
            return Err(FrostError::ZeroParameter(t, n));
        }
        // When t == n, this shouldn't be used (MuSig2 and other variants of MuSig exist for a
        // reason), but it's not invalid to do so
        if t > n {
            return Err(FrostError::InvalidRequiredQuantity(t, n));
        }
        if (i == 0) || (i > n) {
            return Err(FrostError::InvalidParticipantIndex(n, i));
        }
        Ok(MultisigParams { t, n, i })
    }

    /// Participants needed to sign on behalf of the group.
    #[verifier::when_used_as_spec(spec_t)]
    pub fn t(&self) -> (r: u16)
        ensures
            r == self.t(),
    {
        self.t
    }

    /// Amount of participants.
    #[verifier::when_used_as_spec(spec_n)]
    pub fn n(&self) -> (r: u16)
        ensures
            r == self.n(),
    {
        self.n
    }

    /// Index of the participant being acted for.
    #[verifier::when_used_as_spec(spec_i)]
    pub fn i(&self) -> (r: u16)
        ensures
            r == self.i(),
    {
        self.i
    }
}

/// What can go wrong in key generation and in signing.
#[derive(Clone, Debug)]
pub enum FrostError {
    /// A parameter was 0 (required, participants).
    ZeroParameter(u16, u16),
    /// Too many participants (got, max).
    TooManyParticipants(usize, u16),
    /// Invalid amount of required participants (got, max).
    InvalidRequiredQuantity(u16, u16),
    /// Invalid participant index (max, index).
    InvalidParticipantIndex(u16, u16),
    /// Invalid signing set.
    InvalidSigningSet(String),
    /// Invalid participant quantity (expected, got).
    InvalidParticipantQuantity(usize, usize),
    /// Duplicated participant index.
    DuplicatedIndex(usize),
    /// Missing participant.
    MissingParticipant(u16),
    /// Invalid commitment (participant).
    InvalidCommitment(u16),
    /// Invalid proof of knowledge (participant).
    InvalidProofOfKnowledge(u16),
    /// Invalid share (participant).
    InvalidShare(u16),
    /// Internal error.
    InternalError(String),
}

/// The first index of `included` that is not a key of `map`, where there is one.
pub open spec fn first_missing<T>(map: Map<u16, T>, included: Seq<u16>) -> Option<u16>
    decreases included.len(),
{
    if included.len() == 0 {
        None
    } else if !map.contains_key(included[0]) {
        Some(included[0])
    } else {
        first_missing(map, included.skip(1))
    }
}

/// No index is missing exactly where the map has every index as a key.
pub proof fn lemma_first_missing<T>(map: Map<u16, T>, included: Seq<u16>)
    ensures
        first_missing(map, included) is None <==> forall|j: int|
            0 <= j < included.len() ==> map.contains_key(#[trigger] included[j]),
        first_missing(map, included) matches Some(l) ==> !map.contains_key(l) && included.contains(l),
    decreases included.len(),
{
    if included.len() > 0 {
        lemma_first_missing(map, included.skip(1));
        if map.contains_key(included[0]) {
            if first_missing(map, included.skip(1)) is None {
                assert forall|j: int| 0 <= j < included.len() implies map.contains_key(
                    #[trigger] included[j],
                ) by {
                    if j > 0 {
                        assert(included[j] == included.skip(1)[j - 1]);
                    }
                }
            } else {
                let l = first_missing(map, included.skip(1))->Some_0;
                let k = choose|k: int| 0 <= k < included.skip(1).len() && included.skip(1)[k] == l;
                assert(included[k + 1] == l);
            }
        } else {
            assert(included[0] == included[0]);
        }
    }
}

/// Why a map of values received from the participants is refused, where it is: it has
/// not as many entries as `included` has indices, or none for one of them.
pub open spec fn map_failure<T>(map: Map<u16, T>, included: Seq<u16>) -> Option<FrostError> {
    if map.len() != included.len() {
        Some(FrostError::InvalidParticipantQuantity(included.len() as usize, map.len() as usize))
    } else if let Some(l) = first_missing(map, included) {
        Some(FrostError::MissingParticipant(l))
    } else {
        None
    }
}

/// Validates a map of values received from the participants: adds this participant's own
/// value, then asks that the map has as many entries as `included` has indices, and one
/// for each of them.
pub fn validate_map<T>(map: &mut HashMap<u16, T>, included: &[u16], ours: (u16, T)) -> (r: Result<
    (),
    FrostError,
>)
    ensures
        final(map)@ == old(map)@.insert(ours.0, ours.1),
        match r {
            Ok(()) => final(map)@.len() == included@.len() && first_missing(
                final(map)@,
                included@,
            ) is None,
            Err(FrostError::InvalidParticipantQuantity(expected, got)) => final(map)@.len()
                != included@.len() && expected == included@.len() && got == final(map)@.len(),
            Err(FrostError::MissingParticipant(l)) => final(map)@.len() == included@.len()
                && first_missing(final(map)@, included@) == Some(l),
            Err(_) => false,
        },
{
    map.insert(ours.0, ours.1);

    if map.len() != included.len() {
        return Err(FrostError::InvalidParticipantQuantity(included.len(), map.len()));
    }
    let mut j: usize = 0;
    assert(included@.skip(0) =~= included@);
    while j < included.len()
        invariant
            j <= included@.len(),
            map@ == old(map)@.insert(ours.0, ours.1),
            map@.len() == included@.len(),
            first_missing(map@, included@) == first_missing(map@, included@.skip(j as int)),
        decreases included@.len() - j,
    {
        let l = included[j];
        assert(included@.skip(j as int)[0] == l);
        assert(included@.skip(j as int).skip(1) =~= included@.skip(j + 1));
        if !map.contains_key(&l) {
            return Err(FrostError::MissingParticipant(l));
        }
        j += 1;
    }
    Ok(())
}

/// The product of the indices of `included`, but for `i`.
pub open spec fn lagrange_num(i: u16, included: Seq<u16>) -> int
    decreases included.len(),
{
    if included.len() == 0 {
        1
    } else if included.last() == i {
        lagrange_num(i, included.drop_last())
    } else {
        lagrange_num(i, included.drop_last()) * included.last() as int
    }
}

/// The product of the differences between the indices of `included`, but for `i`, and `i`.
pub open spec fn lagrange_denom(i: u16, included: Seq<u16>) -> int
    decreases included.len(),
{
    if included.len() == 0 {
        1
    } else if included.last() == i {
        lagrange_denom(i, included.drop_last())
    } else {
        lagrange_denom(i, included.drop_last()) * (included.last() as int - i as int)
    }
}

/// The Lagrange coefficient of `i` for a signing set, modulo `q`: the weight of the value
/// at `i` when the polynomial through the set's values is evaluated at 0.
pub open spec fn lagrange_spec(q: int, i: u16, included: Seq<u16>) -> int {
    (lagrange_num(i, included) * inv_mod(lagrange_denom(i, included) % q, q)) % q
}

/// A number other than zero and smaller than the modulus, in either direction, leaves a
/// remainder.
pub proof fn lemma_small_nonzero(d: int, q: int)
    requires
        d != 0,
        -q < d < q,
    ensures
        d % q != 0,
{
    if d > 0 {
        lemma_reduced(d, q);
    } else {
        vstd::arithmetic::div_mod::lemma_mod_add_multiples_vanish(d, q);
        lemma_reduced(d + q, q);
    }
}

/// Calculate the lagrange coefficient for a signing set.
pub fn lagrange<C: Curve>(i: u16, included: &[u16]) -> (r: C::F)
    ensures
        C::f_wf(r),
        C::f_val(r) == lagrange_spec(C::order(), i, included@),
        is_inverse(
            lagrange_denom(i, included@) % C::order(),
            inv_mod(lagrange_denom(i, included@) % C::order(), C::order()),
            C::order(),
        ),
{
    let ghost q = C::order();
    proof {
        C::lemma_order();
        lemma_reduced(1, q);
    }
    let mut num = f_one::<C>();
    let mut denom = f_one::<C>();
    let mut k: usize = 0;
    while k < included.len()
        invariant
            k <= included@.len(),
            q == C::order(),
            q > 0x10000,
            C::f_wf(num),
            C::f_wf(denom),
            C::f_val(num) == lagrange_num(i, included@.take(k as int)) % q,
            C::f_val(denom) == lagrange_denom(i, included@.take(k as int)) % q,
            C::f_val(denom) != 0,
        decreases included@.len() - k,
    {
        let l = included[k];
        proof {
            assert(included@.take(k + 1).drop_last() =~= included@.take(k as int));
            assert(included@.take(k + 1).last() == l);
        }
        k += 1;
        if i == l {
            continue;
        }
        let share = f_from_u16::<C>(l);
        let ghost n0 = lagrange_num(i, included@.take(k - 1));
        let ghost d0 = lagrange_denom(i, included@.take(k - 1));
        proof {
            lemma_mul_mod_left(n0, l as int, q);
            lemma_small_nonzero(l as int - i as int, q);
            lemma_mul_mod_left(d0, l as int - i as int, q);
            lemma_mul_mod_right(d0 % q, l as int - i as int, q);
        }
        num = C::f_mul(num, share);
        denom = C::f_mul(denom, crate::curve::f_sub::<C>(share, f_from_u16::<C>(i)));
    }
    assert(included@.take(k as int) =~= included@);
    // Never none, as the denominator is a product of factors that are not zero
    match C::f_invert(denom) {
        Some(inverse) => {
            proof {
                C::lemma_scalar(inverse);
                lemma_inv_mod(C::f_val(denom), C::f_val(inverse), q);
                lemma_mul_mod_left(lagrange_num(i, included@), C::f_val(inverse), q);
            }
            C::f_mul(num, inverse)
        },
        None => vstd::pervasive::unreached(),
    }
}

/// View of keys passable to algorithm implementations: the keys as one signing set sees
/// them, with each share weighted by its Lagrange coefficient for the set and the offset
/// spread evenly over the set.
pub struct MultisigView<C: Curve> {
    group_key: C::G,
    included: Vec<u16>,
    secret_share: C::F,
    verification_shares: HashMap<u16, C::G>,
}

impl<C: Curve> MultisigView<C> {
    /// The group's key.
    pub closed spec fn spec_group_key(&self) -> C::G {
        self.group_key
    }

    /// The signing set, in ascending order.
    pub closed spec fn spec_included(&self) -> Seq<u16> {
        self.included@
    }

    /// This participant's share of the secret, as weighted for the set.
    pub closed spec fn spec_secret_share(&self) -> C::F {
        self.secret_share
    }

    /// The participants' verification shares, as weighted for the set.
    pub closed spec fn shares(&self) -> Map<u16, C::G> {
        self.verification_shares@
    }

    /// Whether every scalar and point of the view belongs to the curve.
    #[verifier::type_invariant]
    pub open spec fn wf(&self) -> bool {
        &&& C::g_wf(self.spec_group_key())
        &&& C::f_wf(self.spec_secret_share())
        &&& forall|l: u16| #[trigger]
            self.shares().contains_key(l) ==> C::g_wf(self.shares()[l])
    }

    /// The group's key.
    #[verifier::when_used_as_spec(spec_group_key)]
    pub fn group_key(&self) -> (r: C::G)
        ensures
            r == self.spec_group_key(),
    {
        self.group_key
    }

    /// The signing set, in ascending order.
    pub fn included(&self) -> (r: Vec<u16>)
        ensures
            r@ == self.spec_included(),
    {
        slice_to_vec(self.included.as_slice())
    }

    /// This participant's share of the secret, as weighted for the set.
    #[verifier::when_used_as_spec(spec_secret_share)]
    pub fn secret_share(&self) -> (r: C::F)
        ensures
            r == self.spec_secret_share(),
    {
        self.secret_share
    }

    /// The verification share of the participant `l`, who must have one.
    pub fn verification_share(&self, l: u16) -> (r: C::G)
        requires
            self.shares().contains_key(l),
        ensures
            r == self.shares()[l],
    {
        match self.verification_shares.get(&l) {
            Some(share) => *share,
            None => vstd::pervasive::unreached(),
        }
    }
}

/// The keys that key generation leaves a participant with: its share of the group's
/// secret, the group's key, and everyone's verification share.
#[derive(PartialEq, Eq, Debug)]
pub struct MultisigKeys<C: Curve> {
    /// Multisig Parameters
    params: MultisigParams,
    /// Secret share key
    secret_share: C::F,
    /// Group key
    group_key: C::G,
    /// Verification shares
    verification_shares: HashMap<u16, C::G>,
    /// Offset applied to these keys
    offset: Option<C::F>,
}

impl<C: Curve> Clone for MultisigView<C> {
    /// A copy of the view.
    fn clone(&self) -> (res: MultisigView<C>)
        ensures
            res.spec_group_key() == self.spec_group_key(),
            res.spec_included() == self.spec_included(),
            res.spec_secret_share() == self.spec_secret_share(),
            res.shares() == self.shares(),
    {
        proof {
            use_type_invariant(self);
        }
        let verification_shares = self.verification_shares.clone();
        assert(verification_shares@ == self.shares());
        assert(forall|l: u16| #[trigger]
            verification_shares@.contains_key(l) ==> C::g_wf(verification_shares@[l]));
        MultisigView {
            group_key: self.group_key,
            included: slice_to_vec(self.included.as_slice()),
            secret_share: self.secret_share,
            verification_shares,
        }
    }
}

impl<C: Curve> Clone for MultisigKeys<C> {
    /// A copy of the keys.
    fn clone(&self) -> (res: MultisigKeys<C>)
        ensures
            res.spec_params() == self.spec_params(),
            res.spec_secret_share() == self.spec_secret_share(),
            res.spec_group_key() == self.spec_group_key(),
            res.shares() == self.shares(),
            res.spec_offset() == self.spec_offset(),
    {
        proof {
            use_type_invariant(self);
        }
        let verification_shares = self.verification_shares.clone();
        assert(verification_shares@ == self.shares());
        assert(forall|l: u16| #[trigger]
            verification_shares@.contains_key(l) ==> C::g_wf(verification_shares@[l]));
        MultisigKeys {
            params: self.params,
            secret_share: self.secret_share,
            group_key: self.group_key,
            verification_shares,
            offset: self.offset,
        }
    }
}

/// The share of an offset that each participant of a signing set of `len` takes.
pub open spec fn offset_share_spec(q: int, offset: int, len: int) -> int {
    (offset * inv_mod(len % q, q)) % q
}

impl<C: Curve> MultisigKeys<C> {
    /// The parameters.
    pub closed spec fn spec_params(&self) -> MultisigParams {
        self.params
    }

    /// This participant's share of the secret.
    pub closed spec fn spec_secret_share(&self) -> C::F {
        self.secret_share
    }

    /// The group's key, with the offset applied.
    pub closed spec fn spec_group_key(&self) -> C::G {
        self.group_key
    }

    /// The participants' verification shares.
    pub closed spec fn shares(&self) -> Map<u16, C::G> {
        self.verification_shares@
    }

    /// The offset applied to the keys, if any.
    pub closed spec fn spec_offset(&self) -> Option<C::F> {
        self.offset
    }

    /// The offset as an integer: 0 where there is none.
    pub open spec fn offset_val(&self) -> int {
        match self.spec_offset() {
            Some(o) => C::f_val(o),
            None => 0,
        }
    }

    /// Whether the keys are well formed: valid parameters, scalars and points of the
    /// curve, and one verification share for each participant from 1 to `n`.
    #[verifier::type_invariant]
    pub open spec fn wf(&self) -> bool {
        &&& self.spec_params().wf()
        &&& C::f_wf(self.spec_secret_share())
        &&& C::g_wf(self.spec_group_key())
        &&& forall|l: u16| #[trigger]
            self.shares().contains_key(l) <==> 1 <= l <= self.spec_params().n()
        &&& forall|l: u16| #[trigger]
            self.shares().contains_key(l) ==> C::g_wf(self.shares()[l])
        &&& self.spec_offset() matches Some(o) ==> C::f_wf(o)
    }

    /// The secret share that a signing set's view holds.
    pub open spec fn view_secret_spec(&self, included: Seq<u16>) -> int {
        (C::f_val(self.spec_secret_share()) * lagrange_spec(
            C::order(),
            self.spec_params().i(),
            included,
        ) + offset_share_spec(C::order(), self.offset_val(), included.len() as int)) % C::order()
    }

    /// The verification share of `l` that a signing set's view holds.
    pub open spec fn view_share_spec(&self, l: u16, included: Seq<u16>) -> int {
        (C::g_log(self.shares()[l]) * lagrange_spec(C::order(), l, included) + offset_share_spec(
            C::order(),
            self.offset_val(),
            included.len() as int,
        )) % C::order()
    }

    /// Offset the keys by a given scalar to allow for account and privacy schemes.
    /// This offset is ephemeral and will not be included when these keys are serialized.
    /// Keys offset multiple times will form a new offset of their sum.
    pub fn offset(&self, offset: C::F) -> (res: MultisigKeys<C>)
        requires
            C::f_wf(offset),
        ensures
            res.wf(),
            res.spec_params() == self.spec_params(),
            res.spec_secret_share() == self.spec_secret_share(),
            res.shares() == self.shares(),
            res.spec_offset() is Some,
            res.offset_val() == (C::f_val(offset) + self.offset_val()) % C::order(),
            C::g_log(res.spec_group_key()) == (C::g_log(self.spec_group_key()) + C::f_val(offset))
                % C::order(),
    {
        // Carry any existing offset
        let previous = match self.offset {
            Some(o) => o,
            None => f_zero::<C>(),
        };
        proof {
            use_type_invariant(self);
            C::lemma_order();
            C::lemma_scalar(offset);
            lemma_reduced(C::f_val(offset), C::order());
            assert(1 * C::f_val(offset) == C::f_val(offset)) by (nonlinear_arith);
            lemma_add_mod_right(C::g_log(self.group_key), C::f_val(offset), C::order());
        }
        let group_key = C::g_add(self.group_key, C::g_mul(C::generator(), offset));
        let verification_shares = self.verification_shares.clone();
        assert(verification_shares@ == self.shares());
        assert(forall|l: u16| #[trigger]
            verification_shares@.contains_key(l) ==> C::g_wf(verification_shares@[l]));
        MultisigKeys {
            params: self.params,
            secret_share: self.secret_share,
            group_key,
            verification_shares,
            offset: Some(C::f_add(offset, previous)),
        }
    }

    /// The parameters.
    #[verifier::when_used_as_spec(spec_params)]
    pub fn params(&self) -> (r: MultisigParams)
        ensures
            r == self.spec_params(),
    {
        self.params
    }

    /// This participant's share of the secret.
    #[verifier::when_used_as_spec(spec_secret_share)]
    pub fn secret_share(&self) -> (r: C::F)
        ensures
            r == self.spec_secret_share(),
    {
        self.secret_share
    }

    /// The group's key, with the offset applied.
    #[verifier::when_used_as_spec(spec_group_key)]
    pub fn group_key(&self) -> (r: C::G)
        ensures
            r == self.spec_group_key(),
    {
        self.group_key
    }

    /// The participants' verification shares.
    pub fn verification_shares(&self) -> (r: HashMap<u16, C::G>)
        ensures
            r@ == self.shares(),
    {
        self.verification_shares.clone()
    }

    /// Whether `view` is the view of these keys for a signing set.
    pub open spec fn is_view(&self, included: Seq<u16>, view: MultisigView<C>) -> bool {
        &&& view.wf()
        &&& view.spec_group_key() == self.spec_group_key()
        &&& view.spec_included() == included
        &&& C::f_val(view.spec_secret_share()) == self.view_secret_spec(included)
        &&& forall|l: u16| #[trigger]
            view.shares().contains_key(l) <==> 1 <= l <= self.spec_params().n()
        &&& forall|l: u16|
            1 <= l <= self.spec_params().n() ==> C::g_log(#[trigger] view.shares()[l])
                == self.view_share_spec(l, included)
    }

    /// The keys as a signing set sees them. The set must have at least `t` and at most `n`
    /// members; the view holds it in ascending order, in whatever order it is given.
    ///
    /// The secret share is weighted by this participant's Lagrange coefficient for the
    /// set, and every verification share by its own. The offset is divided evenly among
    /// the set's members: each share takes one part of it.
    pub fn view(&self, included: &[u16]) -> (r: Result<MultisigView<C>, FrostError>)
        ensures
            match r {
                Ok(view) => {
                    &&& self.spec_params().t() <= included@.len() <= self.spec_params().n()
                    &&& self.is_view(sorted_indices(included@), view)
                },
                Err(FrostError::InvalidSigningSet(why)) => {
                    &&& (included@.len() < self.spec_params().t() || self.spec_params().n()
                        < included@.len())
                    &&& why@ == "invalid amount of participants included"@
                },
                Err(_) => false,
            },
    {
        proof {
            use_type_invariant(self);
        }
        if (included.len() < self.params.t as usize) || ((self.params.n as usize) < included.len()) {
            return Err(
                FrostError::InvalidSigningSet("invalid amount of participants included".to_owned()),
            );
        }
        let ghost q = C::order();
        proof {
            use_type_invariant(self);
            C::lemma_order();
        }
        // The view holds the set in ascending order
        let sorted = sort_indices(included);
        let set = sorted.as_slice();
        let secret_share = C::f_mul(self.secret_share, lagrange::<C>(self.params.i, set));
        let offset = match self.offset {
            Some(o) => o,
            None => f_zero::<C>(),
        };
        let len = C::f_from_u64(set.len() as u64);
        proof {
            lemma_reduced(set@.len() as int, q);
        }
        let offset_share = match C::f_invert(len) {
            Some(inverse) => {
                proof {
                    C::lemma_scalar(inverse);
                    lemma_inv_mod(C::f_val(len), C::f_val(inverse), q);
                }
                C::f_mul(offset, inverse)
            },
            None => vstd::pervasive::unreached(),
        };
        assert(C::f_val(offset_share) == offset_share_spec(q, self.offset_val(), set@.len() as int));
        let offset_point = C::g_mul(C::generator(), offset_share);
        proof {
            C::lemma_scalar(offset_share);
            lemma_reduced(C::f_val(offset_share), q);
            assert(1 * C::f_val(offset_share) == C::f_val(offset_share)) by (nonlinear_arith);
        }

        let mut verification_shares: HashMap<u16, C::G> = HashMap::new();
        let mut l: u32 = 1;
        while l <= self.params.n as u32
            invariant
                1 <= l <= self.params.n + 1,
                self.wf(),
                q == C::order(),
                q > 0x10000,
                C::g_wf(offset_point),
                C::g_log(offset_point) == C::f_val(offset_share),
                C::f_val(offset_share) == offset_share_spec(
                    q,
                    self.offset_val(),
                    set@.len() as int,
                ),
                forall|k: u16| #[trigger] verification_shares@.contains_key(k) <==> 1 <= k < l,
                forall|k: u16|
                    1 <= k < l ==> C::g_wf(#[trigger] verification_shares@[k]) && C::g_log(
                        verification_shares@[k],
                    ) == self.view_share_spec(k, set@),
            decreases self.params.n + 1 - l,
        {
            let index = l as u16;
            assert(self.shares().contains_key(index));
            let share = match self.verification_shares.get(&index) {
                Some(share) => *share,
                None => vstd::pervasive::unreached(),
            };
            let weighted = C::g_mul(share, lagrange::<C>(index, set));
            proof {
                lemma_add_mod_left(
                    C::g_log(share) * lagrange_spec(q, index, set@),
                    C::f_val(offset_share),
                    q,
                );
            }
            verification_shares.insert(index, C::g_add(weighted, offset_point));
            l += 1;
        }
        proof {
            lemma_add_mod_left(
                C::f_val(self.secret_share) * lagrange_spec(q, self.params.i, set@),
                C::f_val(offset_share),
                q,
            );
        }
        Ok(
            MultisigView {
                group_key: self.group_key,
                secret_share: C::f_add(secret_share, offset_share),
                verification_shares,
                included: sorted,
            },
        )
    }
}

/// What serialized keys begin with: the length of the curve's id, as eight bytes, and the
/// id.
pub open spec fn curve_header<C: Curve>() -> Seq<u8> {
    be64_spec(C::id_spec().len() as int) + C::id_spec()
}

/// The 16-bit number that two bytes of `s` write, most significant first.
pub open spec fn u16_at(s: Seq<u8>, at: int) -> u16 {
    (s[at] as int * 256 + s[at + 1] as int) as u16
}

/// The length of the header of serialized keys.
pub open spec fn header_len<C: Curve>() -> int {
    8 + C::id_spec().len() as int
}

/// Where the secret share starts in serialized keys.
pub open spec fn secret_at<C: Curve>() -> int {
    header_len::<C>() + 6
}

/// Where the verification share of `l` starts in serialized keys.
pub open spec fn share_at<C: Curve>(l: int) -> int {
    secret_at::<C>() + C::f_len_spec() + C::g_len_spec() + (l - 1) * C::g_len_spec()
}

/// The threshold that serialized keys state.
pub open spec fn encoded_t<C: Curve>(s: Seq<u8>) -> u16 {
    u16_at(s, header_len::<C>())
}

/// The number of participants that serialized keys state.
pub open spec fn encoded_n<C: Curve>(s: Seq<u8>) -> u16 {
    u16_at(s, header_len::<C>() + 2)
}

/// The participant that serialized keys state.
pub open spec fn encoded_i<C: Curve>(s: Seq<u8>) -> u16 {
    u16_at(s, header_len::<C>() + 4)
}

/// The bytes of the secret share in serialized keys.
pub open spec fn encoded_secret<C: Curve>(s: Seq<u8>) -> Seq<u8> {
    s.subrange(secret_at::<C>(), secret_at::<C>() + C::f_len_spec())
}

/// The bytes of the group key in serialized keys.
pub open spec fn encoded_group_key<C: Curve>(s: Seq<u8>) -> Seq<u8> {
    s.subrange(secret_at::<C>() + C::f_len_spec(), share_at::<C>(1))
}

/// The bytes of the verification share of `l` in serialized keys.
pub open spec fn encoded_share<C: Curve>(s: Seq<u8>, l: int) -> Seq<u8> {
    s.subrange(share_at::<C>(l), share_at::<C>(l + 1))
}

/// The length of the serialization of keys for `n` participants.
pub open spec fn serialized_len_spec<C: Curve>(n: u16) -> int {
    share_at::<C>(n + 1)
}

/// Why a byte string is not the serialization of keys, where it is not. The conditions
/// are tested in this order: the header fits, the header is that of the curve, the length
/// is that for the number of participants stated, the secret share decodes, the group key
/// decodes, every verification share decodes, and the parameters are valid.
pub open spec fn deserialize_failure<C: Curve>(s: Seq<u8>) -> Option<Seq<char>> {
    let cursor = header_len::<C>();
    if s.len() < cursor + 4 {
        Some("MultisigKeys serialization is missing its curve/participant quantities"@)
    } else if s.subrange(0, cursor) != curve_header::<C>() {
        Some("curve is distinct between serialization and deserialization"@)
    } else if s.len() != serialized_len_spec::<C>(encoded_n::<C>(s)) {
        Some("incorrect serialization length"@)
    } else if !C::scalar_encoding(encoded_secret::<C>(s)) {
        Some("invalid secret share"@)
    } else if !C::point_encoding(encoded_group_key::<C>(s)) {
        Some("invalid group key"@)
    } else if exists|l: int|
        1 <= l <= encoded_n::<C>(s) && !C::point_encoding(#[trigger] encoded_share::<C>(s, l)) {
        Some("invalid verification share"@)
    } else if !(1 <= encoded_t::<C>(s) <= encoded_n::<C>(s) && 1 <= encoded_i::<C>(s)
        <= encoded_n::<C>(s)) {
        Some("invalid parameters"@)
    } else {
        None
    }
}

impl<C: Curve> MultisigKeys<C> {
    /// The encodings of the verification shares of the participants from 1 to `upto`.
    pub open spec fn shares_serialized(&self, upto: nat) -> Seq<u8>
        decreases upto,
    {
        if upto == 0 {
            Seq::<u8>::empty()
        } else {
            self.shares_serialized((upto - 1) as nat) + C::g_repr(self.shares()[upto as u16])
        }
    }

    /// The serialization of the keys: the curve's header, `t`, `n` and `i` as two bytes
    /// each, the secret share, the group key, and the verification shares from 1 to `n`.
    /// The offset is not part of it.
    pub open spec fn serialized(&self) -> Seq<u8> {
        curve_header::<C>() + be16_spec(self.spec_params().t()) + be16_spec(
            self.spec_params().n(),
        ) + be16_spec(self.spec_params().i()) + C::f_repr(self.spec_secret_share()) + C::g_repr(
            self.spec_group_key(),
        ) + self.shares_serialized(self.spec_params().n() as nat)
    }

    /// Whether the keys are what a serialization states: the parameters, the secret share
    /// and every point have the encodings found there, and there is no offset.
    pub open spec fn encoded_in(&self, s: Seq<u8>) -> bool {
        &&& self.spec_params().t() == encoded_t::<C>(s)
        &&& self.spec_params().n() == encoded_n::<C>(s)
        &&& self.spec_params().i() == encoded_i::<C>(s)
        &&& C::f_repr(self.spec_secret_share()) == encoded_secret::<C>(s)
        &&& C::g_repr(self.spec_group_key()) == encoded_group_key::<C>(s)
        &&& forall|l: u16|
            1 <= l <= self.spec_params().n() ==> C::g_repr(#[trigger] self.shares()[l])
                == encoded_share::<C>(s, l as int)
        &&& self.spec_offset() is None
    }

    /// The length of the serialization of keys for `n` participants.
    pub fn serialized_len(n: u16) -> (r: usize)
        ensures
            r == serialized_len_spec::<C>(n),
    {
        proof {
            C::lemma_lengths();
            assert(n as int * C::g_len_spec() <= 65535 * 255) by (nonlinear_arith)
                requires
                    0 <= n <= 65535,
                    0 <= C::g_len_spec() <= 255,
            ;
            assert(n as int * C::g_len_spec() >= 0) by (nonlinear_arith)
                requires
                    0 <= n,
                    0 <= C::g_len_spec(),
            ;
        }
        let id = C::id();
        8 + id.len() + (3 * 2) + C::F_len() + C::G_len() + ((n as usize) * C::G_len())
    }

    /// Serializes the keys, for this participant to keep. The offset is left out.
    pub fn serialize(&self) -> (serialized: Vec<u8>)
        ensures
            serialized@ == self.serialized(),
    {
        proof {
            use_type_invariant(self);
        }
        let id = C::id();
        let mut serialized: Vec<u8> = Vec::new();
        append(&mut serialized, &be64(id.len() as u64));
        append(&mut serialized, id.as_slice());
        append(&mut serialized, &be16(self.params.t));
        append(&mut serialized, &be16(self.params.n));
        append(&mut serialized, &be16(self.params.i));
        append(&mut serialized, C::F_to_bytes(&self.secret_share).as_slice());
        append(&mut serialized, C::G_to_bytes(&self.group_key).as_slice());
        let ghost prefix = serialized@;
        let mut l: u32 = 1;
        while l <= self.params.n as u32
            invariant
                1 <= l <= self.params.n + 1,
                self.wf(),
                serialized@ == prefix + self.shares_serialized((l - 1) as nat),
            decreases self.params.n + 1 - l,
        {
            let index = l as u16;
            assert(self.shares().contains_key(index));
            let share = match self.verification_shares.get(&index) {
                Some(share) => *share,
                None => vstd::pervasive::unreached(),
            };
            append(&mut serialized, C::G_to_bytes(&share).as_slice());
            assert(serialized@ =~= prefix + self.shares_serialized(l as nat));
            l += 1;
        }
        serialized
    }
}

/// Each verification share starts where the one before it ends, and none ends after the
/// last.
pub proof fn lemma_share_at<C: Curve>(l: int, n: int)
    requires
        1 <= l <= n,
    ensures
        share_at::<C>(l + 1) == share_at::<C>(l) + C::g_len_spec(),
        share_at::<C>(l + 1) <= share_at::<C>(n + 1),
        share_at::<C>(1) == secret_at::<C>() + C::f_len_spec() + C::g_len_spec(),
{
    let g = C::g_len_spec() as int;
    assert((l + 1 - 1) * g == (l - 1) * g + g) by (nonlinear_arith);
    assert((l + 1 - 1) * g <= (n + 1 - 1) * g) by (nonlinear_arith)
        requires
            l <= n,
            g >= 0,
    ;
    assert((1 - 1) * g == 0) by (nonlinear_arith);
}

impl<C: Curve> MultisigKeys<C> {
    /// Reads keys back from their serialization, which must be that of this curve, of
    /// exactly the length that its number of participants asks for, and hold canonical
    /// encodings and valid parameters. The keys read have no offset.
    pub fn deserialize(serialized: &[u8]) -> (r: Result<MultisigKeys<C>, FrostError>)
        ensures
            match r {
                Ok(keys) => deserialize_failure::<C>(serialized@) is None && keys.wf()
                    && keys.encoded_in(serialized@),
                Err(FrostError::InternalError(why)) => deserialize_failure::<C>(serialized@)
                    == Some(why@),
                Err(_) => false,
            },
    {
        let ghost s = serialized@;
        proof {
            C::lemma_lengths();
        }
        let id = C::id();
        let mut start: Vec<u8> = Vec::new();
        append(&mut start, &be64(id.len() as u64));
        append(&mut start, id.as_slice());
        let mut cursor = start.len();

        if serialized.len() < (cursor + 4) {
            return Err(
                FrostError::InternalError(
                    "MultisigKeys serialization is missing its curve/participant quantities".to_owned(),
                ),
            );
        }
        if !bytes_eq(start.as_slice(), slice_subrange(serialized, 0, cursor)) {
            return Err(
                FrostError::InternalError(
                    "curve is distinct between serialization and deserialization".to_owned(),
                ),
            );
        }
        let t = read_be16(serialized[cursor], serialized[cursor + 1]);
        cursor += 2;

        let n = read_be16(serialized[cursor], serialized[cursor + 1]);
        cursor += 2;
        if serialized.len() != Self::serialized_len(n) {
            return Err(FrostError::InternalError("incorrect serialization length".to_owned()));
        }
        proof {
            lemma_share_at::<C>(1, n as int + 1);
            assert(n as int * C::g_len_spec() >= 0) by (nonlinear_arith)
                requires
                    0 <= n,
                    0 <= C::g_len_spec(),
            ;
        }
        let i = read_be16(serialized[cursor], serialized[cursor + 1]);
        cursor += 2;

        let secret_share = match C::F_from_slice(
            slice_subrange(serialized, cursor, cursor + C::F_len()),
        ) {
            Ok(secret_share) => secret_share,
            Err(_) => {
                return Err(FrostError::InternalError("invalid secret share".to_owned()));
            },
        };
        cursor += C::F_len();
        let group_key = match C::G_from_slice(
            slice_subrange(serialized, cursor, cursor + C::G_len()),
        ) {
            Ok(group_key) => group_key,
            Err(_) => {
                return Err(FrostError::InternalError("invalid group key".to_owned()));
            },
        };
        cursor += C::G_len();

        let ghost bad_share = exists|k: int|
            1 <= k <= n && !C::point_encoding(#[trigger] encoded_share::<C>(s, k));
        let ghost good_params = 1 <= t <= n && 1 <= i <= n;
        assert(deserialize_failure::<C>(s) == if bad_share {
            Some("invalid verification share"@)
        } else if !good_params {
            Some("invalid parameters"@)
        } else {
            None::<Seq<char>>
        });

        let mut verification_shares: HashMap<u16, C::G> = HashMap::new();
        let mut l: u32 = 1;
        while l <= n as u32
            invariant
                1 <= l <= n + 1,
                s == serialized@,
                s.len() <= usize::MAX,
                s.len() == share_at::<C>(n + 1),
                bad_share == (exists|k: int|
                    1 <= k <= n && !C::point_encoding(#[trigger] encoded_share::<C>(s, k))),
                bad_share ==> deserialize_failure::<C>(s) == Some("invalid verification share"@),
                cursor == share_at::<C>(l as int),
                cursor <= s.len(),
                0 < C::g_len_spec() <= 255,
                forall|k: u16| #[trigger] verification_shares@.contains_key(k) <==> 1 <= k < l,
                forall|k: u16|
                    1 <= k < l ==> C::g_wf(#[trigger] verification_shares@[k]) && C::g_repr(
                        verification_shares@[k],
                    ) == encoded_share::<C>(s, k as int),
                forall|k: int| 1 <= k < l ==> C::point_encoding(#[trigger] encoded_share::<C>(s, k)),
            decreases n + 1 - l,
        {
            proof {
                lemma_share_at::<C>(l as int, n as int);
            }
            let share = match C::G_from_slice(
                slice_subrange(serialized, cursor, cursor + C::G_len()),
            ) {
                Ok(share) => share,
                Err(_) => {
                    assert(!C::point_encoding(encoded_share::<C>(s, l as int)));
                    return Err(FrostError::InternalError("invalid verification share".to_owned()));
                },
            };
            verification_shares.insert(l as u16, share);
            cursor += C::G_len();
            l += 1;
        }

        match MultisigParams::new(t, n, i) {
            Ok(params) => {
                let keys = MultisigKeys {
                    params,
                    secret_share,
                    group_key,
                    verification_shares,
                    offset: None,
                };
                assert(keys.shares() == verification_shares@);
                Ok(keys)
            },
            Err(_) => Err(FrostError::InternalError("invalid parameters".to_owned())),
        }
    }
}

} // verus!
