//! Threshold signing: one signature, two rounds. Each participant of the signing set
//! publishes commitments to two nonces, then its share of the signature; anyone who holds
//! all the shares adds them up.

use crate::algorithm::Algorithm;
use crate::bytes::{append, be16, be16_spec, copy_range};
use crate::curve::{
    encoded_log, encoded_val, f_zero, lemma_point_of, lemma_scalar_of, lemma_scalar_with,
    point_of, scalar_of, scalar_with, Curve,
};
use crate::key_gen::{bytes_of, encodes_point, encodes_scalar, lemma_first_missing_same_keys};
use crate::modmath::{lemma_add_mod_left, lemma_add_mod_right, lemma_reduced};
use crate::{
    lemma_first_missing, map_failure, validate_map, FrostError, MultisigKeys, MultisigParams,
    MultisigView,
};
use std::collections::HashMap;
use std::sync::Arc;
use vstd::prelude::*;
use vstd::relations::{sorted_by, total_ordering};
use vstd::seq_lib::{
    lemma_sorted_unique, to_multiset_build, to_multiset_contains, to_multiset_insert,
    to_multiset_len,
};
use vstd::slice::slice_subrange;

verus! {

/// The order of the participants' indices.
pub open spec fn index_order() -> spec_fn(u16, u16) -> bool {
    |a: u16, b: u16| a <= b
}

/// The indices of a signing set in ascending order.
pub open spec fn sorted_indices(included: Seq<u16>) -> Seq<u16> {
    included.sort_by(index_order())
}

/// The indices of a signing set in ascending order.
pub fn sort_indices(included: &[u16]) -> (sorted: Vec<u16>)
    ensures
        sorted@ == sorted_indices(included@),
        sorted@.len() == included@.len(),
{
    let mut sorted: Vec<u16> = Vec::new();
    let mut k: usize = 0;
    assert(included@.take(0) =~= Seq::<u16>::empty());
    while k < included.len()
        invariant
            k <= included@.len(),
            sorted@.len() == k,
            sorted_by(sorted@, index_order()),
            sorted@.to_multiset() == included@.take(k as int).to_multiset(),
        decreases included@.len() - k,
    {
        let x = included[k];
        let mut at: usize = 0;
        while at < sorted.len() && sorted[at] <= x
            invariant
                at <= sorted@.len(),
                forall|j: int| 0 <= j < at ==> sorted@[j] <= x,
            decreases sorted@.len() - at,
        {
            at += 1;
        }
        let ghost before = sorted@;
        sorted.insert(at, x);
        proof {
            to_multiset_insert(before, at as int, x);
            assert(included@.take(k + 1) =~= included@.take(k as int).push(x));
            to_multiset_build(included@.take(k as int), x);
            assert forall|a: int, b: int| 0 <= a < b < sorted@.len() implies #[trigger] index_order()(
                sorted@[a],
                sorted@[b],
            ) by {
                if b < at {
                    assert(index_order()(before[a], before[b]));
                } else if b == at {
                } else if a < at {
                    assert(index_order()(before[a], before[b - 1]));
                } else if a == at {
                    if at < b - 1 {
                        assert(index_order()(before[at as int], before[b - 1]));
                    }
                } else {
                    assert(index_order()(before[a - 1], before[b - 1]));
                }
            }
        }
        k += 1;
    }
    proof {
        assert(included@.take(k as int) =~= included@);
        assert(total_ordering(index_order()));
        included@.lemma_sort_by_ensures(index_order());
        lemma_sorted_unique(sorted@, sorted_indices(included@), index_order());
    }
    sorted
}

/// Whether a signing set is refused for the keys with the given parameters, and how.
///
/// The set is sorted, then tested in this order: it has at least `t` members; its least
/// index is not 0; its greatest index is not above `n`; no index occurs twice (the least
/// such index is named); and this participant is in it.
pub open spec fn signing_set_outcome(
    params: MultisigParams,
    included: Seq<u16>,
    e: Option<FrostError>,
) -> bool {
    let sorted = sorted_indices(included);
    if included.len() < params.t() {
        e matches Some(FrostError::InvalidSigningSet(why)) && why@ == "not enough signers"@
    } else if sorted[0] == 0 {
        e == Some(FrostError::InvalidParticipantIndex(params.n(), 0))
    } else if sorted.last() > params.n() {
        e == Some(FrostError::InvalidParticipantIndex(params.n(), sorted.last()))
    } else if exists|k: int| 0 <= k < sorted.len() - 1 && sorted[k] == #[trigger] sorted[k + 1] {
        exists|k: int|
            0 <= k < sorted.len() - 1 && sorted[k] == #[trigger] sorted[k + 1] && e == Some(
                FrostError::DuplicatedIndex(sorted[k] as usize),
            ) && forall|j: int| 0 <= j < k ==> sorted[j] != #[trigger] sorted[j + 1]
    } else if !sorted.contains(params.i()) {
        e matches Some(FrostError::InvalidSigningSet(why)) && why@
            == "signing despite not being included"@
    } else {
        e is None
    }
}

/// Whether a signing set is valid for the parameters: in ascending order without
/// repetition, of indices from 1 to `n`, at least `t` of them, this participant's among
/// them.
pub open spec fn signing_set(params: MultisigParams, included: Seq<u16>) -> bool {
    &&& params.t() <= included.len()
    &&& forall|j: int, k: int| 0 <= j < k < included.len() ==> included[j] < included[k]
    &&& forall|k: int| 0 <= k < included.len() ==> 1 <= #[trigger] included[k] <= params.n()
    &&& included.contains(params.i())
}

/// The order in which a signing set is given does not matter: two sequences with the same
/// members are the same once sorted.
pub proof fn lemma_order_irrelevant(first: Seq<u16>, second: Seq<u16>)
    requires
        first.to_multiset() == second.to_multiset(),
    ensures
        sorted_indices(first) == sorted_indices(second),
{
    assert(total_ordering(index_order()));
    first.lemma_sort_by_ensures(index_order());
    second.lemma_sort_by_ensures(index_order());
    lemma_sorted_unique(sorted_indices(first), sorted_indices(second), index_order());
}

/// A set of distinct indices from 1 to `n`, with at least `t` members and this participant
/// among them, is a signing set once sorted, in whatever order it is given.
pub proof fn lemma_sorted_signing_set(params: MultisigParams, given: Seq<u16>)
    requires
        params.t() <= given.len(),
        given.no_duplicates(),
        forall|k: int| 0 <= k < given.len() ==> 1 <= #[trigger] given[k] <= params.n(),
        given.contains(params.i()),
    ensures
        signing_set(params, sorted_indices(given)),
        sorted_indices(given).len() == given.len(),
{
    let sorted = sorted_indices(given);
    assert(total_ordering(index_order()));
    given.lemma_sort_by_ensures(index_order());
    to_multiset_len(given);
    to_multiset_len(sorted);
    assert forall|k: int| 0 <= k < sorted.len() implies 1 <= #[trigger] sorted[k]
        <= params.n() by {
        assert(sorted.contains(sorted[k]));
        assert(given.contains(sorted[k]));
    }
    to_multiset_contains(given, params.i());
    to_multiset_contains(sorted, params.i());
    given.lemma_multiset_has_no_duplicates();
    sorted.lemma_multiset_has_no_duplicates_conv();
    assert forall|j: int, k: int| 0 <= j < k < sorted.len() implies sorted[j] < sorted[k] by {
        assert(index_order()(sorted[j], sorted[k]));
        assert(sorted[j] != sorted[k]);
    }
}

/// A set of ascending indices from 1 to `n` has at most `n` members.
pub proof fn lemma_signing_set_len(included: Seq<u16>, n: u16)
    requires
        forall|j: int, k: int| 0 <= j < k < included.len() ==> included[j] < included[k],
        forall|k: int| 0 <= k < included.len() ==> 1 <= #[trigger] included[k] <= n,
    ensures
        included.len() <= n,
    decreases included.len(),
{
    if included.len() > 0 {
        let front = included.drop_last();
        let last = included[included.len() - 1];
        assert(1 <= last <= n);
        if front.len() > 0 {
            assert(included[0] < last);
            assert(1 <= included[0]);
            assert forall|k: int| 0 <= k < front.len() implies 1 <= #[trigger] front[k] <= (n
                - 1) as u16 by {
                assert(included[k] < included[included.len() - 1]);
                assert(1 <= included[k]);
            }
            assert forall|j: int, k: int| 0 <= j < k < front.len() implies front[j] < front[k] by {
                assert(included[j] < included[k]);
            }
            lemma_signing_set_len(front, (n - 1) as u16);
        }
    }
}

/// What a signing machine works with: the algorithm, the keys, and the view of the keys
/// for the signing set.
pub struct Params<C: Curve, A: Algorithm<C>> {
    algorithm: A,
    keys: Arc<MultisigKeys<C>>,
    view: MultisigView<C>,
}

impl<C: Curve, A: Algorithm<C>> Params<C, A> {
    /// The algorithm, in its current state.
    pub closed spec fn spec_algorithm(&self) -> A {
        self.algorithm
    }

    /// The keys.
    pub closed spec fn spec_keys(&self) -> MultisigKeys<C> {
        *self.keys
    }

    /// The view of the keys for the signing set.
    pub closed spec fn spec_view(&self) -> MultisigView<C> {
        self.view
    }

    /// The algorithm's state is well formed, the signing set is valid, and the view is that
    /// of the keys for it.
    #[verifier::type_invariant]
    pub open spec fn wf(&self) -> bool {
        &&& self.spec_algorithm().wf()
        &&& self.spec_keys().wf()
        &&& signing_set(self.spec_keys().spec_params(), self.spec_view().spec_included())
        &&& self.spec_keys().is_view(self.spec_view().spec_included(), self.spec_view())
    }

    /// Checks a signing set and makes the view of the keys for it.
    pub fn new(algorithm: A, keys: Arc<MultisigKeys<C>>, included: &[u16]) -> (r: Result<
        Params<C, A>,
        FrostError,
    >)
        requires
            algorithm.wf(),
        ensures
            signing_set_outcome(
                keys.spec_params(),
                included@,
                match r {
                    Ok(_) => None,
                    Err(e) => Some(e),
                },
            ),
            r matches Ok(params) ==> params.spec_algorithm() == algorithm && params.spec_keys()
                == *keys && params.spec_view().spec_included() == sorted_indices(included@),
    {
        proof {
            use_type_invariant(&*keys);
        }
        let multisig_params = keys.params();
        proof {
            use_type_invariant(&multisig_params);
        }
        let sorted = sort_indices(included);
        let ghost order = sorted@;
        proof {
            assert(total_ordering(index_order()));
            included@.lemma_sort_by_ensures(index_order());
        }
        // Included < threshold
        if sorted.len() < multisig_params.t() as usize {
            return Err(FrostError::InvalidSigningSet("not enough signers".to_owned()));
        }
        // Invalid index
        if sorted[0] == 0 {
            return Err(FrostError::InvalidParticipantIndex(multisig_params.n(), sorted[0]));
        }
        // OOB index
        if sorted[sorted.len() - 1] > multisig_params.n() {
            return Err(
                FrostError::InvalidParticipantIndex(multisig_params.n(), sorted[sorted.len() - 1]),
            );
        }
        // Same signer included multiple times
        let mut k: usize = 0;
        while k < sorted.len() - 1
            invariant
                k <= sorted@.len() - 1,
                sorted@.len() >= 1,
                order == sorted@,
                order == sorted_indices(included@),
                multisig_params == keys.spec_params(),
                included@.len() >= multisig_params.t(),
                order[0] != 0,
                order.last() <= multisig_params.n(),
                forall|j: int| 0 <= j < k ==> order[j] != #[trigger] order[j + 1],
            decreases sorted@.len() - k,
        {
            if sorted[k] == sorted[k + 1] {
                return Err(FrostError::DuplicatedIndex(sorted[k] as usize));
            }
            k += 1;
        }
        // Not included
        let mut found = false;
        let mut k: usize = 0;
        while k < sorted.len()
            invariant
                k <= sorted@.len(),
                order == sorted@,
                found <==> exists|j: int| 0 <= j < k && order[j] == multisig_params.i(),
            decreases sorted@.len() - k,
        {
            if sorted[k] == multisig_params.i() {
                found = true;
            }
            k += 1;
        }
        if !found {
            assert(!order.contains(multisig_params.i()));
            return Err(
                FrostError::InvalidSigningSet("signing despite not being included".to_owned()),
            );
        }
        proof {
            let j = choose|j: int| 0 <= j < order.len() && order[j] == multisig_params.i();
            assert(order.contains(multisig_params.i()));
            assert forall|a: int, b: int| 0 <= a < b < order.len() implies order[a] < order[b] by {
                lemma_ascending(order, a, b);
            }
            assert forall|a: int| 0 <= a < order.len() implies 1 <= #[trigger] order[a]
                <= multisig_params.n() by {
                if 0 < a {
                    assert(index_order()(order[0], order[a]));
                }
                if a < order.len() - 1 {
                    assert(index_order()(order[a], order[order.len() - 1]));
                }
            }
            lemma_signing_set_len(order, multisig_params.n());
        }
        let view = match keys.view(included) {
            Ok(view) => view,
            Err(e) => {
                return Err(e);
            },
        };
        Ok(Params { algorithm, keys, view })
    }

    /// The parameters of the keys.
    pub fn multisig_params(&self) -> (r: MultisigParams)
        ensures
            r == self.spec_keys().spec_params(),
    {
        self.keys.params()
    }

    /// The view of the keys for the signing set.
    pub fn view(&self) -> (r: &MultisigView<C>)
        ensures
            *r == self.spec_view(),
    {
        &self.view
    }
}

/// A sorted sequence without equal neighbours is strictly ascending.
pub proof fn lemma_ascending(order: Seq<u16>, a: int, b: int)
    requires
        sorted_by(order, index_order()),
        forall|j: int| 0 <= j < order.len() - 1 ==> order[j] != #[trigger] order[j + 1],
        0 <= a < b < order.len(),
    ensures
        order[a] < order[b],
{
    assert(index_order()(order[a], order[a + 1]));
    assert(order[a] != order[a + 1]);
    if a + 1 < b {
        assert(index_order()(order[a + 1], order[b]));
    }
}

/// The two nonces of a preprocess, and what was published for them.
pub struct PreprocessPackage<C: Curve> {
    pub nonces: (C::F, C::F),
    pub serialized: Vec<u8>,
}

impl<C: Curve> PreprocessPackage<C> {
    /// The package of two nonces and of what the algorithm adds: the commitments `d·G` and
    /// `e·G` to the nonces, then the addendum.
    pub fn of(nonces: (C::F, C::F), addendum: &[u8]) -> (package: PreprocessPackage<C>)
        requires
            C::f_wf(nonces.0),
            C::f_wf(nonces.1),
        ensures
            package.nonces == nonces,
            package.serialized@.len() == 2 * C::g_len_spec() + addendum@.len(),
            encodes_point::<C>(preprocess_d::<C>(package.serialized@)),
            encoded_log::<C>(preprocess_d::<C>(package.serialized@)) == C::f_val(nonces.0),
            encodes_point::<C>(preprocess_e::<C>(package.serialized@)),
            encoded_log::<C>(preprocess_e::<C>(package.serialized@)) == C::f_val(nonces.1),
            preprocess_addendum::<C>(package.serialized@) == addendum@,
    {
        proof {
            C::lemma_order();
            C::lemma_lengths();
        }
        let generator = C::generator();
        let d = C::g_mul(generator, nonces.0);
        let e = C::g_mul(generator, nonces.1);
        let mut serialized = C::G_to_bytes(&d);
        append(&mut serialized, C::G_to_bytes(&e).as_slice());
        append(&mut serialized, addendum);
        proof {
            C::lemma_scalar(nonces.0);
            C::lemma_scalar(nonces.1);
            lemma_reduced(C::f_val(nonces.0), C::order());
            lemma_reduced(C::f_val(nonces.1), C::order());
            assert(1 * C::f_val(nonces.0) == C::f_val(nonces.0)) by (nonlinear_arith);
            assert(1 * C::f_val(nonces.1) == C::f_val(nonces.1)) by (nonlinear_arith);
            C::lemma_point(d);
            C::lemma_point(e);
            lemma_point_of::<C>(d);
            lemma_point_of::<C>(e);
            assert(preprocess_d::<C>(serialized@) =~= C::g_repr(d));
            assert(preprocess_e::<C>(serialized@) =~= C::g_repr(e));
            assert(preprocess_addendum::<C>(serialized@) =~= addendum@);
        }
        PreprocessPackage { nonces, serialized }
    }
}

/// The commitment to the first nonce in a preprocess.
pub open spec fn preprocess_d<C: Curve>(msg: Seq<u8>) -> Seq<u8> {
    msg.subrange(0, C::g_len_spec() as int)
}

/// The commitment to the second nonce in a preprocess.
pub open spec fn preprocess_e<C: Curve>(msg: Seq<u8>) -> Seq<u8> {
    msg.subrange(C::g_len_spec() as int, 2 * C::g_len_spec() as int)
}

/// What the algorithm added to a preprocess.
pub open spec fn preprocess_addendum<C: Curve>(msg: Seq<u8>) -> Seq<u8> {
    msg.subrange(2 * C::g_len_spec() as int, msg.len() as int)
}

/// Whether a preprocess parses: it has the length of two points and of the algorithm's
/// addendum, and its points are canonical encodings of points other than the identity.
pub open spec fn preprocess_parses<C: Curve, A: Algorithm<C>>(msg: Seq<u8>) -> bool {
    &&& msg.len() == 2 * C::g_len_spec() + A::addendum_len_spec()
    &&& C::point_encoding(preprocess_d::<C>(msg))
    &&& C::point_encoding(preprocess_e::<C>(msg))
}

/// Whether a nonce is one that `random_nonce` makes for a secret: made of the secret and
/// of some seed of 32 bytes.
pub open spec fn nonce_drawn<C: Curve>(secret: C::F, nonce: C::F) -> bool {
    exists|seed: Seq<u8>| seed.len() == 32 && C::f_val(nonce) == C::nonce_spec(secret, seed)
}

/// Whether a preprocess is that of the given nonces: the encodings of their multiples of
/// the generator, then an addendum of the algorithm's length.
pub open spec fn preprocess_of<C: Curve, A: Algorithm<C>>(nonces: (C::F, C::F), msg: Seq<u8>) -> bool {
    &&& msg.len() == 2 * C::g_len_spec() + A::addendum_len_spec()
    &&& encodes_point::<C>(preprocess_d::<C>(msg))
    &&& encoded_log::<C>(preprocess_d::<C>(msg)) == C::f_val(nonces.0)
    &&& encodes_point::<C>(preprocess_e::<C>(msg))
    &&& encoded_log::<C>(preprocess_e::<C>(msg)) == C::f_val(nonces.1)
}

/// The first participant of the signing set, from the place `from` on, whose preprocess
/// does not parse.
pub open spec fn first_unparsed<C: Curve, A: Algorithm<C>>(
    included: Seq<u16>,
    msgs: Map<u16, Seq<u8>>,
    from: int,
) -> Option<u16>
    decreases included.len() - from,
{
    if from >= included.len() || from < 0 {
        None
    } else if !preprocess_parses::<C, A>(msgs[included[from]]) {
        Some(included[from])
    } else {
        first_unparsed::<C, A>(included, msgs, from + 1)
    }
}

/// Why the preprocesses are refused before the algorithm sees any of them, where they
/// are: there is not one for each participant of the signing set, or one does not parse.
pub open spec fn sign_failure<C: Curve, A: Algorithm<C>>(
    included: Seq<u16>,
    msgs: Map<u16, Seq<u8>>,
) -> Option<FrostError> {
    match map_failure(msgs, included) {
        Some(e) => Some(e),
        None => match first_unparsed::<C, A>(included, msgs, 0) {
            Some(l) => Some(FrostError::InvalidCommitment(l)),
            None => None,
        },
    }
}

/// What the first `k` participants of the signing set add to what the binding factors
/// commit to: for each, its index and its two commitments.
pub open spec fn binding_entries<C: Curve>(included: Seq<u16>, msgs: Map<u16, Seq<u8>>, k: nat) -> Seq<
    u8,
>
    decreases k,
{
    if k == 0 {
        Seq::<u8>::empty()
    } else {
        let l = included[k - 1];
        binding_entries::<C>(included, msgs, (k - 1) as nat) + be16_spec(l) + preprocess_d::<C>(
            msgs[l],
        ) + preprocess_e::<C>(msgs[l])
    }
}

/// What the binding factors commit to: the algorithm's context, and everyone's index and
/// commitments.
pub open spec fn binding_transcript<C: Curve>(
    context: Seq<u8>,
    included: Seq<u16>,
    msgs: Map<u16, Seq<u8>>,
) -> Seq<u8> {
    context + binding_entries::<C>(included, msgs, included.len())
}

/// The binding factor of the participant `l`.
pub open spec fn binding_factor<C: Curve>(l: u16, transcript: Seq<u8>) -> int {
    C::hash_binding_factor_spec(be16_spec(l) + transcript)
}

/// The nonce commitment of the participant `l`, `D + ρ·E`, as a multiple of the
/// generator.
pub open spec fn bound_nonce<C: Curve>(l: u16, transcript: Seq<u8>, msg: Seq<u8>) -> int {
    (encoded_log::<C>(preprocess_d::<C>(msg)) + binding_factor::<C>(l, transcript)
        * encoded_log::<C>(preprocess_e::<C>(msg))) % C::order()
}

/// The sum of the nonce commitments of the first `k` participants of the signing set.
pub open spec fn nonce_sum_spec<C: Curve>(
    included: Seq<u16>,
    msgs: Map<u16, Seq<u8>>,
    transcript: Seq<u8>,
    k: nat,
) -> int
    decreases k,
{
    if k == 0 {
        0
    } else {
        let l = included[k - 1];
        (nonce_sum_spec::<C>(included, msgs, transcript, (k - 1) as nat) + bound_nonce::<C>(
            l,
            transcript,
            msgs[l],
        )) % C::order()
    }
}

/// The algorithm after it has processed the addenda of the first `k` participants of the
/// signing set, or the error that stopped it.
pub open spec fn algorithm_after<C: Curve, A: Algorithm<C>>(
    algorithm: A,
    view: MultisigView<C>,
    msgs: Map<u16, Seq<u8>>,
    transcript: Seq<u8>,
    k: nat,
) -> Result<A, FrostError>
    decreases k,
{
    if k == 0 {
        Ok(algorithm)
    } else {
        match algorithm_after::<C, A>(algorithm, view, msgs, transcript, (k - 1) as nat) {
            Err(e) => Err(e),
            Ok(now) => {
                let l = view.spec_included()[k - 1];
                now.addendum_outcome(
                    &view,
                    l,
                    (
                        point_of::<C>(preprocess_d::<C>(msgs[l])),
                        point_of::<C>(preprocess_e::<C>(msgs[l])),
                    ),
                    scalar_with::<C>(binding_factor::<C>(l, transcript)),
                    preprocess_addendum::<C>(msgs[l]),
                )
            },
        }
    }
}

/// This participant's nonce for the signature: `d + ρ·e`.
pub open spec fn own_nonce<C: Curve>(nonces: (C::F, C::F), i: u16, transcript: Seq<u8>) -> int {
    (C::f_val(nonces.0) + binding_factor::<C>(i, transcript) * C::f_val(nonces.1)) % C::order()
}

/// A machine to sign with an algorithm, before the first round.
pub struct AlgorithmMachine<C: Curve, A: Algorithm<C>> {
    params: Params<C, A>,
}

/// A machine to sign with an algorithm, after the first round: it holds its nonces.
pub struct AlgorithmSignMachine<C: Curve, A: Algorithm<C>> {
    params: Params<C, A>,
    preprocess: PreprocessPackage<C>,
}

/// A machine to sign with an algorithm, after the second round: it holds everyone's
/// nonce commitment, their sum, and its own share.
pub struct AlgorithmSignatureMachine<C: Curve, A: Algorithm<C>> {
    params: Params<C, A>,
    bound: Vec<C::G>,
    nonce_sum: C::G,
    share: Vec<u8>,
}

impl<C: Curve, A: Algorithm<C>> AlgorithmMachine<C, A> {
    /// What the machine works with.
    pub closed spec fn spec_params(&self) -> Params<C, A> {
        self.params
    }

    /// Creates a new machine to generate a signature with the specified keys, for the
    /// specified signing set.
    pub fn new(algorithm: A, keys: Arc<MultisigKeys<C>>, included: &[u16]) -> (r: Result<
        AlgorithmMachine<C, A>,
        FrostError,
    >)
        requires
            algorithm.wf(),
        ensures
            signing_set_outcome(
                keys.spec_params(),
                included@,
                match r {
                    Ok(_) => None,
                    Err(e) => Some(e),
                },
            ),
            r matches Ok(machine) ==> machine.spec_params().spec_algorithm() == algorithm
                && machine.spec_params().spec_keys() == *keys
                && machine.spec_params().spec_view().spec_included() == sorted_indices(included@),
    {
        match Params::new(algorithm, keys, included) {
            Ok(params) => Ok(AlgorithmMachine { params }),
            Err(e) => Err(e),
        }
    }

    /// Round 1: draws two nonces, each made of the view's secret share and of a fresh
    /// seed, and returns what to publish for them: the commitments to the nonces, and the
    /// algorithm's addendum.
    ///
    /// A nonce must not be zero. One that is drawn is zero only where its hash is, and is
    /// not drawn again: its commitment is then the identity, which signing refuses.
    pub fn preprocess(self, rng: &mut rand_core::OsRng) -> (res: (AlgorithmSignMachine<C, A>, Vec<u8>))
        ensures
            res.0.spec_params() == self.spec_params(),
            res.0.preprocess_bytes() == res.1@,
            preprocess_of::<C, A>(res.0.nonces(), res.1@),
            nonce_drawn::<C>(self.spec_params().spec_view().spec_secret_share(), res.0.nonces().0),
            nonce_drawn::<C>(self.spec_params().spec_view().spec_secret_share(), res.0.nonces().1),
    {
        proof {
            use_type_invariant(&self.params);
            use_type_invariant(&self.params.view);
            C::lemma_order();
            C::lemma_lengths();
        }
        let secret = self.params.view.secret_share();
        let nonces = (C::random_nonce(secret, rng), C::random_nonce(secret, rng));
        let addendum = A::preprocess_addendum(rng, &self.params.view, &nonces);
        let preprocess = PreprocessPackage::of(nonces, addendum.as_slice());
        let published = copy_range(
            preprocess.serialized.as_slice(),
            0,
            preprocess.serialized.len(),
        );
        assert(published@ =~= preprocess.serialized@);
        (AlgorithmSignMachine { params: self.params, preprocess }, published)
    }

    /// Round 1 with given nonces in place of fresh ones: for tests against known
    /// signatures. A nonce must never be used for two signatures.
    pub fn unsafe_override_preprocess(self, preprocess: PreprocessPackage<C>) -> (res: (
        AlgorithmSignMachine<C, A>,
        Vec<u8>,
    ))
        requires
            C::f_wf(preprocess.nonces.0),
            C::f_wf(preprocess.nonces.1),
        ensures
            res.0.spec_params() == self.spec_params(),
            res.0.preprocess_bytes() == res.1@,
            res.0.nonces() == preprocess.nonces,
            res.1@ == preprocess.serialized@,
    {
        let published = copy_range(
            preprocess.serialized.as_slice(),
            0,
            preprocess.serialized.len(),
        );
        assert(published@ =~= preprocess.serialized@);
        (AlgorithmSignMachine { params: self.params, preprocess }, published)
    }
}

/// Appending to the entries of the first participants leaves them as they are; the
/// entries of the first `k` depend on the first `k` indices alone.
pub proof fn lemma_binding_entries_step<C: Curve>(
    included: Seq<u16>,
    msgs: Map<u16, Seq<u8>>,
    k: nat,
)
    requires
        k < included.len(),
    ensures
        binding_entries::<C>(included, msgs, k + 1) == binding_entries::<C>(included, msgs, k)
            + be16_spec(included[k as int]) + preprocess_d::<C>(msgs[included[k as int]])
            + preprocess_e::<C>(msgs[included[k as int]]),
{
}

/// Once the algorithm has refused an addendum, it has refused: the error stays.
pub proof fn lemma_algorithm_error<C: Curve, A: Algorithm<C>>(
    algorithm: A,
    view: MultisigView<C>,
    msgs: Map<u16, Seq<u8>>,
    transcript: Seq<u8>,
    k: nat,
    m: nat,
)
    requires
        k <= m,
        algorithm_after::<C, A>(algorithm, view, msgs, transcript, k) is Err,
    ensures
        algorithm_after::<C, A>(algorithm, view, msgs, transcript, m) == algorithm_after::<C, A>(
            algorithm,
            view,
            msgs,
            transcript,
            k,
        ),
    decreases m,
{
    if k < m {
        lemma_algorithm_error::<C, A>(algorithm, view, msgs, transcript, k, (m - 1) as nat);
    }
}

impl<C: Curve, A: Algorithm<C>> AlgorithmSignMachine<C, A> {
    /// What the machine works with.
    pub closed spec fn spec_params(&self) -> Params<C, A> {
        self.params
    }

    /// The nonces of this signature.
    pub closed spec fn nonces(&self) -> (C::F, C::F) {
        self.preprocess.nonces
    }

    /// What was published for the nonces.
    pub closed spec fn preprocess_bytes(&self) -> Seq<u8> {
        self.preprocess.serialized@
    }

    /// The nonces are scalars of the curve.
    #[verifier::type_invariant]
    pub closed spec fn wf(&self) -> bool {
        &&& C::f_wf(self.preprocess.nonces.0)
        &&& C::f_wf(self.preprocess.nonces.1)
    }

    /// The preprocesses of the signing set: those received, and this participant's own.
    pub open spec fn all_preprocesses(&self, commitments: Map<u16, Vec<u8>>) -> Map<u16, Seq<u8>> {
        bytes_of(commitments).insert(
            self.spec_params().spec_keys().spec_params().i(),
            self.preprocess_bytes(),
        )
    }

    /// What the binding factors of this signature commit to.
    pub open spec fn transcript(&self, commitments: Map<u16, Vec<u8>>) -> Seq<u8> {
        binding_transcript::<C>(
            self.spec_params().spec_algorithm().context_spec(),
            self.spec_params().spec_view().spec_included(),
            self.all_preprocesses(commitments),
        )
    }

    /// What signing may return.
    ///
    /// Where the preprocesses are refused, that error. Else the algorithm processes
    /// everyone's addendum in the order of the signing set, and the first error stops it.
    /// Else the machine that follows holds everyone's nonce commitment `D + ρ·E` and their
    /// sum, the algorithm is in the state that making its share left it in, and the share
    /// returned is the one that the algorithm made of the sum and of this participant's
    /// nonce `d + ρ·e`.
    pub open spec fn sign_outcome(
        &self,
        commitments: Map<u16, Vec<u8>>,
        msg: Seq<u8>,
        r: Result<(AlgorithmSignatureMachine<C, A>, Vec<u8>), FrostError>,
    ) -> bool {
        let view = self.spec_params().spec_view();
        let included = view.spec_included();
        let msgs = self.all_preprocesses(commitments);
        let transcript = self.transcript(commitments);
        let failure = sign_failure::<C, A>(included, msgs);
        let processed = algorithm_after::<C, A>(
            self.spec_params().spec_algorithm(),
            view,
            msgs,
            transcript,
            included.len(),
        );
        let nonce = scalar_with::<C>(
            own_nonce::<C>(
                self.nonces(),
                self.spec_params().spec_keys().spec_params().i(),
                transcript,
            ),
        );
        match r {
            Ok((next, share)) => {
                &&& failure is None
                &&& processed is Ok
                &&& next.spec_params().spec_keys() == self.spec_params().spec_keys()
                &&& next.spec_params().spec_view() == view
                &&& C::g_log(next.nonce_sum()) == nonce_sum_spec::<C>(
                    included,
                    msgs,
                    transcript,
                    included.len(),
                )
                &&& next.spec_params().spec_algorithm() == processed->Ok_0.after_sign(
                    &view,
                    next.nonce_sum(),
                    nonce,
                    msg,
                )
                &&& next.own_share() == share@
                &&& C::scalar_encoding(share@)
                &&& encodes_scalar::<C>(share@)
                &&& encoded_val::<C>(share@) == processed->Ok_0.share_spec(
                    &view,
                    next.nonce_sum(),
                    nonce,
                    msg,
                )
                &&& C::g_wf(next.nonce_sum())
                &&& next.bound().len() == included.len()
                &&& forall|k: int|
                    0 <= k < included.len() ==> C::g_wf(#[trigger] next.bound()[k]) && C::g_log(
                        next.bound()[k],
                    ) == bound_nonce::<C>(included[k], transcript, msgs[included[k]])
            },
            Err(e) => failure == Some(e) || (failure is None && processed == Err::<A, FrostError>(
                e,
            )),
        }
    }

    /// Round 2: reads everyone's preprocess, derives the binding factors, has the
    /// algorithm process the addenda, and returns this participant's share of the
    /// signature.
    pub fn sign(self, commitments: HashMap<u16, Vec<u8>>, msg: &[u8]) -> (r: Result<
        (AlgorithmSignatureMachine<C, A>, Vec<u8>),
        FrostError,
    >)
        ensures
            self.sign_outcome(commitments@, msg@, r),
    {
        proof {
            use_type_invariant(&self);
            use_type_invariant(&self.params);
            use_type_invariant(&self.params.view);
            use_type_invariant(&*self.params.keys);
            C::lemma_order();
            C::lemma_lengths();
        }
        let ghost start = self;
        let ghost msgs = self.all_preprocesses(commitments@);
        let ghost q = C::order();
        let Params { algorithm, keys, view } = self.params;
        let mut algorithm = algorithm;
        let PreprocessPackage { nonces, serialized } = self.preprocess;
        let multisig_params = keys.params();
        proof {
            use_type_invariant(&multisig_params);
        }
        let me = multisig_params.i();
        let included = view.included();
        let ghost set = included@;
        let g_len = C::G_len();

        let mut received = commitments;
        let validated = validate_map(&mut received, included.as_slice(), (me, serialized));
        proof {
            assert(msgs =~= bytes_of(received@));
            assert(msgs.dom() =~= received@.dom());
            lemma_first_missing_same_keys(msgs, received@, set);
            lemma_first_missing(received@, set);
        }
        match validated {
            Ok(()) => {},
            Err(e) => {
                return Err(e);
            },
        }

        // Parse the commitments, and collect what the binding factors commit to
        let mut transcript = algorithm.context();
        let ghost context = transcript@;
        let mut parsed: Vec<(C::G, C::G)> = Vec::new();
        let mut k: usize = 0;
        while k < included.len()
            invariant
                k <= set.len(),
                set == included@,
                start == self,
                set == start.spec_params().spec_view().spec_included(),
                msgs == bytes_of(received@),
                msgs == start.all_preprocesses(commitments@),
                map_failure(msgs, set) is None,
                forall|j: int| 0 <= j < set.len() ==> received@.contains_key(#[trigger] set[j]),
                g_len == C::g_len_spec(),
                0 < g_len <= 255,
                first_unparsed::<C, A>(set, msgs, 0) == first_unparsed::<C, A>(set, msgs, k as int),
                transcript@ == context + binding_entries::<C>(set, msgs, k as nat),
                parsed@.len() == k,
                forall|j: int|
                    0 <= j < k ==> {
                        let point = #[trigger] parsed@[j];
                        &&& C::g_wf(point.0)
                        &&& C::g_wf(point.1)
                        &&& point.0 == point_of::<C>(preprocess_d::<C>(msgs[set[j]]))
                        &&& point.1 == point_of::<C>(preprocess_e::<C>(msgs[set[j]]))
                        &&& msgs[set[j]].len() >= 2 * g_len
                    },
            decreases set.len() - k,
        {
            let l = included[k];
            assert(received@.contains_key(set[k as int]));
            let theirs = match received.get(&l) {
                Some(theirs) => theirs,
                None => vstd::pervasive::unreached(),
            };
            if theirs.len() < 2 * g_len || theirs.len() - 2 * g_len != A::addendum_commit_len() {
                return Err(FrostError::InvalidCommitment(l));
            }
            let d_bytes = slice_subrange(theirs.as_slice(), 0, g_len);
            let e_bytes = slice_subrange(theirs.as_slice(), g_len, 2 * g_len);
            let d = match C::G_from_slice(d_bytes) {
                Ok(d) => d,
                Err(_) => {
                    return Err(FrostError::InvalidCommitment(l));
                },
            };
            let e = match C::G_from_slice(e_bytes) {
                Ok(e) => e,
                Err(_) => {
                    return Err(FrostError::InvalidCommitment(l));
                },
            };
            proof {
                lemma_point_of::<C>(d);
                lemma_point_of::<C>(e);
                lemma_binding_entries_step::<C>(set, msgs, k as nat);
            }
            append(&mut transcript, &be16(l));
            append(&mut transcript, d_bytes);
            append(&mut transcript, e_bytes);
            assert(transcript@ =~= context + binding_entries::<C>(set, msgs, (k + 1) as nat));
            parsed.push((d, e));
            k += 1;
        }
        assert(sign_failure::<C, A>(set, msgs) is None);
        let ghost full = transcript@;
        assert(full == start.transcript(commitments@));

        // Derive the binding factors, process the addenda, and add up the nonce commitments
        let mut bound: Vec<C::G> = Vec::new();
        let mut nonce_sum = C::generator();
        let mut our_binding = f_zero::<C>();
        let ghost mut seen = false;
        let mut k: usize = 0;
        while k < included.len()
            invariant
                k <= set.len(),
                set == included@,
                set == view.spec_included(),
                view.wf(),
                msgs == bytes_of(received@),
                forall|j: int| 0 <= j < set.len() ==> received@.contains_key(#[trigger] set[j]),
                g_len == C::g_len_spec(),
                0 < g_len <= 255,
                q == C::order(),
                q > 0x10000,
                full == transcript@,
                parsed@.len() == set.len(),
                forall|j: int|
                    0 <= j < set.len() ==> {
                        let point = #[trigger] parsed@[j];
                        &&& C::g_wf(point.0)
                        &&& C::g_wf(point.1)
                        &&& point.0 == point_of::<C>(preprocess_d::<C>(msgs[set[j]]))
                        &&& point.1 == point_of::<C>(preprocess_e::<C>(msgs[set[j]]))
                        &&& msgs[set[j]].len() >= 2 * g_len
                    },
                algorithm.wf(),
                algorithm_after::<C, A>(
                    start.spec_params().spec_algorithm(),
                    view,
                    msgs,
                    full,
                    k as nat,
                ) == Ok::<A, FrostError>(algorithm),
                sign_failure::<C, A>(set, msgs) is None,
                start == self,
                view == start.spec_params().spec_view(),
                msgs == start.all_preprocesses(commitments@),
                full == start.transcript(commitments@),
                bound@.len() == k,
                forall|j: int|
                    0 <= j < k ==> C::g_wf(#[trigger] bound@[j]) && C::g_log(bound@[j])
                        == bound_nonce::<C>(set[j], full, msgs[set[j]]),
                C::g_wf(nonce_sum),
                k > 0 ==> C::g_log(nonce_sum) == nonce_sum_spec::<C>(set, msgs, full, k as nat),
                C::f_wf(our_binding),
                seen <==> exists|j: int| 0 <= j < k && set[j] == me,
                seen ==> C::f_val(our_binding) == binding_factor::<C>(me, full),
            decreases set.len() - k,
        {
            let l = included[k];
            assert(received@.contains_key(set[k as int]));
            let theirs = match received.get(&l) {
                Some(theirs) => theirs,
                None => vstd::pervasive::unreached(),
            };
            let mut input: Vec<u8> = Vec::new();
            append(&mut input, &be16(l));
            append(&mut input, transcript.as_slice());
            let binding = C::hash_binding_factor(input.as_slice());
            let commitments_of = parsed[k];
            assert(theirs@.len() >= 2 * g_len);
            let addendum = slice_subrange(theirs.as_slice(), 2 * g_len, theirs.len());
            proof {
                lemma_scalar_with::<C>(binding);
            }
            match algorithm.process_addendum(&view, l, &commitments_of, &binding, addendum) {
                Ok(()) => {},
                Err(e) => {
                    proof {
                        lemma_algorithm_error::<C, A>(
                            start.spec_params().spec_algorithm(),
                            view,
                            msgs,
                            full,
                            (k + 1) as nat,
                            set.len(),
                        );
                    }
                    return Err(e);
                },
            }
            let this = C::g_add(commitments_of.0, C::g_mul(commitments_of.1, binding));
            proof {
                lemma_add_mod_right(
                    C::g_log(commitments_of.0),
                    C::g_log(commitments_of.1) * C::f_val(binding),
                    q,
                );
                assert(C::g_log(commitments_of.1) * C::f_val(binding) == C::f_val(binding)
                    * C::g_log(commitments_of.1)) by (nonlinear_arith);
                C::lemma_point(this);
                lemma_reduced(C::g_log(this), q);
                lemma_add_mod_left(nonce_sum_spec::<C>(set, msgs, full, k as nat), C::g_log(this), q);
            }
            if k == 0 {
                nonce_sum = this;
            } else {
                nonce_sum = C::g_add(nonce_sum, this);
            }
            if l == me {
                our_binding = binding;
                proof {
                    seen = true;
                }
            }
            bound.push(this);
            k += 1;
        }
        proof {
            let j = choose|j: int| 0 <= j < set.len() && set[j] == me;
            assert(set[j] == me);
            assert(seen);
        }

        let nonce = C::f_add(nonces.0, C::f_mul(our_binding, nonces.1));
        proof {
            lemma_add_mod_right(C::f_val(nonces.0), C::f_val(our_binding) * C::f_val(nonces.1), q);
            lemma_scalar_with::<C>(nonce);
        }
        let share = algorithm.sign_share(&view, nonce_sum, nonce, msg);
        let share_bytes = C::F_to_bytes(&share);
        proof {
            C::lemma_scalar(share);
            lemma_scalar_of::<C>(share);
        }
        let published = copy_range(share_bytes.as_slice(), 0, share_bytes.len());
        assert(published@ =~= share_bytes@);
        Ok(
            (
                AlgorithmSignatureMachine {
                    params: Params { algorithm, keys, view },
                    bound,
                    nonce_sum,
                    share: share_bytes,
                },
                published,
            ),
        )
    }
}

impl<C: Curve, A: Algorithm<C>> AlgorithmSignatureMachine<C, A> {
    /// What the machine works with.
    pub closed spec fn spec_params(&self) -> Params<C, A> {
        self.params
    }

    /// The nonce commitments of the participants of the signing set, in its order.
    pub closed spec fn bound(&self) -> Seq<C::G> {
        self.bound@
    }

    /// The sum of the nonce commitments.
    pub closed spec fn nonce_sum(&self) -> C::G {
        self.nonce_sum
    }

    /// This participant's own share of the signature, encoded.
    pub closed spec fn own_share(&self) -> Seq<u8> {
        self.share@
    }

    /// The algorithm has made its share, and the machine holds a nonce commitment for each
    /// participant of the signing set.
    #[verifier::type_invariant]
    pub closed spec fn wf(&self) -> bool {
        &&& self.params.algorithm.signed()
        &&& C::g_wf(self.nonce_sum)
        &&& self.bound@.len() == self.params.view.spec_included().len()
        &&& forall|k: int| 0 <= k < self.bound@.len() ==> C::g_wf(#[trigger] self.bound@[k])
    }
}

/// The sum of the shares of the first `k` participants of the signing set.
pub open spec fn shares_sum<C: Curve>(included: Seq<u16>, shares: Map<u16, Seq<u8>>, k: nat) -> int
    decreases k,
{
    if k == 0 {
        0
    } else {
        (shares_sum::<C>(included, shares, (k - 1) as nat) + encoded_val::<C>(
            shares[included[k - 1]],
        )) % C::order()
    }
}

impl<C: Curve, A: Algorithm<C>> AlgorithmSignatureMachine<C, A> {
    /// The shares of the signing set: those received, and this participant's own.
    pub open spec fn all_shares(&self, shares: Map<u16, Vec<u8>>) -> Map<u16, Seq<u8>> {
        bytes_of(shares).insert(
            self.spec_params().spec_keys().spec_params().i(),
            self.own_share(),
        )
    }

    /// Whether the share of the participant at the place `k` of the signing set is
    /// refused: it is not the canonical encoding of a scalar, or, for another participant
    /// than this one, the algorithm finds it not valid for that participant's verification
    /// share and nonce commitment.
    pub open spec fn share_refused(&self, shares: Map<u16, Seq<u8>>, k: int) -> bool {
        let view = self.spec_params().spec_view();
        let l = view.spec_included()[k];
        ||| !(shares[l].len() == C::f_len_spec() && C::scalar_encoding(shares[l]))
        ||| l != self.spec_params().spec_keys().spec_params().i()
            && !self.spec_params().spec_algorithm().share_valid(
            view.shares()[l],
            self.bound()[k],
            scalar_of::<C>(shares[l]),
        )
    }

    /// The first participant of the signing set, from the place `from` on, whose share is
    /// refused.
    pub open spec fn first_refused(&self, shares: Map<u16, Seq<u8>>, from: int) -> Option<u16>
        decreases self.spec_params().spec_view().spec_included().len() - from,
    {
        let included = self.spec_params().spec_view().spec_included();
        if from >= included.len() || from < 0 {
            None
        } else if self.share_refused(shares, from) {
            Some(included[from])
        } else {
            self.first_refused(shares, from + 1)
        }
    }

    /// What completing the signature may return.
    ///
    /// Where there is not one share for each participant of the signing set, that error.
    /// Else the first participant whose share is refused is named. Else the shares are
    /// added up, and the algorithm checks the signature that they make: it is returned, or
    /// an internal error where it is not valid.
    pub open spec fn complete_outcome(
        &self,
        shares: Map<u16, Vec<u8>>,
        r: Result<A::Signature, FrostError>,
    ) -> bool {
        let view = self.spec_params().spec_view();
        let included = view.spec_included();
        let all = self.all_shares(shares);
        let failure = match map_failure(all, included) {
            Some(e) => Some(e),
            None => match self.first_refused(all, 0) {
                Some(l) => Some(FrostError::InvalidShare(l)),
                None => None,
            },
        };
        let signature = self.spec_params().spec_algorithm().verify_spec(
            view.spec_group_key(),
            self.nonce_sum(),
            scalar_with::<C>(shares_sum::<C>(included, all, included.len())),
        );
        match r {
            Ok(sig) => failure is None && signature == Some(sig),
            Err(e) => failure == Some(e) || (failure is None && signature is None && (
            e matches FrostError::InternalError(why) && why@
                == "everyone had a valid share yet the signature was still invalid"@)),
        }
    }

    /// Completes the signature: checks everyone's share, adds the shares up, and has the
    /// algorithm check the signature that they make.
    pub fn complete(self, shares: HashMap<u16, Vec<u8>>) -> (r: Result<A::Signature, FrostError>)
        ensures
            self.complete_outcome(shares@, r),
    {
        proof {
            use_type_invariant(&self);
            use_type_invariant(&self.params);
            use_type_invariant(&self.params.view);
            use_type_invariant(&*self.params.keys);
            C::lemma_order();
        }
        let ghost q = C::order();
        let ghost all = self.all_shares(shares@);
        let multisig_params = self.params.keys.params();
        proof {
            use_type_invariant(&multisig_params);
        }
        let me = multisig_params.i();
        let included = self.params.view.included();
        let ghost set = included@;
        let own = copy_range(self.share.as_slice(), 0, self.share.len());
        assert(own@ =~= self.share@);

        let mut received = shares;
        let validated = validate_map(&mut received, included.as_slice(), (me, own));
        proof {
            assert(all =~= bytes_of(received@));
            assert(all.dom() =~= received@.dom());
            lemma_first_missing_same_keys(all, received@, set);
            lemma_first_missing(received@, set);
        }
        match validated {
            Ok(()) => {},
            Err(e) => {
                return Err(e);
            },
        }

        let mut sum = f_zero::<C>();
        proof {
            lemma_scalar_with::<C>(sum);
        }
        let mut k: usize = 0;
        while k < included.len()
            invariant
                k <= set.len(),
                set == included@,
                set == self.spec_params().spec_view().spec_included(),
                self.wf(),
                self.spec_params().wf(),
                me == self.spec_params().spec_keys().spec_params().i(),
                multisig_params == self.spec_params().spec_keys().spec_params(),
                all == bytes_of(received@),
                all == self.all_shares(shares@),
                map_failure(all, set) is None,
                forall|j: int| 0 <= j < set.len() ==> received@.contains_key(#[trigger] set[j]),
                q == C::order(),
                q > 0x10000,
                self.first_refused(all, 0) == self.first_refused(all, k as int),
                C::f_wf(sum),
                C::f_val(sum) == shares_sum::<C>(set, all, k as nat),
            decreases set.len() - k,
        {
            let l = included[k];
            assert(received@.contains_key(set[k as int]));
            let bytes = match received.get(&l) {
                Some(bytes) => bytes,
                None => vstd::pervasive::unreached(),
            };
            let share = match C::F_from_slice(bytes.as_slice()) {
                Ok(share) => share,
                Err(_) => {
                    return Err(FrostError::InvalidShare(l));
                },
            };
            proof {
                lemma_scalar_of::<C>(share);
                lemma_add_mod_left(shares_sum::<C>(set, all, k as nat), C::f_val(share), q);
                lemma_reduced(shares_sum::<C>(set, all, k as nat), q);
                assert(1 <= set[k as int] <= multisig_params.n());
            }
            sum = C::f_add(sum, share);
            if l != me {
                // The share must be the one that the participant's verification share and
                // nonce commitment ask for
                assert(self.spec_params().spec_view().shares().contains_key(l));
                let verification_share = self.params.view.verification_share(l);
                assert(self.spec_params().spec_view().wf());
                if !self.params.algorithm.verify_share(verification_share, self.bound[k], share) {
                    return Err(FrostError::InvalidShare(l));
                }
            }
            k += 1;
        }
        proof {
            lemma_scalar_with::<C>(sum);
        }

        match self.params.algorithm.verify(self.params.view.group_key(), self.nonce_sum, sum) {
            Some(signature) => Ok(signature),
            // Everyone's share was valid, so the sum should be: this is an internal error
            None => Err(
                FrostError::InternalError(
                    "everyone had a valid share yet the signature was still invalid".to_owned(),
                ),
            ),
        }
    }
}

} // verus!
