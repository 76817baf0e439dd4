//! Signing among honest participants ends with a signature; a signature that is
//! returned is valid under the group's key, with its offset, and under no other; a faulty
//! participant is named.

use crate::algorithm::{Algorithm, Hram, Schnorr};
use crate::curve::{encoded_val, Curve};
use crate::interpolation::{
    distinct_indices, lemma_cong_add, lemma_cong_mul, lemma_lagrange_reconstruction,
    lemma_unit_absorb, recovered, small_units, unit,
};
use crate::laws::key_generation::{dealt, lemma_encoded_point, lemma_encoded_scalar};
use crate::modmath::{inv_mod, is_inverse, lemma_mul_mod_right, lemma_reduced, poly_eval};
use crate::schnorr::{schnorr_valid, SchnorrSignature};
use crate::sign::{
    algorithm_after, binding_factor, bound_nonce, first_unparsed, lemma_sorted_signing_set,
    nonce_sum_spec, own_nonce, preprocess_d, preprocess_e, preprocess_of, preprocess_parses,
    shares_sum, sign_failure, signing_set, sorted_indices, AlgorithmSignMachine,
    AlgorithmSignatureMachine,
};
use crate::{lagrange_spec, offset_share_spec, FrostError, MultisigKeys, MultisigView};
use vstd::prelude::*;

verus! {

/// Signing: a signature that the machine returns is valid under the group's key.
///
/// Whatever shares were received, a Schnorr signature that the completion returns has
/// the sum of the nonce commitments as its commitment, and is valid under the key of the
/// keys signed with, for the challenge that the algorithm made.
pub proof fn lemma_signature_verifies<C: Curve, H: Hram<C>>(
    machine: AlgorithmSignatureMachine<C, Schnorr<C, H>>,
    shares: Map<u16, Vec<u8>>,
    signature: SchnorrSignature<C>,
)
    requires
        machine.spec_params().wf(),
        machine.complete_outcome(shares, Ok(signature)),
    ensures
        signature.R == machine.nonce_sum(),
        schnorr_valid(
            C::g_log(machine.spec_params().spec_keys().spec_group_key()),
            C::f_val(machine.spec_params().spec_algorithm().challenge()->Some_0),
            C::g_log(signature.R),
            C::f_val(signature.s),
            C::order(),
        ),
{
}

/// Signing: the challenge of a Schnorr signature is the hash of the sum of the nonce
/// commitments, of the group's key and of the message.
pub proof fn lemma_signature_challenge<C: Curve, H: Hram<C>>(
    machine: AlgorithmSignMachine<C, Schnorr<C, H>>,
    commitments: Map<u16, Vec<u8>>,
    msg: Seq<u8>,
    next: AlgorithmSignatureMachine<C, Schnorr<C, H>>,
    share: Vec<u8>,
)
    requires
        machine.spec_params().wf(),
        machine.sign_outcome(commitments, msg, Ok((next, share))),
    ensures
        next.spec_params().wf(),
        next.spec_params().spec_algorithm().challenge() matches Some(c) && C::f_wf(c) && C::f_val(c)
            == H::hram_spec(
            C::g_repr(next.nonce_sum()),
            C::g_repr(machine.spec_params().spec_keys().spec_group_key()),
            msg,
        ),
{
    crate::algorithm::lemma_schnorr_after_sign::<C, H>(
        crate::sign::algorithm_after::<C, Schnorr<C, H>>(
            machine.spec_params().spec_algorithm(),
            machine.spec_params().spec_view(),
            machine.all_preprocesses(commitments),
            machine.transcript(commitments),
            machine.spec_params().spec_view().spec_included().len(),
        )->Ok_0,
        &machine.spec_params().spec_view(),
        next.nonce_sum(),
        crate::curve::scalar_with::<C>(
            crate::sign::own_nonce::<C>(
                machine.nonces(),
                machine.spec_params().spec_keys().spec_params().i(),
                machine.transcript(commitments),
            ),
        ),
        msg,
    );
}

/// Offset absorption: a signature made with offset keys is valid under the key offset.
///
/// Where keys are offset by `δ`, a Schnorr signature that the completion returns for the
/// offset keys is valid under the group's key plus `δ·G`.
pub proof fn lemma_offset_signature<C: Curve, H: Hram<C>>(
    keys: MultisigKeys<C>,
    offset: C::F,
    machine: AlgorithmSignatureMachine<C, Schnorr<C, H>>,
    shares: Map<u16, Vec<u8>>,
    signature: SchnorrSignature<C>,
)
    requires
        machine.spec_params().wf(),
        C::g_log(machine.spec_params().spec_keys().spec_group_key()) == (C::g_log(
            keys.spec_group_key(),
        ) + C::f_val(offset)) % C::order(),
        machine.complete_outcome(shares, Ok(signature)),
    ensures
        schnorr_valid(
            (C::g_log(keys.spec_group_key()) + C::f_val(offset)) % C::order(),
            C::f_val(machine.spec_params().spec_algorithm().challenge()->Some_0),
            C::g_log(signature.R),
            C::f_val(signature.s),
            C::order(),
        ),
{
    lemma_signature_verifies::<C, H>(machine, shares, signature);
}

/// A signature is valid under one key only, where its challenge is not zero: two keys
/// under which it is valid for one challenge, which has an inverse, are the same.
pub proof fn lemma_one_key(
    first: int,
    second: int,
    challenge: int,
    inverse: int,
    nonce: int,
    s: int,
    q: int,
)
    requires
        q > 1,
        is_inverse(challenge, inverse, q),
        schnorr_valid(first, challenge, nonce, s, q),
        schnorr_valid(second, challenge, nonce, s, q),
    ensures
        first % q == second % q,
{
    // c·first = c·second, so first = inverse·c·first = inverse·c·second = second
    let a = challenge * first;
    let b = challenge * second;
    crate::modmath::lemma_mod_difference(nonce + a, nonce + b, q);
    crate::modmath::lemma_mod_difference(a, b, q);
    assert(a % q == b % q);
    crate::modmath::lemma_mod_mul_congruent(a, b, inverse, q);
    assert(inverse * a == (challenge * inverse) * first) by (nonlinear_arith)
        requires
            a == challenge * first,
    ;
    assert(inverse * b == (challenge * inverse) * second) by (nonlinear_arith)
        requires
            b == challenge * second,
    ;
    crate::modmath::lemma_mul_mod_left(challenge * inverse, first, q);
    crate::modmath::lemma_mul_mod_left(challenge * inverse, second, q);
    assert(1 * first == first && 1 * second == second);
}

/// Blame in signing: where one participant's share alone is refused, that participant is
/// named.
pub proof fn lemma_blame_share<C: Curve, A: Algorithm<C>>(
    machine: AlgorithmSignatureMachine<C, A>,
    shares: Map<u16, Vec<u8>>,
    k: int,
    r: Result<A::Signature, FrostError>,
)
    requires
        machine.complete_outcome(shares, r),
        crate::map_failure(
            machine.all_shares(shares),
            machine.spec_params().spec_view().spec_included(),
        ) is None,
        0 <= k < machine.spec_params().spec_view().spec_included().len(),
        forall|j: int|
            0 <= j < machine.spec_params().spec_view().spec_included().len() ==> (
            #[trigger] machine.share_refused(machine.all_shares(shares), j) <==> j == k),
    ensures
        r == Err::<A::Signature, FrostError>(
            FrostError::InvalidShare(machine.spec_params().spec_view().spec_included()[k]),
        ),
{
    lemma_first_refused::<C, A>(machine, machine.all_shares(shares), k, 0);
}

/// The first share refused is the only one that is.
pub proof fn lemma_first_refused<C: Curve, A: Algorithm<C>>(
    machine: AlgorithmSignatureMachine<C, A>,
    shares: Map<u16, Seq<u8>>,
    k: int,
    from: int,
)
    requires
        0 <= from <= k < machine.spec_params().spec_view().spec_included().len(),
        forall|j: int|
            0 <= j < machine.spec_params().spec_view().spec_included().len() ==> (
            #[trigger] machine.share_refused(shares, j) <==> j == k),
    ensures
        machine.first_refused(shares, from) == Some(
            machine.spec_params().spec_view().spec_included()[k],
        ),
    decreases k - from,
{
    if from < k {
        assert(!machine.share_refused(shares, from));
        lemma_first_refused::<C, A>(machine, shares, k, from + 1);
    } else {
        assert(machine.share_refused(shares, k));
    }
}

/// The sum of the verification shares of the first `upto` participants of a signing set,
/// as a view holds them, as multiples of the generator.
pub open spec fn view_shares_sum<C: Curve>(view: MultisigView<C>, included: Seq<u16>, upto: nat) -> int
    decreases upto,
{
    if upto == 0 {
        0
    } else {
        view_shares_sum::<C>(view, included, (upto - 1) as nat) + C::g_log(
            view.shares()[included[upto - 1]],
        )
    }
}

/// The verification shares of a view add up to what the participants recover of the
/// polynomial, and one part of the offset for each.
proof fn lemma_view_shares_prefix<C: Curve>(
    keys: MultisigKeys<C>,
    view: MultisigView<C>,
    included: Seq<u16>,
    c: Seq<int>,
    upto: nat,
)
    requires
        dealt::<C>(keys, c),
        keys.is_view(included, view),
        signing_set(keys.spec_params(), included),
        upto <= included.len(),
    ensures
        view_shares_sum::<C>(view, included, upto) % C::order() == (recovered(
            C::order(),
            included,
            c,
            upto,
        ) + upto * offset_share_spec(C::order(), keys.offset_val(), included.len() as int))
            % C::order(),
    decreases upto,
{
    let q = C::order();
    C::lemma_order();
    let part = offset_share_spec(q, keys.offset_val(), included.len() as int);
    if upto == 0 {
        assert(0 * part == 0) by (nonlinear_arith);
    } else {
        let k = (upto - 1) as nat;
        let l = included[k as int];
        lemma_view_shares_prefix::<C>(keys, view, included, c, k);
        assert(1 <= l <= keys.spec_params().n());
        let lambda = lagrange_spec(q, l, included);
        let value = poly_eval(c, l as int);
        let share = C::g_log(keys.shares()[l]);
        // the view's share: share·λ + part, with share = value modulo q
        vstd::arithmetic::div_mod::lemma_mod_twice(value, q);
        lemma_cong_mul(share, value, lambda, lambda, q);
        lemma_cong_add(share * lambda, value * lambda, part, part, q);
        vstd::arithmetic::div_mod::lemma_mod_twice(share * lambda + part, q);
        assert(value * lambda == lambda * value) by (nonlinear_arith);
        lemma_cong_add(
            view_shares_sum::<C>(view, included, k),
            recovered(q, included, c, k) + k * part,
            C::g_log(view.shares()[l]),
            lambda * value + part,
            q,
        );
        assert(recovered(q, included, c, k) + k * part + (lambda * value + part) == recovered(
            q,
            included,
            c,
            upto,
        ) + upto * part) by (nonlinear_arith)
            requires
                recovered(q, included, c, upto) == recovered(q, included, c, k) + lambda * value,
                upto == k + 1,
        ;
    }
}

/// The verification shares that a view holds for its signing set add up to the group's
/// key: each participant's share is weighted by its Lagrange coefficient, and each takes
/// one part of the offset.
///
/// The keys are shares of one polynomial, as key generation leaves them, with or without
/// an offset; the order of the group is a prime above the participants' indices.
pub proof fn lemma_view_shares_sum<C: Curve>(
    keys: MultisigKeys<C>,
    view: MultisigView<C>,
    included: Seq<u16>,
    c: Seq<int>,
)
    requires
        small_units(C::order()),
        dealt::<C>(keys, c),
        keys.is_view(included, view),
        signing_set(keys.spec_params(), included),
    ensures
        view_shares_sum::<C>(view, included, included.len()) % C::order() == C::g_log(
            view.spec_group_key(),
        ),
{
    let q = C::order();
    C::lemma_order();
    let len = included.len() as int;
    let offset = keys.offset_val();
    let part = offset_share_spec(q, offset, len);
    lemma_view_shares_prefix::<C>(keys, view, included, c, included.len());
    assert(distinct_indices(included)) by {
        assert forall|k: int| 0 <= k < included.len() implies #[trigger] included[k] != 0 by {
            assert(1 <= included[k]);
        }
    }
    lemma_lagrange_reconstruction(q, included, c);
    // the parts of the offset add up to the offset
    crate::sign::lemma_signing_set_len(included, keys.spec_params().n());
    assert(0 < len < 0x10000);
    assert(unit(len, q));
    lemma_reduced(len, q);
    let inverse = inv_mod(len, q);
    lemma_mul_mod_right(len, offset * inverse, q);
    assert(len * (offset * inverse) == len * inverse * offset) by (nonlinear_arith);
    lemma_unit_absorb(len, offset, q);
    assert((len * part) % q == offset % q);
    lemma_cong_add(recovered(q, included, c, included.len()), poly_eval(c, 0), len * part, offset, q);
    assert(poly_eval(c, 0) == c[0] + 0 * poly_eval(c.skip(1), 0));
    assert(0 * poly_eval(c.skip(1), 0) == 0) by (nonlinear_arith);
}

/// Lagrange reconstruction through views, for a signing set given in any order: where
/// the set holds distinct indices from 1 to `n`, at least `t` of them and this
/// participant's among them, the verification shares that the view holds for the set's
/// members add up to the group's key, moved by the offset.
///
/// The keys are shares of one polynomial, as key generation leaves them, with or without
/// an offset; the order of the group is a prime above the participants' indices.
pub proof fn lemma_view_recovers_key<C: Curve>(
    keys: MultisigKeys<C>,
    view: MultisigView<C>,
    given: Seq<u16>,
    c: Seq<int>,
)
    requires
        small_units(C::order()),
        dealt::<C>(keys, c),
        keys.spec_params().t() <= given.len(),
        given.no_duplicates(),
        forall|k: int| 0 <= k < given.len() ==> 1 <= #[trigger] given[k] <= keys.spec_params().n(),
        given.contains(keys.spec_params().i()),
        keys.is_view(sorted_indices(given), view),
    ensures
        view_shares_sum::<C>(view, sorted_indices(given), given.len()) % C::order() == C::g_log(
            keys.spec_group_key(),
        ),
        C::g_log(keys.spec_group_key()) == (c[0] + keys.offset_val()) % C::order(),
{
    lemma_sorted_signing_set(keys.spec_params(), given);
    lemma_view_shares_sum::<C>(keys, view, sorted_indices(given), c);
}

/// The sum of the first `upto` nonce commitments, as multiples of the generator.
pub open spec fn bound_sum<C: Curve>(bound: Seq<C::G>, upto: nat) -> int
    decreases upto,
{
    if upto == 0 {
        0
    } else {
        bound_sum::<C>(bound, (upto - 1) as nat) + C::g_log(bound[upto - 1])
    }
}

/// Whether the share of the participant at the place `k` of the signing set is the one
/// that its verification share and its nonce commitment ask for: it is the canonical
/// encoding of a scalar `z` with `z·G = (D + ρ·E) + c·v`.
pub open spec fn share_answers<C: Curve, H: Hram<C>>(
    machine: AlgorithmSignatureMachine<C, Schnorr<C, H>>,
    shares: Map<u16, Seq<u8>>,
    k: int,
) -> bool {
    let view = machine.spec_params().spec_view();
    let l = view.spec_included()[k];
    &&& shares[l].len() == C::f_len_spec()
    &&& C::scalar_encoding(shares[l])
    &&& schnorr_valid(
        C::g_log(view.shares()[l]),
        C::f_val(machine.spec_params().spec_algorithm().challenge()->Some_0),
        C::g_log(machine.bound()[k]),
        encoded_val::<C>(shares[l]),
        C::order(),
    )
}

/// No share is refused where every share answers.
proof fn lemma_none_refused<C: Curve, H: Hram<C>>(
    machine: AlgorithmSignatureMachine<C, Schnorr<C, H>>,
    shares: Map<u16, Seq<u8>>,
    from: int,
)
    requires
        0 <= from <= machine.spec_params().spec_view().spec_included().len(),
        forall|k: int|
            0 <= k < machine.spec_params().spec_view().spec_included().len()
                ==> #[trigger] share_answers::<C, H>(machine, shares, k),
    ensures
        machine.first_refused(shares, from) is None,
    decreases machine.spec_params().spec_view().spec_included().len() - from,
{
    if from < machine.spec_params().spec_view().spec_included().len() {
        assert(share_answers::<C, H>(machine, shares, from));
        lemma_none_refused::<C, H>(machine, shares, from + 1);
    }
}

/// The shares that answer add up to the sum of the nonce commitments plus the challenge
/// times the sum of the verification shares.
proof fn lemma_shares_sum<C: Curve, H: Hram<C>>(
    machine: AlgorithmSignatureMachine<C, Schnorr<C, H>>,
    shares: Map<u16, Seq<u8>>,
    upto: nat,
)
    requires
        upto <= machine.spec_params().spec_view().spec_included().len(),
        forall|k: int|
            0 <= k < machine.spec_params().spec_view().spec_included().len()
                ==> #[trigger] share_answers::<C, H>(machine, shares, k),
    ensures
        shares_sum::<C>(machine.spec_params().spec_view().spec_included(), shares, upto)
            % C::order() == (bound_sum::<C>(machine.bound(), upto) + C::f_val(
            machine.spec_params().spec_algorithm().challenge()->Some_0,
        ) * view_shares_sum::<C>(
            machine.spec_params().spec_view(),
            machine.spec_params().spec_view().spec_included(),
            upto,
        )) % C::order(),
        0 <= shares_sum::<C>(machine.spec_params().spec_view().spec_included(), shares, upto)
            < C::order(),
    decreases upto,
{
    let q = C::order();
    C::lemma_order();
    let view = machine.spec_params().spec_view();
    let included = view.spec_included();
    let c = C::f_val(machine.spec_params().spec_algorithm().challenge()->Some_0);
    if upto == 0 {
        assert(c * 0 == 0) by (nonlinear_arith);
    } else {
        let k = (upto - 1) as nat;
        let l = included[k as int];
        lemma_shares_sum::<C, H>(machine, shares, k);
        assert(share_answers::<C, H>(machine, shares, k as int));
        let z = encoded_val::<C>(shares[l]);
        let b = C::g_log(machine.bound()[k as int]);
        let v = C::g_log(view.shares()[l]);
        let before = shares_sum::<C>(included, shares, k);
        let bs = bound_sum::<C>(machine.bound(), k);
        let vs = view_shares_sum::<C>(view, included, k);
        vstd::arithmetic::div_mod::lemma_mod_twice(before + z, q);
        vstd::arithmetic::div_mod::lemma_mod_bound(before + z, q);
        lemma_cong_add(before, bs + c * vs, z, b + c * v, q);
        assert(bs + c * vs + (b + c * v) == (bs + b) + c * (vs + v)) by (nonlinear_arith);
    }
}

/// Signing: shares that answer make a signature.
///
/// Where there is one share for each participant of the signing set, every share is the
/// one that its sender's verification share and nonce commitment ask for, the nonce
/// commitments add up to their sum, and the verification shares add up to the group's
/// key, the completion returns a signature.
pub proof fn lemma_honest_complete<C: Curve, H: Hram<C>>(
    machine: AlgorithmSignatureMachine<C, Schnorr<C, H>>,
    shares: Map<u16, Vec<u8>>,
    r: Result<SchnorrSignature<C>, FrostError>,
)
    requires
        machine.spec_params().spec_algorithm().challenge() is Some,
        crate::map_failure(
            machine.all_shares(shares),
            machine.spec_params().spec_view().spec_included(),
        ) is None,
        forall|k: int|
            0 <= k < machine.spec_params().spec_view().spec_included().len()
                ==> #[trigger] share_answers::<C, H>(machine, machine.all_shares(shares), k),
        C::g_log(machine.nonce_sum()) == bound_sum::<C>(
            machine.bound(),
            machine.spec_params().spec_view().spec_included().len(),
        ) % C::order(),
        view_shares_sum::<C>(
            machine.spec_params().spec_view(),
            machine.spec_params().spec_view().spec_included(),
            machine.spec_params().spec_view().spec_included().len(),
        ) % C::order() == C::g_log(machine.spec_params().spec_view().spec_group_key()),
        machine.complete_outcome(shares, r),
    ensures
        r is Ok,
{
    let q = C::order();
    C::lemma_order();
    let view = machine.spec_params().spec_view();
    let included = view.spec_included();
    let all = machine.all_shares(shares);
    let c = C::f_val(machine.spec_params().spec_algorithm().challenge()->Some_0);
    lemma_none_refused::<C, H>(machine, all, 0);
    lemma_shares_sum::<C, H>(machine, all, included.len());
    let sum = shares_sum::<C>(included, all, included.len());
    crate::curve::lemma_scalar_with_val::<C>(sum);
    let bs = bound_sum::<C>(machine.bound(), included.len());
    let vs = view_shares_sum::<C>(view, included, included.len());
    let key = C::g_log(view.spec_group_key());
    let nonce = C::g_log(machine.nonce_sum());
    // bs + c·vs = nonce + c·key, modulo q
    vstd::arithmetic::div_mod::lemma_mod_twice(bs, q);
    vstd::arithmetic::div_mod::lemma_mod_twice(vs, q);
    lemma_cong_mul(c, c, vs, key, q);
    lemma_cong_add(bs, nonce, c * vs, c * key, q);
}

/// The sum of the nonce commitments that a machine holds after signing is the sum of the
/// commitments that it holds.
pub proof fn lemma_nonce_sum<C: Curve, A: Algorithm<C>>(
    machine: AlgorithmSignMachine<C, A>,
    commitments: Map<u16, Vec<u8>>,
    msg: Seq<u8>,
    next: AlgorithmSignatureMachine<C, A>,
    share: Vec<u8>,
)
    requires
        machine.sign_outcome(commitments, msg, Ok((next, share))),
    ensures
        C::g_log(next.nonce_sum()) == bound_sum::<C>(
            next.bound(),
            machine.spec_params().spec_view().spec_included().len(),
        ) % C::order(),
{
    let included = machine.spec_params().spec_view().spec_included();
    lemma_nonce_sum_prefix::<C, A>(machine, commitments, next, included.len());
    C::lemma_order();
    if included.len() == 0 {
        lemma_reduced(0, C::order());
    } else {
        vstd::arithmetic::div_mod::lemma_mod_twice(
            nonce_sum_spec::<C>(
                included,
                machine.all_preprocesses(commitments),
                machine.transcript(commitments),
                (included.len() - 1) as nat,
            ) + bound_nonce::<C>(
                included[included.len() - 1],
                machine.transcript(commitments),
                machine.all_preprocesses(commitments)[included[included.len() - 1]],
            ),
            C::order(),
        );
    }
}

/// The sum of the first nonce commitments, reduced at each step or at the end.
proof fn lemma_nonce_sum_prefix<C: Curve, A: Algorithm<C>>(
    machine: AlgorithmSignMachine<C, A>,
    commitments: Map<u16, Vec<u8>>,
    next: AlgorithmSignatureMachine<C, A>,
    upto: nat,
)
    requires
        upto <= machine.spec_params().spec_view().spec_included().len(),
        next.bound().len() == machine.spec_params().spec_view().spec_included().len(),
        forall|k: int|
            0 <= k < machine.spec_params().spec_view().spec_included().len() ==> C::g_log(
                #[trigger] next.bound()[k],
            ) == bound_nonce::<C>(
                machine.spec_params().spec_view().spec_included()[k],
                machine.transcript(commitments),
                machine.all_preprocesses(commitments)[machine.spec_params().spec_view().spec_included()[k]],
            ),
    ensures
        nonce_sum_spec::<C>(
            machine.spec_params().spec_view().spec_included(),
            machine.all_preprocesses(commitments),
            machine.transcript(commitments),
            upto,
        ) % C::order() == bound_sum::<C>(next.bound(), upto) % C::order(),
    decreases upto,
{
    let q = C::order();
    C::lemma_order();
    if upto > 0 {
        let k = (upto - 1) as nat;
        lemma_nonce_sum_prefix::<C, A>(machine, commitments, next, k);
        let included = machine.spec_params().spec_view().spec_included();
        let msgs = machine.all_preprocesses(commitments);
        let transcript = machine.transcript(commitments);
        let this = bound_nonce::<C>(included[k as int], transcript, msgs[included[k as int]]);
        assert(C::g_log(next.bound()[k as int]) == this);
        let before = nonce_sum_spec::<C>(included, msgs, transcript, k);
        vstd::arithmetic::div_mod::lemma_mod_twice(before + this, q);
        lemma_cong_add(before, bound_sum::<C>(next.bound(), k), this, this, q);
    }
}

/// The Schnorr algorithm is not changed by any addendum.
proof fn lemma_schnorr_processed<C: Curve, H: Hram<C>>(
    algorithm: Schnorr<C, H>,
    view: MultisigView<C>,
    msgs: Map<u16, Seq<u8>>,
    transcript: Seq<u8>,
    k: nat,
)
    ensures
        algorithm_after::<C, Schnorr<C, H>>(algorithm, view, msgs, transcript, k) == Ok::<
            Schnorr<C, H>,
            FrostError,
        >(algorithm),
    decreases k,
{
    if k > 0 {
        lemma_schnorr_processed::<C, H>(algorithm, view, msgs, transcript, (k - 1) as nat);
    }
}

/// Signing: the share of an honest participant answers.
///
/// Two participants sign one message in one session: with the same signing set, the same
/// preprocesses and the same group key. Where the sender's preprocess is that of its
/// nonces, and the receiver holds the sender's verification share, the share that the
/// sender makes is the one that the receiver asks of it: the canonical encoding of a
/// scalar `z` with `z·G = (D + ρ·E) + c·v`, for the receiver's challenge `c`.
pub proof fn lemma_honest_share<C: Curve, H: Hram<C>>(
    sender: AlgorithmSignMachine<C, Schnorr<C, H>>,
    sent: Map<u16, Vec<u8>>,
    sender_next: AlgorithmSignatureMachine<C, Schnorr<C, H>>,
    share: Vec<u8>,
    receiver: AlgorithmSignMachine<C, Schnorr<C, H>>,
    received: Map<u16, Vec<u8>>,
    receiver_next: AlgorithmSignatureMachine<C, Schnorr<C, H>>,
    receiver_share: Vec<u8>,
    msg: Seq<u8>,
    k: int,
)
    requires
        sender.spec_params().wf(),
        receiver.spec_params().wf(),
        sender.sign_outcome(sent, msg, Ok((sender_next, share))),
        receiver.sign_outcome(received, msg, Ok((receiver_next, receiver_share))),
        sender.all_preprocesses(sent) == receiver.all_preprocesses(received),
        sender.spec_params().spec_view().spec_included()
            == receiver.spec_params().spec_view().spec_included(),
        sender.spec_params().spec_view().spec_group_key()
            == receiver.spec_params().spec_view().spec_group_key(),
        0 <= k < sender.spec_params().spec_view().spec_included().len(),
        sender.spec_params().spec_view().spec_included()[k]
            == sender.spec_params().spec_keys().spec_params().i(),
        preprocess_of::<C, Schnorr<C, H>>(
            sender.nonces(),
            sender.all_preprocesses(sent)[sender.spec_params().spec_keys().spec_params().i()],
        ),
        C::g_log(
            receiver.spec_params().spec_view().shares()[sender.spec_params().spec_keys().spec_params().i()],
        ) == C::f_val(sender.spec_params().spec_view().spec_secret_share()),
    ensures
        share@.len() == C::f_len_spec(),
        C::scalar_encoding(share@),
        receiver_next.spec_params().spec_algorithm().challenge() is Some,
        schnorr_valid(
            C::g_log(
                receiver.spec_params().spec_view().shares()[sender.spec_params().spec_keys().spec_params().i()],
            ),
            C::f_val(receiver_next.spec_params().spec_algorithm().challenge()->Some_0),
            C::g_log(receiver_next.bound()[k]),
            encoded_val::<C>(share@),
            C::order(),
        ),
{
    let q = C::order();
    C::lemma_order();
    let l = sender.spec_params().spec_keys().spec_params().i();
    let included = sender.spec_params().spec_view().spec_included();
    let msgs = sender.all_preprocesses(sent);
    let transcript = sender.transcript(sent);
    assert(transcript == receiver.transcript(received));
    let sender_view = sender.spec_params().spec_view();
    let receiver_view = receiver.spec_params().spec_view();
    lemma_schnorr_processed::<C, H>(
        sender.spec_params().spec_algorithm(),
        sender_view,
        msgs,
        transcript,
        included.len(),
    );
    lemma_schnorr_processed::<C, H>(
        receiver.spec_params().spec_algorithm(),
        receiver_view,
        msgs,
        transcript,
        included.len(),
    );
    // both hold the same sum of the nonce commitments, and so the same challenge
    C::lemma_point_log(sender_next.nonce_sum(), receiver_next.nonce_sum());
    let nonce_sum = receiver_next.nonce_sum();
    let own = own_nonce::<C>(sender.nonces(), l, transcript);
    let receiver_own = own_nonce::<C>(
        receiver.nonces(),
        receiver.spec_params().spec_keys().spec_params().i(),
        transcript,
    );
    vstd::arithmetic::div_mod::lemma_mod_bound(
        C::f_val(sender.nonces().0) + binding_factor::<C>(l, transcript) * C::f_val(
            sender.nonces().1,
        ),
        q,
    );
    vstd::arithmetic::div_mod::lemma_mod_bound(
        C::f_val(receiver.nonces().0) + binding_factor::<C>(
            receiver.spec_params().spec_keys().spec_params().i(),
            transcript,
        ) * C::f_val(receiver.nonces().1),
        q,
    );
    crate::curve::lemma_scalar_with_val::<C>(own);
    crate::algorithm::lemma_schnorr_after_sign::<C, H>(
        receiver.spec_params().spec_algorithm(),
        &receiver_view,
        nonce_sum,
        crate::curve::scalar_with::<C>(receiver_own),
        msg,
    );
    let c = H::hram_spec(C::g_repr(nonce_sum), C::g_repr(receiver_view.spec_group_key()), msg);
    let x = C::f_val(sender_view.spec_secret_share());
    // the share: own + x·c; the receiver's commitment of the sender: own
    assert(encoded_val::<C>(share@) == (own + x * c) % q);
    assert(C::g_log(receiver_next.bound()[k]) == bound_nonce::<C>(l, transcript, msgs[l]));
    assert(bound_nonce::<C>(l, transcript, msgs[l]) == own);
    vstd::arithmetic::div_mod::lemma_mod_twice(own + x * c, q);
    assert(x * c == c * x) by (nonlinear_arith);
    lemma_encoded_scalar::<C>(share@);
}

/// Every participant's view holds the weighted secret share of every other as its
/// verification share, where their keys are shares of one polynomial with one offset.
pub proof fn lemma_view_share_consistent<C: Curve>(
    holder: MultisigKeys<C>,
    holder_view: MultisigView<C>,
    owner: MultisigKeys<C>,
    owner_view: MultisigView<C>,
    included: Seq<u16>,
    c: Seq<int>,
)
    requires
        dealt::<C>(holder, c),
        dealt::<C>(owner, c),
        holder.spec_params().n() == owner.spec_params().n(),
        holder.offset_val() == owner.offset_val(),
        holder.is_view(included, holder_view),
        owner.is_view(included, owner_view),
    ensures
        C::g_log(holder_view.shares()[owner.spec_params().i()]) == C::f_val(
            owner_view.spec_secret_share(),
        ),
{
    let l = owner.spec_params().i();
    assert(1 <= l <= holder.spec_params().n());
    assert(C::g_log(holder.shares()[l]) == poly_eval(c, l as int) % C::order());
}

/// The preprocesses of honest participants parse, from the place `from` of the signing
/// set on.
proof fn lemma_honest_preprocesses<C: Curve, A: Algorithm<C>>(
    included: Seq<u16>,
    msgs: Map<u16, Seq<u8>>,
    nonces: Map<u16, (C::F, C::F)>,
    from: int,
)
    requires
        0 <= from <= included.len(),
        forall|k: int|
            0 <= k < included.len() ==> {
                let l = #[trigger] included[k];
                &&& preprocess_of::<C, A>(nonces[l], msgs[l])
                &&& C::f_val(nonces[l].0) != 0
                &&& C::f_val(nonces[l].1) != 0
            },
    ensures
        first_unparsed::<C, A>(included, msgs, from) is None,
    decreases included.len() - from,
{
    if from < included.len() {
        let l = included[from];
        assert(preprocess_of::<C, A>(nonces[l], msgs[l]));
        lemma_encoded_point::<C>(preprocess_d::<C>(msgs[l]));
        lemma_encoded_point::<C>(preprocess_e::<C>(msgs[l]));
        assert(preprocess_parses::<C, A>(msgs[l]));
        lemma_honest_preprocesses::<C, A>(included, msgs, nonces, from + 1);
    }
}

/// The sum of the secret shares that the views of the first `upto` participants of a
/// signing set hold.
pub open spec fn view_secrets_sum<C: Curve>(
    views: Map<u16, MultisigView<C>>,
    included: Seq<u16>,
    upto: nat,
) -> int
    decreases upto,
{
    if upto == 0 {
        0
    } else {
        view_secrets_sum::<C>(views, included, (upto - 1) as nat) + C::f_val(
            views[included[upto - 1]].spec_secret_share(),
        )
    }
}

/// Whether every participant of a set, given in any order, holds keys dealt of the
/// polynomial with the coefficients `c`, all for the same number of participants and moved
/// by the same offset, and the view of its keys for the set.
pub open spec fn views_of_set<C: Curve>(
    keys: Map<u16, MultisigKeys<C>>,
    views: Map<u16, MultisigView<C>>,
    given: Seq<u16>,
    c: Seq<int>,
) -> bool {
    forall|k: int|
        0 <= k < given.len() ==> {
            let l = #[trigger] given[k];
            &&& dealt::<C>(keys[l], c)
            &&& keys[l].spec_params().i() == l
            &&& keys[l].spec_params().n() == keys[given[0]].spec_params().n()
            &&& keys[l].offset_val() == keys[given[0]].offset_val()
            &&& keys[l].is_view(sorted_indices(given), views[l])
        }
}

/// The secret shares of the views add up as the verification shares that the first
/// participant's view holds for them.
proof fn lemma_view_secrets_prefix<C: Curve>(
    keys: Map<u16, MultisigKeys<C>>,
    views: Map<u16, MultisigView<C>>,
    given: Seq<u16>,
    c: Seq<int>,
    upto: nat,
)
    requires
        given.len() > 0,
        views_of_set::<C>(keys, views, given, c),
        upto <= sorted_indices(given).len(),
    ensures
        view_secrets_sum::<C>(views, sorted_indices(given), upto) == view_shares_sum::<C>(
            views[given[0]],
            sorted_indices(given),
            upto,
        ),
    decreases upto,
{
    if upto > 0 {
        let sorted = sorted_indices(given);
        let k = (upto - 1) as nat;
        lemma_view_secrets_prefix::<C>(keys, views, given, c, k);
        let l = sorted[k as int];
        assert(vstd::relations::total_ordering(crate::sign::index_order()));
        given.lemma_sort_by_ensures(crate::sign::index_order());
        assert(sorted.contains(l));
        assert(given.contains(l));
        let j = choose|j: int| 0 <= j < given.len() && given[j] == l;
        assert(dealt::<C>(keys[given[j]], c));
        assert(dealt::<C>(keys[given[0]], c));
        lemma_view_share_consistent::<C>(
            keys[given[0]],
            views[given[0]],
            keys[l],
            views[l],
            sorted,
            c,
        );
    }
}

/// Lagrange reconstruction and offset absorption, for a signing set given in any order:
/// where each of at least `t` distinct participants holds the view of its keys for the
/// set, the secret shares of their views add up to the secret of the group's key: the
/// constant term of the polynomial dealt, moved by the offset.
///
/// The order of the group is a prime above the participants' indices.
pub proof fn lemma_views_recover_secret<C: Curve>(
    keys: Map<u16, MultisigKeys<C>>,
    views: Map<u16, MultisigView<C>>,
    given: Seq<u16>,
    c: Seq<int>,
)
    requires
        small_units(C::order()),
        given.len() > 0,
        given.no_duplicates(),
        keys[given[0]].spec_params().t() <= given.len(),
        forall|k: int|
            0 <= k < given.len() ==> 1 <= #[trigger] given[k] <= keys[given[0]].spec_params().n(),
        views_of_set::<C>(keys, views, given, c),
    ensures
        view_secrets_sum::<C>(views, sorted_indices(given), given.len()) % C::order() == (c[0]
            + keys[given[0]].offset_val()) % C::order(),
        forall|k: int|
            0 <= k < given.len() ==> C::g_log((#[trigger] keys[given[k]]).spec_group_key()) == (c[0]
                + keys[given[0]].offset_val()) % C::order(),
{
    let first = given[0];
    assert(dealt::<C>(keys[first], c));
    assert(given.contains(first));
    lemma_view_recovers_key::<C>(keys[first], views[first], given, c);
    lemma_sorted_signing_set(keys[first].spec_params(), given);
    lemma_view_secrets_prefix::<C>(keys, views, given, c, given.len());
    assert forall|k: int| 0 <= k < given.len() implies C::g_log(
        (#[trigger] keys[given[k]]).spec_group_key(),
    ) == (c[0] + keys[given[0]].offset_val()) % C::order() by {
        let l = given[k];
        assert(dealt::<C>(keys[l], c));
    }
}

/// A nonce that is zero never signs: the preprocess made of it does not parse, so that
/// signing refuses it and names its participant.
pub proof fn lemma_zero_nonce_refused<C: Curve, A: Algorithm<C>>(nonces: (C::F, C::F), msg: Seq<u8>)
    requires
        preprocess_of::<C, A>(nonces, msg),
        C::f_val(nonces.0) == 0 || C::f_val(nonces.1) == 0,
    ensures
        !preprocess_parses::<C, A>(msg),
{
    lemma_encoded_point::<C>(preprocess_d::<C>(msg));
    lemma_encoded_point::<C>(preprocess_e::<C>(msg));
    C::lemma_point(crate::curve::point_of::<C>(preprocess_d::<C>(msg)));
    C::lemma_point(crate::curve::point_of::<C>(preprocess_e::<C>(msg)));
}

/// Signing: the preprocesses of honest participants are accepted.
///
/// Where there is one preprocess for each participant of the signing set, each that of
/// two nonces other than zero, signing with the Schnorr algorithm returns a share.
pub proof fn lemma_honest_sign<C: Curve, H: Hram<C>>(
    machine: AlgorithmSignMachine<C, Schnorr<C, H>>,
    commitments: Map<u16, Vec<u8>>,
    msg: Seq<u8>,
    nonces: Map<u16, (C::F, C::F)>,
    r: Result<(AlgorithmSignatureMachine<C, Schnorr<C, H>>, Vec<u8>), FrostError>,
)
    requires
        crate::map_failure(
            machine.all_preprocesses(commitments),
            machine.spec_params().spec_view().spec_included(),
        ) is None,
        forall|k: int|
            0 <= k < machine.spec_params().spec_view().spec_included().len() ==> {
                let l = #[trigger] machine.spec_params().spec_view().spec_included()[k];
                &&& preprocess_of::<C, Schnorr<C, H>>(
                    nonces[l],
                    machine.all_preprocesses(commitments)[l],
                )
                &&& C::f_val(nonces[l].0) != 0
                &&& C::f_val(nonces[l].1) != 0
            },
        machine.sign_outcome(commitments, msg, r),
    ensures
        r is Ok,
{
    let included = machine.spec_params().spec_view().spec_included();
    let msgs = machine.all_preprocesses(commitments);
    lemma_honest_preprocesses::<C, Schnorr<C, H>>(included, msgs, nonces, 0);
    assert(sign_failure::<C, Schnorr<C, H>>(included, msgs) is None);
    lemma_schnorr_processed::<C, H>(
        machine.spec_params().spec_algorithm(),
        machine.spec_params().spec_view(),
        msgs,
        machine.transcript(commitments),
        included.len(),
    );
}

/// Whether the participants of a signing set take part in one session of signing with
/// the Schnorr algorithm, all of them honest: each holds keys dealt of the polynomial with
/// the coefficients `c` and moved by one offset, all sign for the same signing set and
/// received the same preprocesses, and each one's preprocess is that of its two nonces,
/// neither of them zero.
pub open spec fn honest_session<C: Curve, H: Hram<C>>(
    c: Seq<int>,
    included: Seq<u16>,
    msgs: Map<u16, Seq<u8>>,
    machines: Map<u16, AlgorithmSignMachine<C, Schnorr<C, H>>>,
    received: Map<u16, Map<u16, Vec<u8>>>,
) -> bool {
    &&& included.len() > 0
    &&& crate::map_failure(msgs, included) is None
    &&& forall|k: int|
        0 <= k < included.len() ==> {
            let l = #[trigger] included[k];
            let machine = machines[l];
            let first = machines[included[0]];
            &&& machine.spec_params().wf()
            &&& machine.spec_params().spec_keys().spec_params().i() == l
            &&& machine.spec_params().spec_keys().spec_params().n()
                == first.spec_params().spec_keys().spec_params().n()
            &&& machine.spec_params().spec_keys().offset_val()
                == first.spec_params().spec_keys().offset_val()
            &&& dealt::<C>(machine.spec_params().spec_keys(), c)
            &&& machine.spec_params().spec_view().spec_included() == included
            &&& machine.all_preprocesses(received[l]) == msgs
            &&& preprocess_of::<C, Schnorr<C, H>>(machine.nonces(), msgs[l])
            &&& C::f_val(machine.nonces().0) != 0
            &&& C::f_val(machine.nonces().1) != 0
        }
}

/// Signing correctness: any signing set of honest participants produces a signature that
/// is valid under the group's key.
///
/// In one session of honest participants, every participant's signing returns a share.
/// Where one of them then receives the shares of the others, its completion returns a
/// signature, and the signature is valid under the group's key, moved by the offset: the
/// key that the secret shares of the set recover.
///
/// The order of the group is a prime above the participants' indices.
pub proof fn lemma_signing_correct<C: Curve, H: Hram<C>>(
    c: Seq<int>,
    included: Seq<u16>,
    msgs: Map<u16, Seq<u8>>,
    machines: Map<u16, AlgorithmSignMachine<C, Schnorr<C, H>>>,
    received: Map<u16, Map<u16, Vec<u8>>>,
    msg: Seq<u8>,
    signed: Map<
        u16,
        Result<(AlgorithmSignatureMachine<C, Schnorr<C, H>>, Vec<u8>), FrostError>,
    >,
    at: int,
    shares: Map<u16, Vec<u8>>,
    r: Result<SchnorrSignature<C>, FrostError>,
)
    requires
        small_units(C::order()),
        honest_session::<C, H>(c, included, msgs, machines, received),
        forall|k: int|
            0 <= k < included.len() ==> (#[trigger] machines[included[k]]).sign_outcome(
                received[included[k]],
                msg,
                signed[included[k]],
            ),
        0 <= at < included.len(),
        signed[included[at]] matches Ok(res) && {
            &&& crate::map_failure(res.0.all_shares(shares), included) is None
            &&& forall|k: int|
                0 <= k < included.len() && k != at ==> (#[trigger] signed[included[k]] matches Ok(
                    other,
                ) ==> res.0.all_shares(shares)[included[k]] == other.1@)
            &&& res.0.complete_outcome(shares, r)
        },
    ensures
        forall|k: int| 0 <= k < included.len() ==> (#[trigger] signed[included[k]]) is Ok,
        r matches Ok(signature) && schnorr_valid(
            C::g_log(machines[included[at]].spec_params().spec_keys().spec_group_key()),
            C::f_val(
                signed[included[at]]->Ok_0.0.spec_params().spec_algorithm().challenge()->Some_0,
            ),
            C::g_log(signature.R),
            C::f_val(signature.s),
            C::order(),
        ),
{
    let q = C::order();
    C::lemma_order();
    let nonces = Map::new(|l: u16| true, |l: u16| machines[l].nonces());
    // every participant's signing returns a share
    assert forall|k: int| 0 <= k < included.len() implies (#[trigger] signed[included[k]]) is Ok by {
        let l = included[k];
        assert(machines[l].spec_params().spec_view().spec_included() == included);
        assert forall|j: int| 0 <= j < included.len() implies {
            let m = #[trigger] machines[l].spec_params().spec_view().spec_included()[j];
            &&& preprocess_of::<C, Schnorr<C, H>>(nonces[m], machines[l].all_preprocesses(received[l])[m])
            &&& C::f_val(nonces[m].0) != 0
            &&& C::f_val(nonces[m].1) != 0
        } by {
            let m = included[j];
            assert(preprocess_of::<C, Schnorr<C, H>>(machines[m].nonces(), msgs[m]));
        }
        lemma_honest_sign::<C, H>(machines[l], received[l], msg, nonces, signed[l]);
    }
    let i = included[at];
    let receiver = machines[i];
    let receiver_next = signed[i]->Ok_0.0;
    let receiver_share = signed[i]->Ok_0.1;
    let all = receiver_next.all_shares(shares);
    let receiver_keys = receiver.spec_params().spec_keys();
    let receiver_view = receiver.spec_params().spec_view();
    assert(receiver.spec_params().wf());
    assert(receiver_next.spec_params().spec_view() == receiver_view);
    // every share answers
    assert forall|k: int| 0 <= k < included.len() implies #[trigger] share_answers::<C, H>(
        receiver_next,
        all,
        k,
    ) by {
        let l = included[k];
        let sender = machines[l];
        assert(signed[l] is Ok);
        let sender_next = signed[l]->Ok_0.0;
        let share = signed[l]->Ok_0.1;
        assert(sender.spec_params().wf());
        let sender_keys = sender.spec_params().spec_keys();
        let sender_view = sender.spec_params().spec_view();
        assert(sender_keys.spec_params().n() == receiver_keys.spec_params().n());
        assert(sender_keys.offset_val() == receiver_keys.offset_val());
        lemma_view_share_consistent::<C>(
            receiver_keys,
            receiver_view,
            sender_keys,
            sender_view,
            included,
            c,
        );
        C::lemma_point_log(sender_view.spec_group_key(), receiver_view.spec_group_key());
        lemma_honest_share::<C, H>(
            sender,
            received[l],
            sender_next,
            share,
            receiver,
            received[i],
            receiver_next,
            receiver_share,
            msg,
            k,
        );
        if k == at {
            assert(all[l] == receiver_next.own_share());
            assert(receiver_next.own_share() == receiver_share@);
        } else {
            assert(all[l] == share@);
        }
    }
    lemma_signature_challenge::<C, H>(receiver, received[i], msg, receiver_next, receiver_share);
    lemma_nonce_sum::<C, Schnorr<C, H>>(receiver, received[i], msg, receiver_next, receiver_share);
    lemma_view_shares_sum::<C>(receiver_keys, receiver_view, included, c);
    lemma_honest_complete::<C, H>(receiver_next, shares, r);
    lemma_signature_verifies::<C, H>(receiver_next, shares, r->Ok_0);
}

} // verus!
