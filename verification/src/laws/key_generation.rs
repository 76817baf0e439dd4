//! Key generation among honest participants ends with keys, on which all agree, and
//! which any signing set can recover the group's secret from; a faulty participant is
//! named.

use crate::curve::{
    batch_verdict, batch_weights, encoded_log, lemma_first_fails, lemma_point_of, point_logs,
    statement_holds, Curve,
};
use crate::interpolation::{
    distinct_indices, lemma_cong_add, lemma_cong_mul, lemma_lagrange_reconstruction, recovered,
    small_units,
};
use crate::key_gen::{
    chunk_at, encodes_point, encodes_scalar, is_share_of, lemma_r1_pok_statement,
    lemma_share_statement, other, others_sum, parsed_commitments, participants_spec,
    r1_commitments_of, r1_commitments_ok, r1_failure, r1_first_failure, r1_message, r1_outcome,
    r1_party_failure, r1_pok_parses, r1_pok_valid, r1_response, r1_statements, r2_failure,
    r2_first_unparsed, r2_keys, r2_outcome, r2_secret, r2_statements, r2_verification_share,
    share_consistent, stripe_log, stripes_spec,
};
use crate::modmath::{
    lemma_add_mod_left, lemma_add_mod_right, lemma_mod_self_difference,
    lemma_poly_eval_congruent, lemma_poly_eval_sum, lemma_poly_eval_zero, poly_eval,
};
use crate::schnorr::lemma_sign_verifies;
use crate::{
    first_missing, lagrange_spec, lemma_first_missing, FrostError, MultisigKeys, MultisigParams,
};
use vstd::prelude::*;

verus! {

/// Whether the messages of the first round are those of honest participants, who dealt
/// the polynomials `polys`: there is one message for each participant from 1 to `n`, made
/// of `t` coefficients and of a nonce, none of them zero.
pub open spec fn honest_round1<C: Curve>(
    context: Seq<u8>,
    params: MultisigParams,
    polys: Map<u16, Seq<int>>,
    msgs: Map<u16, Seq<u8>>,
) -> bool {
    &&& msgs.len() == params.n()
    &&& forall|l: u16| #[trigger] msgs.contains_key(l) <==> 1 <= l <= params.n()
    &&& forall|l: u16|
        1 <= l <= params.n() ==> {
            &&& (#[trigger] polys[l]).len() == params.t()
            &&& forall|k: int| 0 <= k < params.t() ==> 0 < #[trigger] polys[l][k] < C::order()
            &&& exists|r: int|
                0 < r < C::order() && #[trigger] r1_message::<C>(
                    context,
                    params.t(),
                    l,
                    polys[l],
                    r,
                    msgs[l],
                )
        }
}

/// Whether the shares of the second round are those of honest participants, who dealt the
/// polynomials `polys`: each share is the value of its sender's polynomial at `i`, this
/// participant's own is among them, and the commitments are those of the messages of the
/// first round.
pub open spec fn honest_round2<C: Curve>(
    params: MultisigParams,
    polys: Map<u16, Seq<int>>,
    msgs: Map<u16, Seq<u8>>,
    own: C::F,
    commitments: Map<u16, Vec<C::G>>,
    shares: Map<u16, Seq<u8>>,
) -> bool {
    &&& shares.len() == params.n()
    &&& forall|l: u16| #[trigger] shares.contains_key(l) <==> 1 <= l <= params.n()
    &&& C::f_wf(own)
    &&& C::f_val(own) == poly_eval(polys[params.i()], params.i() as int) % C::order()
    &&& shares[params.i()] == C::f_repr(own)
    &&& forall|l: u16|
        1 <= l <= params.n() && l != params.i() ==> is_share_of::<C>(
            #[trigger] shares[l],
            polys[l],
            params.i(),
        )
    &&& r1_commitments_of::<C>(params, msgs, commitments)
}

/// A map with a value for each participant from 1 to `n` misses none of them.
pub proof fn lemma_none_missing<T>(map: Map<u16, T>, n: u16)
    requires
        forall|l: u16| #[trigger] map.contains_key(l) <==> 1 <= l <= n,
    ensures
        first_missing(map, participants_spec(n)) is None,
{
    lemma_first_missing(map, participants_spec(n));
}

/// An honest participant's message of the first round parses, and its proof of knowledge
/// is valid.
pub proof fn lemma_honest_message<C: Curve>(
    context: Seq<u8>,
    t: u16,
    i: u16,
    l: u16,
    poly: Seq<int>,
    r: int,
    msg: Seq<u8>,
)
    requires
        t >= 1,
        poly.len() == t,
        forall|k: int| 0 <= k < t ==> 0 < #[trigger] poly[k] < C::order(),
        0 < r < C::order(),
        r1_message::<C>(context, t, l, poly, r, msg),
    ensures
        r1_party_failure::<C>(t, i, l, msg) is None,
        r1_pok_valid::<C>(context, t, l, msg),
{
    let g = C::g_len_spec() as int;
    let q = C::order();
    C::lemma_order();
    C::lemma_lengths();
    assert(t * g >= 0) by (nonlinear_arith)
        requires
            t >= 0,
            g >= 0,
    ;
    assert forall|k: int| 0 <= k < t implies C::point_encoding(#[trigger] chunk_at(msg, g, k)) by {
        lemma_encoded_point::<C>(chunk_at(msg, g, k));
        assert(encoded_log::<C>(chunk_at(msg, g, k)) == poly[k]);
    }
    lemma_encoded_point::<C>(chunk_at(msg, g, t as int));
    lemma_encoded_scalar::<C>(r1_response::<C>(t, msg));
    assert(r1_commitments_ok::<C>(t, msg));
    assert(r1_pok_parses::<C>(t, msg));
    assert(encoded_log::<C>(chunk_at(msg, g, 0)) == poly[0]);
    lemma_sign_verifies(poly[0], r, crate::key_gen::r1_challenge::<C>(context, t, l, msg), q);
}

/// A byte string that encodes a point other than the identity is a canonical encoding.
pub proof fn lemma_encoded_point<C: Curve>(bytes: Seq<u8>)
    requires
        encodes_point::<C>(bytes),
    ensures
        C::g_wf(crate::curve::point_of::<C>(bytes)),
        C::g_repr(crate::curve::point_of::<C>(bytes)) == bytes,
        encoded_log::<C>(bytes) != 0 ==> C::point_encoding(bytes),
{
    let p = crate::curve::point_of::<C>(bytes);
    C::lemma_point(p);
}

/// A byte string that encodes a scalar is a canonical encoding.
pub proof fn lemma_encoded_scalar<C: Curve>(bytes: Seq<u8>)
    requires
        encodes_scalar::<C>(bytes),
    ensures
        C::f_wf(crate::curve::scalar_of::<C>(bytes)),
        C::f_repr(crate::curve::scalar_of::<C>(bytes)) == bytes,
        C::scalar_encoding(bytes),
        bytes.len() == C::f_len_spec(),
{
    let f = crate::curve::scalar_of::<C>(bytes);
    C::lemma_scalar(f);
}

/// The messages of honest participants pass the first round from `from` on.
pub proof fn lemma_honest_first_failure<C: Curve>(
    context: Seq<u8>,
    params: MultisigParams,
    polys: Map<u16, Seq<int>>,
    msgs: Map<u16, Seq<u8>>,
    from: int,
)
    requires
        params.wf(),
        honest_round1::<C>(context, params, polys, msgs),
        1 <= from <= params.n() + 1,
    ensures
        r1_first_failure::<C>(params.t(), params.i(), msgs, from, params.n() as int) is None,
    decreases params.n() + 1 - from,
{
    if from <= params.n() {
        let l = from as u16;
        assert(polys[l].len() == params.t());
        let r = choose|r: int|
            0 < r < C::order() && #[trigger] r1_message::<C>(
                context,
                params.t(),
                l,
                polys[l],
                r,
                msgs[l],
            );
        lemma_honest_message::<C>(context, params.t(), params.i(), l, polys[l], r, msgs[l]);
        lemma_honest_first_failure::<C>(context, params, polys, msgs, from + 1);
    }
}

/// Key generation, first round: the messages of honest participants are accepted.
///
/// Where every participant made its message of `t` coefficients and of a nonce, none of
/// them zero, the verification of the first round returns the commitments.
pub proof fn lemma_honest_round1<C: Curve>(
    context: Seq<u8>,
    params: MultisigParams,
    polys: Map<u16, Seq<int>>,
    msgs: Map<u16, Seq<u8>>,
    r: Result<Map<u16, Vec<C::G>>, FrostError>,
)
    requires
        params.wf(),
        honest_round1::<C>(context, params, polys, msgs),
        r1_outcome::<C>(context, params, msgs, r),
    ensures
        r matches Ok(commitments) && r1_commitments_of::<C>(params, msgs, commitments),
{
    lemma_none_missing(msgs, params.n());
    lemma_honest_first_failure::<C>(context, params, polys, msgs, 1);
    assert(r1_failure::<C>(params, msgs) is None);
    assert forall|l: u16| 1 <= l <= params.n() && l != params.i() implies #[trigger] r1_pok_valid::<
        C,
    >(context, params.t(), l, msgs[l]) by {
        assert(polys[l].len() == params.t());
        let r = choose|r: int|
            0 < r < C::order() && #[trigger] r1_message::<C>(
                context,
                params.t(),
                l,
                polys[l],
                r,
                msgs[l],
            );
        lemma_honest_message::<C>(context, params.t(), params.i(), l, polys[l], r, msgs[l]);
    }
}

/// The sum of the values at `x` of the polynomials of the participants from 1 to `upto`.
pub open spec fn values_sum(polys: Map<u16, Seq<int>>, x: int, upto: int) -> int
    decreases upto,
{
    if upto <= 0 {
        0
    } else {
        values_sum(polys, x, upto - 1) + poly_eval(polys[upto as u16], x)
    }
}

/// The sums, coefficient by coefficient, of the commitments of the participants from 1 to
/// `upto`.
pub open spec fn stripe_sums<C: Curve>(commitments: Map<u16, Vec<C::G>>, t: u16, upto: int) -> Seq<
    int,
> {
    Seq::new(t as nat, |k: int| stripe_log::<C>(commitments, k, upto))
}

/// The commitments of an honest participant are to the coefficients of its polynomial.
pub proof fn lemma_honest_commitments<C: Curve>(
    context: Seq<u8>,
    params: MultisigParams,
    polys: Map<u16, Seq<int>>,
    msgs: Map<u16, Seq<u8>>,
    commitments: Map<u16, Vec<C::G>>,
    l: u16,
)
    requires
        honest_round1::<C>(context, params, polys, msgs),
        r1_commitments_of::<C>(params, msgs, commitments),
        1 <= l <= params.n(),
    ensures
        point_logs::<C>(commitments[l]@) == polys[l],
{
    let g = C::g_len_spec() as int;
    assert(polys[l].len() == params.t());
    let r = choose|r: int|
        0 < r < C::order() && #[trigger] r1_message::<C>(
            context,
            params.t(),
            l,
            polys[l],
            r,
            msgs[l],
        );
    assert(parsed_commitments::<C>(params.t(), msgs[l], commitments[l]@));
    assert forall|k: int| 0 <= k < params.t() implies C::g_log(#[trigger] commitments[l]@[k])
        == polys[l][k] by {
        lemma_point_of::<C>(commitments[l]@[k]);
        assert(encoded_log::<C>(chunk_at(msgs[l], g, k)) == polys[l][k]);
    }
    assert(point_logs::<C>(commitments[l]@) =~= polys[l]);
}

/// The polynomial whose coefficients are the sums of everyone's commitments has as its
/// value the sum of the values of everyone's polynomial.
pub proof fn lemma_stripes_value<C: Curve>(
    context: Seq<u8>,
    params: MultisigParams,
    polys: Map<u16, Seq<int>>,
    msgs: Map<u16, Seq<u8>>,
    commitments: Map<u16, Vec<C::G>>,
    x: int,
    upto: int,
)
    requires
        honest_round1::<C>(context, params, polys, msgs),
        r1_commitments_of::<C>(params, msgs, commitments),
        0 <= upto <= params.n(),
    ensures
        poly_eval(stripe_sums::<C>(commitments, params.t(), upto), x) == values_sum(
            polys,
            x,
            upto,
        ),
    decreases upto,
{
    let t = params.t();
    if upto == 0 {
        lemma_poly_eval_zero(stripe_sums::<C>(commitments, t, 0), x);
    } else {
        let l = upto as u16;
        lemma_stripes_value::<C>(context, params, polys, msgs, commitments, x, upto - 1);
        lemma_honest_commitments::<C>(context, params, polys, msgs, commitments, l);
        let before = stripe_sums::<C>(commitments, t, upto - 1);
        let now = stripe_sums::<C>(commitments, t, upto);
        assert forall|k: int| 0 <= k < before.len() implies #[trigger] now[k] == before[k]
            + polys[l][k] by {
            assert(point_logs::<C>(commitments[l]@)[k] == C::g_log(commitments[l]@[k]));
        }
        lemma_poly_eval_sum(before, polys[l], now, x);
    }
}

/// The shares that an honest participant holds add up to the sum of the values of
/// everyone's polynomial at its index, modulo the order.
pub proof fn lemma_honest_shares_sum<C: Curve>(
    params: MultisigParams,
    polys: Map<u16, Seq<int>>,
    shares: Map<u16, Seq<u8>>,
    upto: int,
)
    requires
        params.wf(),
        0 <= upto <= params.n(),
        forall|l: u16|
            1 <= l <= params.n() && l != params.i() ==> is_share_of::<C>(
                #[trigger] shares[l],
                polys[l],
                params.i(),
            ),
    ensures
        (others_sum::<C>(shares, params.i(), upto) + if params.i() <= upto {
            poly_eval(polys[params.i()], params.i() as int)
        } else {
            0
        }) % C::order() == values_sum(polys, params.i() as int, upto) % C::order(),
    decreases upto,
{
    let q = C::order();
    let x = params.i() as int;
    C::lemma_order();
    if upto > 0 {
        lemma_honest_shares_sum::<C>(params, polys, shares, upto - 1);
        let l = upto as u16;
        let before = others_sum::<C>(shares, params.i(), upto - 1) + if params.i() <= upto - 1 {
            poly_eval(polys[params.i()], x)
        } else {
            0
        };
        let total = values_sum(polys, x, upto - 1);
        let value = poly_eval(polys[l], x);
        if l == params.i() {
            crate::modmath::lemma_mod_add_congruent(before, total, value, q);
        } else {
            assert(is_share_of::<C>(shares[l], polys[l], params.i()));
            // before + value % q = total + value, modulo q
            lemma_add_mod_right(before, value, q);
            crate::modmath::lemma_mod_add_congruent(before, total, value, q);
        }
    }
}

/// Key generation, second round: the shares of honest participants make keys.
///
/// Where every participant made its message and its shares of a polynomial of `t`
/// coefficients, none of them zero, the completion returns keys.
pub proof fn lemma_honest_round2<C: Curve>(
    context: Seq<u8>,
    params: MultisigParams,
    polys: Map<u16, Seq<int>>,
    msgs: Map<u16, Seq<u8>>,
    own: C::F,
    commitments: Map<u16, Vec<C::G>>,
    shares: Map<u16, Seq<u8>>,
    r: Result<MultisigKeys<C>, FrostError>,
)
    requires
        params.wf(),
        honest_round1::<C>(context, params, polys, msgs),
        honest_round2::<C>(params, polys, msgs, own, commitments, shares),
        r2_outcome::<C>(params, own, commitments, shares, r),
    ensures
        r matches Ok(keys) && r2_keys::<C>(params, own, commitments, shares, keys),
{
    let q = C::order();
    let i = params.i();
    let n = params.n();
    C::lemma_order();
    C::lemma_scalar(own);
    lemma_none_missing(shares, n);
    lemma_honest_unparsed::<C>(params, polys, own, shares, 1);
    assert(r2_failure::<C>(params, shares) is None);
    assert forall|l: u16| 1 <= l <= n && l != i implies #[trigger] share_consistent::<C>(
        i,
        commitments[l]@,
        shares[l],
    ) by {
        lemma_honest_commitments::<C>(context, params, polys, msgs, commitments, l);
        assert(is_share_of::<C>(shares[l], polys[l], i));
        lemma_mod_self_difference(poly_eval(polys[l], i as int), q);
    }
    // the secret share is the value at i of the polynomial that the stripes make
    lemma_honest_shares_sum::<C>(params, polys, shares, n as int);
    lemma_stripes_value::<C>(context, params, polys, msgs, commitments, i as int, n as int);
    let sums = stripe_sums::<C>(commitments, params.t(), n as int);
    let stripes = stripes_spec::<C>(commitments, params.t(), n);
    assert forall|k: int| 0 <= k < sums.len() implies #[trigger] stripes[k] % q == sums[k] % q by {
        vstd::arithmetic::div_mod::lemma_mod_twice(sums[k], q);
    }
    lemma_poly_eval_congruent(stripes, sums, i as int, q);
    lemma_add_mod_right(
        others_sum::<C>(shares, i, n as int),
        poly_eval(polys[i], i as int),
        q,
    );
    assert(r2_secret::<C>(own, shares, params) == r2_verification_share::<C>(
        commitments,
        params,
        i,
    ));
}

/// The shares of honest participants parse, from the participant `from` on.
pub proof fn lemma_honest_unparsed<C: Curve>(
    params: MultisigParams,
    polys: Map<u16, Seq<int>>,
    own: C::F,
    shares: Map<u16, Seq<u8>>,
    from: int,
)
    requires
        params.wf(),
        C::f_wf(own),
        shares[params.i()] == C::f_repr(own),
        forall|l: u16|
            1 <= l <= params.n() && l != params.i() ==> is_share_of::<C>(
                #[trigger] shares[l],
                polys[l],
                params.i(),
            ),
        1 <= from <= params.n() + 1,
    ensures
        r2_first_unparsed::<C>(shares, from, params.n() as int) is None,
    decreases params.n() + 1 - from,
{
    if from <= params.n() {
        let l = from as u16;
        if l == params.i() {
            C::lemma_scalar(own);
        } else {
            assert(is_share_of::<C>(shares[l], polys[l], params.i()));
            lemma_encoded_scalar::<C>(shares[l]);
        }
        lemma_honest_unparsed::<C>(params, polys, own, shares, from + 1);
    }
}

/// The sums of the commitments depend on the commitments' multiples of the generator
/// alone.
pub proof fn lemma_stripe_log_agrees<C: Curve>(
    a: Map<u16, Vec<C::G>>,
    b: Map<u16, Vec<C::G>>,
    k: int,
    upto: int,
)
    requires
        0 <= upto <= u16::MAX,
        forall|l: u16| 1 <= l <= upto ==> (#[trigger] a[l])@[k] == b[l]@[k],
    ensures
        stripe_log::<C>(a, k, upto) == stripe_log::<C>(b, k, upto),
    decreases upto,
{
    if upto > 0 {
        lemma_stripe_log_agrees::<C>(a, b, k, upto - 1);
        assert(a[upto as u16]@[k] == b[upto as u16]@[k]);
    }
}

/// Key generation: all participants agree on the group's key and on everyone's
/// verification share.
///
/// Two participants who finish the key generation on the same messages of the first
/// round hold the same group key and the same verification shares, whatever their own
/// shares were.
pub proof fn lemma_keys_agree<C: Curve>(
    msgs: Map<u16, Seq<u8>>,
    first_params: MultisigParams,
    first_own: C::F,
    first_commitments: Map<u16, Vec<C::G>>,
    first_shares: Map<u16, Seq<u8>>,
    first: MultisigKeys<C>,
    second_params: MultisigParams,
    second_own: C::F,
    second_commitments: Map<u16, Vec<C::G>>,
    second_shares: Map<u16, Seq<u8>>,
    second: MultisigKeys<C>,
)
    requires
        first_params.wf(),
        second_params.wf(),
        first_params.t() == second_params.t(),
        first_params.n() == second_params.n(),
        r1_commitments_of::<C>(first_params, msgs, first_commitments),
        r1_commitments_of::<C>(second_params, msgs, second_commitments),
        r2_keys::<C>(first_params, first_own, first_commitments, first_shares, first),
        r2_keys::<C>(second_params, second_own, second_commitments, second_shares, second),
    ensures
        first.spec_group_key() == second.spec_group_key(),
        first.shares() == second.shares(),
{
    let t = first_params.t();
    let n = first_params.n();
    let a = stripes_spec::<C>(first_commitments, t, n);
    let b = stripes_spec::<C>(second_commitments, t, n);
    assert forall|k: int| 0 <= k < t implies #[trigger] a[k] == b[k] by {
        assert forall|l: u16| 1 <= l <= n implies (#[trigger] first_commitments[l])@[k]
            == second_commitments[l]@[k] by {
            assert(parsed_commitments::<C>(t, msgs[l], first_commitments[l]@));
            assert(parsed_commitments::<C>(t, msgs[l], second_commitments[l]@));
            C::lemma_point_repr(first_commitments[l]@[k], second_commitments[l]@[k]);
        }
        lemma_stripe_log_agrees::<C>(first_commitments, second_commitments, k, n as int);
    }
    assert(a =~= b);
    C::lemma_point_log(first.spec_group_key(), second.spec_group_key());
    assert forall|l: u16| first.shares().contains_key(l) implies first.shares()[l]
        == second.shares()[l] by {
        assert(second.shares().contains_key(l));
        C::lemma_point_log(first.shares()[l], second.shares()[l]);
    }
    assert(first.shares() =~= second.shares());
}

/// Blame in key generation, first round: where the messages parse and one participant's
/// proof of knowledge alone is not valid, an error names that participant.
pub proof fn lemma_blame_proof_of_knowledge<C: Curve>(
    context: Seq<u8>,
    params: MultisigParams,
    msgs: Map<u16, Seq<u8>>,
    faulty: u16,
    e: FrostError,
)
    requires
        r1_outcome::<C>(context, params, msgs, Err(e)),
        r1_failure::<C>(params, msgs) is None,
        forall|l: u16|
            1 <= l <= params.n() && l != params.i() && l != faulty ==> #[trigger] r1_pok_valid::<C>(
                context,
                params.t(),
                l,
                msgs[l],
            ),
    ensures
        e == FrostError::InvalidProofOfKnowledge(faulty),
{
}

/// Blame in key generation, second round: where the shares parse and one participant's
/// share alone is not what it committed to, an error that names a participant names that
/// one.
pub proof fn lemma_blame_commitment<C: Curve>(
    params: MultisigParams,
    own: C::F,
    commitments: Map<u16, Vec<C::G>>,
    shares: Map<u16, Seq<u8>>,
    faulty: u16,
    blamed: u16,
)
    requires
        r2_outcome::<C>(
            params,
            own,
            commitments,
            shares,
            Err(FrostError::InvalidCommitment(blamed)),
        ),
        r2_failure::<C>(params, shares) is None,
        forall|l: u16|
            1 <= l <= params.n() && l != params.i() && l != faulty ==> #[trigger] share_consistent::<
                C,
            >(params.i(), commitments[l]@, shares[l]),
    ensures
        blamed == faulty,
{
}

/// A fault in the first proof that is checked is never hidden: where the messages parse,
/// and of the proofs of knowledge of the others the first in ascending order is not valid
/// while every later one is, the first round ends with the error that names its
/// participant. With two participants the other's proof is thus checked as it stands.
pub proof fn lemma_first_proof_refused<C: Curve>(
    context: Seq<u8>,
    params: MultisigParams,
    msgs: Map<u16, Seq<u8>>,
    r: Result<Map<u16, Vec<C::G>>, FrostError>,
)
    requires
        params.wf(),
        params.n() >= 2,
        r1_outcome::<C>(context, params, msgs, r),
        r1_failure::<C>(params, msgs) is None,
        !r1_pok_valid::<C>(
            context,
            params.t(),
            other(params.i(), 0),
            msgs[other(params.i(), 0)],
        ),
        forall|l: u16|
            1 <= l <= params.n() && l != params.i() && l != other(params.i(), 0)
                ==> #[trigger] r1_pok_valid::<C>(context, params.t(), l, msgs[l]),
    ensures
        r == Err::<Map<u16, Vec<C::G>>, FrostError>(
            FrostError::InvalidProofOfKnowledge(other(params.i(), 0)),
        ),
{
    let q = C::order();
    C::lemma_order();
    let statements = r1_statements::<C>(context, params, msgs);
    let (weights, checked) = choose|weights: Seq<int>, checked: Result<(), u16>|
        {
            &&& batch_weights(weights, (params.n() - 1) as nat, q)
            &&& #[trigger] batch_verdict(statements, weights, q, checked)
            &&& match checked {
                Ok(()) => r is Ok,
                Err(l) => r == Err::<Map<u16, Vec<C::G>>, FrostError>(
                    FrostError::InvalidProofOfKnowledge(l),
                ),
            }
        };
    assert forall|k: int| 0 <= k < statements.len() implies (statement_holds(
        (#[trigger] statements[k]).1,
        q,
    ) <==> k != 0) by {
        let l = other(params.i(), k);
        lemma_r1_pok_statement::<C>(context, params.t(), l, msgs[l]);
        if k != 0 {
            assert(r1_pok_valid::<C>(context, params.t(), l, msgs[l]));
        }
    }
    lemma_first_fails(statements, weights, q, checked);
}

/// A fault in the first share that is checked is never hidden: where the shares parse,
/// and of the shares of the others the first in ascending order is not what its sender
/// committed to while every later one is, the key generation ends with the error that
/// names its sender. With two participants the other's share is thus checked as it stands.
pub proof fn lemma_first_share_refused<C: Curve>(
    params: MultisigParams,
    own: C::F,
    commitments: Map<u16, Vec<C::G>>,
    shares: Map<u16, Seq<u8>>,
    r: Result<MultisigKeys<C>, FrostError>,
)
    requires
        params.wf(),
        params.n() >= 2,
        r2_outcome::<C>(params, own, commitments, shares, r),
        r2_failure::<C>(params, shares) is None,
        !share_consistent::<C>(
            params.i(),
            commitments[other(params.i(), 0)]@,
            shares[other(params.i(), 0)],
        ),
        forall|l: u16|
            1 <= l <= params.n() && l != params.i() && l != other(params.i(), 0)
                ==> #[trigger] share_consistent::<C>(params.i(), commitments[l]@, shares[l]),
    ensures
        r == Err::<MultisigKeys<C>, FrostError>(
            FrostError::InvalidCommitment(other(params.i(), 0)),
        ),
{
    let q = C::order();
    C::lemma_order();
    let statements = r2_statements::<C>(params, commitments, shares);
    let matching = r2_secret::<C>(own, shares, params) == r2_verification_share::<C>(
        commitments,
        params,
        params.i(),
    );
    let (weights, checked) = choose|weights: Seq<int>, checked: Result<(), u16>|
        {
            &&& batch_weights(weights, (params.n() - 1) as nat, q)
            &&& #[trigger] batch_verdict(statements, weights, q, checked)
            &&& match checked {
                Ok(()) => r is Ok <==> matching,
                Err(l) => r == Err::<MultisigKeys<C>, FrostError>(
                    FrostError::InvalidCommitment(l),
                ),
            }
        };
    assert forall|k: int| 0 <= k < statements.len() implies (statement_holds(
        (#[trigger] statements[k]).1,
        q,
    ) <==> k != 0) by {
        let l = other(params.i(), k);
        lemma_share_statement::<C>(params.i(), commitments[l]@, shares[l]);
        if k != 0 {
            assert(share_consistent::<C>(params.i(), commitments[l]@, shares[l]));
        }
    }
    lemma_first_fails(statements, weights, q, checked);
}

/// Whether keys are shares of the polynomial with the coefficients `c`: every
/// verification share is the multiple of the generator by the polynomial's value at its
/// participant, the secret share is the value at this participant, and the group's key is
/// the multiple by the constant term, moved by the offset.
pub open spec fn dealt<C: Curve>(keys: MultisigKeys<C>, c: Seq<int>) -> bool {
    &&& keys.wf()
    &&& c.len() == keys.spec_params().t()
    &&& forall|l: u16|
        1 <= l <= keys.spec_params().n() ==> C::g_log(#[trigger] keys.shares()[l]) == poly_eval(
            c,
            l as int,
        ) % C::order()
    &&& C::f_val(keys.spec_secret_share()) == poly_eval(c, keys.spec_params().i() as int)
        % C::order()
    &&& C::g_log(keys.spec_group_key()) == (c[0] + keys.offset_val()) % C::order()
}

/// The keys that a key generation ends with are shares of the polynomial whose
/// coefficients are the stripes.
pub proof fn lemma_generated_keys_dealt<C: Curve>(
    params: MultisigParams,
    own: C::F,
    commitments: Map<u16, Vec<C::G>>,
    shares: Map<u16, Seq<u8>>,
    keys: MultisigKeys<C>,
)
    requires
        params.wf(),
        r2_keys::<C>(params, own, commitments, shares, keys),
    ensures
        dealt::<C>(keys, stripes_spec::<C>(commitments, params.t(), params.n())),
{
    let q = C::order();
    C::lemma_order();
    let c = stripes_spec::<C>(commitments, params.t(), params.n());
    vstd::arithmetic::div_mod::lemma_mod_twice(
        stripe_log::<C>(commitments, 0, params.n() as int),
        q,
    );
    assert(keys.shares().contains_key(params.i()));
}

/// Offset keys are shares of the same polynomial.
pub proof fn lemma_offset_keys_dealt<C: Curve>(
    keys: MultisigKeys<C>,
    offset: C::F,
    moved: MultisigKeys<C>,
    c: Seq<int>,
)
    requires
        dealt::<C>(keys, c),
        moved.wf(),
        moved.spec_params() == keys.spec_params(),
        moved.spec_secret_share() == keys.spec_secret_share(),
        moved.shares() == keys.shares(),
        moved.offset_val() == (C::f_val(offset) + keys.offset_val()) % C::order(),
        C::g_log(moved.spec_group_key()) == (C::g_log(keys.spec_group_key()) + C::f_val(offset))
            % C::order(),
    ensures
        dealt::<C>(moved, c),
{
    let q = C::order();
    C::lemma_order();
    lemma_add_mod_left(c[0] + keys.offset_val(), C::f_val(offset), q);
    lemma_add_mod_right(c[0], C::f_val(offset) + keys.offset_val(), q);
}

/// What the first `upto` participants of a signing set recover of the group's secret: the
/// sum of their secret shares, each times the Lagrange coefficient of its participant.
pub open spec fn recovered_secret<C: Curve>(
    included: Seq<u16>,
    keys: Map<u16, MultisigKeys<C>>,
    upto: nat,
) -> int
    decreases upto,
{
    if upto == 0 {
        0
    } else {
        recovered_secret::<C>(included, keys, (upto - 1) as nat) + lagrange_spec(
            C::order(),
            included[upto - 1],
            included,
        ) * C::f_val(keys[included[upto - 1]].spec_secret_share())
    }
}

/// What the participants recover of the group's secret is what they recover of the
/// polynomial.
proof fn lemma_recovered_secret<C: Curve>(
    included: Seq<u16>,
    keys: Map<u16, MultisigKeys<C>>,
    c: Seq<int>,
    upto: nat,
)
    requires
        upto <= included.len(),
        forall|k: int|
            0 <= k < included.len() ==> dealt::<C>(#[trigger] keys[included[k]], c)
                && keys[included[k]].spec_params().i() == included[k],
    ensures
        recovered_secret::<C>(included, keys, upto) % C::order() == recovered(
            C::order(),
            included,
            c,
            upto,
        ) % C::order(),
    decreases upto,
{
    let q = C::order();
    C::lemma_order();
    if upto > 0 {
        let k = (upto - 1) as nat;
        let l = included[k as int];
        lemma_recovered_secret::<C>(included, keys, c, k);
        assert(dealt::<C>(keys[included[k as int]], c));
        let lambda = lagrange_spec(q, l, included);
        let share = C::f_val(keys[l].spec_secret_share());
        let value = poly_eval(c, l as int);
        vstd::arithmetic::div_mod::lemma_mod_twice(value, q);
        lemma_cong_mul(lambda, lambda, share, value, q);
        lemma_cong_add(
            recovered_secret::<C>(included, keys, k),
            recovered(q, included, c, k),
            lambda * share,
            lambda * value,
            q,
        );
    }
}

/// Lagrange reconstruction: the secret shares of any signing set of at least `t`
/// participants, each times the Lagrange coefficient of its participant, add up to the
/// group's secret, the scalar whose multiple of the generator is the group's key.
///
/// The keys are shares of one polynomial, as key generation leaves them, without an
/// offset; the order of the group is a prime above the participants' indices, so that
/// every index has an inverse.
pub proof fn lemma_keys_reconstruct<C: Curve>(
    included: Seq<u16>,
    keys: Map<u16, MultisigKeys<C>>,
    c: Seq<int>,
)
    requires
        small_units(C::order()),
        distinct_indices(included),
        c.len() <= included.len(),
        forall|k: int|
            0 <= k < included.len() ==> dealt::<C>(#[trigger] keys[included[k]], c)
                && keys[included[k]].spec_params().i() == included[k] && keys[included[k]].spec_offset() is None,
    ensures
        forall|k: int|
            0 <= k < included.len() ==> recovered_secret::<C>(included, keys, included.len())
                % C::order() == C::g_log(#[trigger] keys[included[k]].spec_group_key()),
{
    let q = C::order();
    C::lemma_order();
    lemma_recovered_secret::<C>(included, keys, c, included.len());
    lemma_lagrange_reconstruction(q, included, c);
    assert forall|k: int| 0 <= k < included.len() implies recovered_secret::<C>(
        included,
        keys,
        included.len(),
    ) % q == C::g_log(#[trigger] keys[included[k]].spec_group_key()) by {
        let these = keys[included[k]];
        assert(dealt::<C>(these, c));
        use_positive_threshold(these);
        assert(poly_eval(c, 0) == c[0] + 0 * poly_eval(c.skip(1), 0));
        assert(0 * poly_eval(c.skip(1), 0) == 0) by (nonlinear_arith);
    }
}

/// The threshold of well-formed keys is at least one.
proof fn use_positive_threshold<C: Curve>(keys: MultisigKeys<C>)
    requires
        keys.wf(),
    ensures
        keys.spec_params().t() >= 1,
{
}

} // verus!
