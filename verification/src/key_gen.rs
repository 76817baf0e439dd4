//! Distributed key generation: every participant deals a polynomial, proves knowledge of
//! its constant term, and hands every other participant the polynomial's value at that
//! participant's index.

use crate::bytes::{append, be16, be16_spec, copy_range};
use crate::curve::{
    batch_of, batch_queued, batch_verdict, batch_weights, encoded_log, encoded_val, f_from_u16,
    f_one, f_zero, lemma_batch_queued, lemma_batch_verdict, lemma_point_of, lemma_scalar_of,
    pairs_model, pairs_wf, point_logs, points_wf, queue, scalar_vals, scalars_wf,
    statement_holds, weighted_total, Curve,
};
use crate::modmath::{
    dot, lemma_add_mod_left, lemma_add_mod_right, lemma_dot3, lemma_dot_push,
    lemma_mod_difference, lemma_mul_mod_left, lemma_poly_eval_horner, lemma_poly_eval_push,
    lemma_reduced, poly_eval, pow,
};
use crate::schnorr::{
    batch_verify, respond, schnorr_valid, triplet_statement, triplet_statements, triplet_valid,
    triplet_wf, SchnorrSignature,
};
use crate::{
    first_missing, lemma_first_missing, validate_map, FrostError, MultisigKeys, MultisigParams,
};
use std::collections::HashMap;
use vstd::prelude::*;
use vstd::slice::slice_subrange;
use vstd::string::StringSliceAdditionalSpecFns;

verus! {

/// The domain separation tag of the proof of knowledge:
/// "FROST Schnorr Proof of Knowledge".
pub open spec fn pok_dst() -> Seq<u8> {
    seq![
        0x46u8, 0x52, 0x4f, 0x53, 0x54, 0x20, 0x53, 0x63, 0x68, 0x6e, 0x6f, 0x72, 0x72, 0x20, 0x50,
        0x72, 0x6f, 0x6f, 0x66, 0x20, 0x6f, 0x66, 0x20, 0x4b, 0x6e, 0x6f, 0x77, 0x6c, 0x65, 0x64,
        0x67, 0x65,
    ]
}

/// The challenge of the proof of knowledge of the participant `l`: the hash of the digest
/// of the context, the index, the nonce commitment `R` and the coefficient commitments
/// `Am`.
#[allow(non_snake_case)]
pub open spec fn challenge_spec<C: Curve>(context: Seq<u8>, l: u16, R: Seq<u8>, Am: Seq<u8>) -> int {
    C::hash_to_f_spec(pok_dst(), C::hash_msg_spec(context) + be16_spec(l) + R + Am)
}

/// The challenge of the proof of knowledge of the participant `l`.
#[allow(non_snake_case)]
pub fn challenge<C: Curve>(context: &str, l: u16, R: &[u8], Am: &[u8]) -> (c: C::F)
    ensures
        C::f_wf(c),
        C::f_val(c) == challenge_spec::<C>(context.spec_bytes(), l, R@, Am@),
{
    let mut dst: Vec<u8> = Vec::new();
    append(
        &mut dst,
        &[
            0x46u8, 0x52, 0x4f, 0x53, 0x54, 0x20, 0x53, 0x63, 0x68, 0x6e, 0x6f, 0x72, 0x72, 0x20,
            0x50, 0x72, 0x6f, 0x6f, 0x66, 0x20, 0x6f, 0x66, 0x20, 0x4b, 0x6e, 0x6f, 0x77, 0x6c,
            0x65, 0x64, 0x67, 0x65,
        ],
    );
    assert(dst@ =~= pok_dst());

    // Uses hash_msg to get a fixed size value out of the context string
    let mut transcript = C::hash_msg(context.as_bytes());
    append(&mut transcript, &be16(l));
    append(&mut transcript, R);
    append(&mut transcript, Am);
    C::hash_to_F(dst.as_slice(), transcript.as_slice())
}

/// The value at `l` of the polynomial with the given coefficients, lowest first.
pub fn polynomial<C: Curve>(coefficients: &[C::F], l: u16) -> (share: C::F)
    requires
        scalars_wf::<C>(coefficients@),
    ensures
        C::f_wf(share),
        C::f_val(share) == poly_eval(scalar_vals::<C>(coefficients@), l as int) % C::order(),
{
    let ghost q = C::order();
    let ghost c = scalar_vals::<C>(coefficients@);
    let ghost x = l as int;
    proof {
        C::lemma_order();
        lemma_reduced(0, q);
        assert(c.skip(c.len() as int) =~= Seq::<int>::empty());
    }
    let point = f_from_u16::<C>(l);
    let mut share = f_zero::<C>();
    if coefficients.len() == 0 {
        assert(c =~= Seq::<int>::empty());
        return share;
    }
    let mut k: usize = coefficients.len();
    // Horner's rule from the highest coefficient down: before each step the share is the
    // value of the coefficients from k on, times l
    assert(x * 0 == 0) by (nonlinear_arith);
    while k > 0
        invariant
            0 <= k <= coefficients@.len(),
            coefficients@.len() > 0,
            q == C::order(),
            q > 0x10000,
            x == l as int,
            c == scalar_vals::<C>(coefficients@),
            scalars_wf::<C>(coefficients@),
            C::f_wf(point),
            C::f_val(point) == x,
            C::f_wf(share),
            k > 0 ==> C::f_val(share) == (x * poly_eval(c.skip(k as int), x)) % q,
            k == 0 ==> C::f_val(share) == poly_eval(c, x) % q,
        decreases k,
    {
        k -= 1;
        let ghost rest = poly_eval(c.skip(k + 1), x);
        proof {
            lemma_poly_eval_horner(c, x, k as int);
            assert(c[k as int] == C::f_val(coefficients@[k as int]));
            lemma_add_mod_left(x * rest, c[k as int], q);
        }
        share = C::f_add(share, coefficients[k]);
        assert(C::f_val(share) == poly_eval(c.skip(k as int), x) % q);
        if k != 0 {
            proof {
                lemma_mul_mod_left(poly_eval(c.skip(k as int), x), x, q);
                assert(poly_eval(c.skip(k as int), x) * x == x * poly_eval(c.skip(k as int), x))
                    by (nonlinear_arith);
            }
            share = C::f_mul(share, point);
        } else {
            assert(c.skip(0) =~= c);
        }
    }
    share
}

/// The `k`-th chunk of `g` bytes of a message.
pub open spec fn chunk_at(msg: Seq<u8>, g: int, k: int) -> Seq<u8> {
    msg.subrange(k * g, k * g + g)
}

/// Whether a byte string is the encoding of a point, the identity included.
pub open spec fn encodes_point<C: Curve>(bytes: Seq<u8>) -> bool {
    exists|p: C::G| C::g_wf(p) && C::g_repr(p) == bytes
}

/// Whether a byte string is the encoding of a scalar.
pub open spec fn encodes_scalar<C: Curve>(bytes: Seq<u8>) -> bool {
    exists|f: C::F| C::f_wf(f) && C::f_repr(f) == bytes
}

/// The length of a participant's message of the first round, for the threshold `t`: `t`
/// commitments, and a proof of knowledge made of a point and a scalar.
pub open spec fn r1_len<C: Curve>(t: u16) -> int {
    t * C::g_len_spec() + C::g_len_spec() + C::f_len_spec()
}

/// The commitments of a message of the first round, as one byte string.
pub open spec fn r1_commitments<C: Curve>(t: u16, msg: Seq<u8>) -> Seq<u8> {
    msg.subrange(0, t * C::g_len_spec())
}

/// The response of the proof of knowledge in a message of the first round.
pub open spec fn r1_response<C: Curve>(t: u16, msg: Seq<u8>) -> Seq<u8> {
    msg.subrange(t * C::g_len_spec() + C::g_len_spec(), msg.len() as int)
}

/// The challenge that the proof of knowledge in the message of `l` answers.
pub open spec fn r1_challenge<C: Curve>(context: Seq<u8>, t: u16, l: u16, msg: Seq<u8>) -> int {
    challenge_spec::<C>(
        context,
        l,
        chunk_at(msg, C::g_len_spec() as int, t as int),
        r1_commitments::<C>(t, msg),
    )
}

/// Whether the proof of knowledge in the message of `l` is valid: a Schnorr signature
/// under the commitment to the constant term.
pub open spec fn r1_pok_valid<C: Curve>(context: Seq<u8>, t: u16, l: u16, msg: Seq<u8>) -> bool {
    schnorr_valid(
        encoded_log::<C>(chunk_at(msg, C::g_len_spec() as int, 0)),
        r1_challenge::<C>(context, t, l, msg),
        encoded_log::<C>(chunk_at(msg, C::g_len_spec() as int, t as int)),
        encoded_val::<C>(r1_response::<C>(t, msg)),
        C::order(),
    )
}

/// Whether `msg` is the message of the first round that the participant `i` makes of the
/// coefficients and of the nonce `r`: the commitments to the coefficients, the commitment
/// to the nonce, and the response `r + a_0·c` to the challenge `c`.
pub open spec fn r1_message<C: Curve>(
    context: Seq<u8>,
    t: u16,
    i: u16,
    coefficients: Seq<int>,
    r: int,
    msg: Seq<u8>,
) -> bool {
    let g = C::g_len_spec() as int;
    &&& msg.len() == r1_len::<C>(t)
    &&& forall|k: int|
        0 <= k < t ==> encodes_point::<C>(#[trigger] chunk_at(msg, g, k)) && encoded_log::<C>(
            chunk_at(msg, g, k),
        ) == coefficients[k]
    &&& encodes_point::<C>(chunk_at(msg, g, t as int))
    &&& encoded_log::<C>(chunk_at(msg, g, t as int)) == r
    &&& encodes_scalar::<C>(r1_response::<C>(t, msg))
    &&& encoded_val::<C>(r1_response::<C>(t, msg)) == (r + coefficients[0] * r1_challenge::<C>(
        context,
        t,
        i,
        msg,
    )) % C::order()
}

/// Appending to a message leaves the chunks that it already has.
pub proof fn lemma_chunk_append(msg: Seq<u8>, more: Seq<u8>, g: int, k: int)
    requires
        0 <= k,
        0 <= g,
        k * g + g <= msg.len(),
    ensures
        chunk_at(msg + more, g, k) == chunk_at(msg, g, k),
{
    assert(k * g >= 0) by (nonlinear_arith)
        requires
            0 <= k,
            0 <= g,
    ;
    assert(chunk_at(msg + more, g, k) =~= chunk_at(msg, g, k));
}

/// A chunk appended to `k` chunks is the `k`-th chunk.
pub proof fn lemma_chunk_last(msg: Seq<u8>, more: Seq<u8>, g: int, k: int)
    requires
        msg.len() == k * g,
        more.len() >= g,
        0 <= g,
        0 <= k,
    ensures
        chunk_at(msg + more, g, k) == more.subrange(0, g),
{
    assert(chunk_at(msg + more, g, k) =~= more.subrange(0, g));
}

/// Chunks do not overlap: an earlier chunk ends where a later one starts, or before.
pub proof fn lemma_chunk_order(g: int, j: int, k: int)
    requires
        0 <= g,
        0 <= j < k,
    ensures
        0 <= j * g,
        j * g + g <= k * g,
{
    assert(0 <= j * g && j * g + g <= k * g) by (nonlinear_arith)
        requires
            0 <= g,
            0 <= j < k,
    ;
}

/// Implements steps 1 through 3 of round 1 of the key generation, with the random values
/// given: commits to the coefficients, proves knowledge of the first with the nonce `r`,
/// and returns the message to be broadcast over an authenticated channel to all parties.
pub fn commit_coefficients<C: Curve>(
    params: &MultisigParams,
    context: &str,
    coefficients: &Vec<C::F>,
    r: C::F,
) -> (serialized: Vec<u8>)
    requires
        coefficients@.len() == params.t(),
        scalars_wf::<C>(coefficients@),
        C::f_wf(r),
    ensures
        r1_message::<C>(
            context.spec_bytes(),
            params.t(),
            params.i(),
            scalar_vals::<C>(coefficients@),
            C::f_val(r),
            serialized@,
        ),
{
    let ghost g = C::g_len_spec() as int;
    let ghost q = C::order();
    let ghost vals = scalar_vals::<C>(coefficients@);
    proof {
        use_type_invariant(params);
        C::lemma_order();
        C::lemma_lengths();
    }
    let t = params.t() as usize;
    let generator = C::generator();
    let mut serialized: Vec<u8> = Vec::new();
    let mut k: usize = 0;
    assert(0 * g == 0) by (nonlinear_arith);
    while k < t
        invariant
            k <= t,
            t == params.t(),
            t == coefficients@.len(),
            scalars_wf::<C>(coefficients@),
            vals == scalar_vals::<C>(coefficients@),
            g == C::g_len_spec(),
            0 < g <= 255,
            q == C::order(),
            q > 0x10000,
            C::g_wf(generator),
            C::g_log(generator) == 1,
            serialized@.len() == k * g,
            forall|j: int|
                0 <= j < k ==> encodes_point::<C>(#[trigger] chunk_at(serialized@, g, j))
                    && encoded_log::<C>(chunk_at(serialized@, g, j)) == vals[j],
        decreases t - k,
    {
        // Generate public commitments, and serialize them for publication
        let commitment = C::g_mul(generator, coefficients[k]);
        let bytes = C::G_to_bytes(&commitment);
        let ghost before = serialized@;
        proof {
            C::lemma_point(commitment);
            C::lemma_scalar(coefficients@[k as int]);
            lemma_point_of::<C>(commitment);
            lemma_reduced(vals[k as int], q);
            assert(1 * vals[k as int] == vals[k as int]) by (nonlinear_arith);
        }
        append(&mut serialized, bytes.as_slice());
        proof {
            assert((k + 1) * g == k * g + g) by (nonlinear_arith);
            assert forall|j: int| 0 <= j < k + 1 implies encodes_point::<C>(
                #[trigger] chunk_at(serialized@, g, j),
            ) && encoded_log::<C>(chunk_at(serialized@, g, j)) == vals[j] by {
                if j < k {
                    lemma_chunk_order(g, j, k as int);
                    lemma_chunk_append(before, bytes@, g, j);
                    assert(encodes_point::<C>(chunk_at(before, g, j)));
                } else {
                    lemma_chunk_last(before, bytes@, g, k as int);
                    assert(bytes@.subrange(0, g) =~= bytes@);
                }
            }
        }
        k += 1;
    }

    // Provide a proof of knowledge
    let nonce_commitment = C::g_mul(generator, r);
    let nonce_bytes = C::G_to_bytes(&nonce_commitment);
    let c = challenge::<C>(context, params.i(), nonce_bytes.as_slice(), serialized.as_slice());
    let signature = SchnorrSignature::<C> {
        R: nonce_commitment,
        s: respond::<C>(coefficients[0], r, c),
    };
    let ghost commitments = serialized@;
    let signed = signature.serialize();
    append(&mut serialized, signed.as_slice());
    proof {
        let msg = serialized@;
        C::lemma_point(signature.R);
        C::lemma_point(nonce_commitment);
        C::lemma_scalar(signature.s);
        C::lemma_scalar(r);
        lemma_reduced(C::f_val(r), q);
        assert(1 * C::f_val(r) == C::f_val(r)) by (nonlinear_arith);
        lemma_point_of::<C>(signature.R);
        lemma_point_of::<C>(nonce_commitment);
        lemma_scalar_of::<C>(signature.s);
        assert(vals[0] == C::f_val(coefficients@[0]));
        assert forall|j: int| 0 <= j < t implies encodes_point::<C>(
            #[trigger] chunk_at(msg, g, j),
        ) && encoded_log::<C>(chunk_at(msg, g, j)) == vals[j] by {
            lemma_chunk_order(g, j, t as int);
            lemma_chunk_append(commitments, signed@, g, j);
            assert(encodes_point::<C>(chunk_at(commitments, g, j)));
        }
        lemma_chunk_last(commitments, signed@, g, t as int);
        assert(signed@.subrange(0, g) =~= C::g_repr(signature.R));
        assert(r1_response::<C>(params.t(), msg) =~= C::f_repr(signature.s));
        assert(r1_commitments::<C>(params.t(), msg) =~= commitments);
        assert(msg.len() == r1_len::<C>(params.t()));
        assert(chunk_at(msg, g, t as int) == C::g_repr(signature.R));
        assert(encodes_point::<C>(chunk_at(msg, g, t as int)));
        assert(encoded_log::<C>(chunk_at(msg, g, t as int)) == C::f_val(r));
        assert(encodes_scalar::<C>(r1_response::<C>(params.t(), msg)));
        assert(C::g_repr(signature.R) == nonce_bytes@);
        assert(r1_challenge::<C>(context.spec_bytes(), params.t(), params.i(), msg) == C::f_val(c));
        assert(encoded_val::<C>(r1_response::<C>(params.t(), msg)) == (C::f_val(r) + vals[0]
            * C::f_val(c)) % q);
    }
    serialized
}

/// Implements steps 1 through 3 of round 1 of the key generation: draws the `t`
/// coefficients of a polynomial and a nonce, and returns the coefficients and the message
/// to be broadcast over an authenticated channel to all parties.
pub fn generate_key_r1<C: Curve>(
    rng: &mut rand_core::OsRng,
    params: &MultisigParams,
    context: &str,
) -> (res: (Vec<C::F>, Vec<u8>))
    ensures
        res.0@.len() == params.t(),
        scalars_wf::<C>(res.0@),
        exists|r: int|
            r1_message::<C>(
                context.spec_bytes(),
                params.t(),
                params.i(),
                scalar_vals::<C>(res.0@),
                r,
                res.1@,
            ),
{
    let t = params.t() as usize;
    let mut coefficients: Vec<C::F> = Vec::new();
    while coefficients.len() < t
        invariant
            coefficients@.len() <= t,
            scalars_wf::<C>(coefficients@),
        decreases t - coefficients@.len(),
    {
        // Generate t random values to form a polynomial with
        coefficients.push(C::f_random(rng));
    }
    // This could be deterministic as the PoK is a singleton never opened up to cooperative
    // discussion
    let r = C::f_random(rng);
    let serialized = commit_coefficients::<C>(params, context, &coefficients, r);
    let res = (coefficients, serialized);
    assert(r1_message::<C>(
        context.spec_bytes(),
        params.t(),
        params.i(),
        scalar_vals::<C>(res.0@),
        C::f_val(r),
        res.1@,
    ));
    res
}

/// The indices of the participants, from 1 to `n`.
pub open spec fn participants_spec(n: u16) -> Seq<u16> {
    Seq::new(n as nat, |k: int| (k + 1) as u16)
}

/// The indices of the participants, from 1 to `n`.
pub fn participants(n: u16) -> (r: Vec<u16>)
    ensures
        r@ == participants_spec(n),
{
    let mut r: Vec<u16> = Vec::new();
    let mut l: u32 = 1;
    while l <= n as u32
        invariant
            1 <= l <= n + 1,
            r@.len() == l - 1,
            forall|k: int| 0 <= k < r@.len() ==> r@[k] == (k + 1) as u16,
        decreases n + 1 - l,
    {
        r.push(l as u16);
        l += 1;
    }
    assert(r@ =~= participants_spec(n));
    r
}

/// Whether the commitments of a message of the first round parse: the message holds `t`
/// chunks, each the canonical encoding of a point other than the identity.
pub open spec fn r1_commitments_ok<C: Curve>(t: u16, msg: Seq<u8>) -> bool {
    let g = C::g_len_spec() as int;
    &&& msg.len() >= t * g
    &&& forall|k: int| 0 <= k < t ==> C::point_encoding(#[trigger] chunk_at(msg, g, k))
}

/// Whether the proof of knowledge of a message of the first round parses: the message
/// has the length of a message, and after the commitments hold the canonical encodings of a
/// point other than the identity and of a scalar.
pub open spec fn r1_pok_parses<C: Curve>(t: u16, msg: Seq<u8>) -> bool {
    &&& msg.len() == r1_len::<C>(t)
    &&& C::point_encoding(chunk_at(msg, C::g_len_spec() as int, t as int))
    &&& C::scalar_encoding(r1_response::<C>(t, msg))
}

/// Why the message of the participant `l` does not parse, where it does not. This
/// participant's own proof of knowledge is not looked at.
pub open spec fn r1_party_failure<C: Curve>(t: u16, i: u16, l: u16, msg: Seq<u8>) -> Option<
    FrostError,
> {
    if !r1_commitments_ok::<C>(t, msg) {
        Some(FrostError::InvalidCommitment(l))
    } else if l != i && !r1_pok_parses::<C>(t, msg) {
        Some(FrostError::InvalidProofOfKnowledge(l))
    } else {
        None
    }
}

/// The first failure to parse among the messages of the participants from `from` to `n`.
pub open spec fn r1_first_failure<C: Curve>(
    t: u16,
    i: u16,
    msgs: Map<u16, Seq<u8>>,
    from: int,
    n: int,
) -> Option<FrostError>
    decreases n + 1 - from,
{
    if from > n {
        None
    } else {
        match r1_party_failure::<C>(t, i, from as u16, msgs[from as u16]) {
            Some(e) => Some(e),
            None => r1_first_failure::<C>(t, i, msgs, from + 1, n),
        }
    }
}

/// Why the messages of the first round are refused before any proof of knowledge is
/// checked, where they are: there is not one message for each participant, or one does not
/// parse.
pub open spec fn r1_failure<C: Curve>(params: MultisigParams, msgs: Map<u16, Seq<u8>>) -> Option<
    FrostError,
> {
    if msgs.len() != params.n() {
        Some(FrostError::InvalidParticipantQuantity(params.n() as usize, msgs.len() as usize))
    } else if let Some(l) = first_missing(msgs, participants_spec(params.n())) {
        Some(FrostError::MissingParticipant(l))
    } else {
        r1_first_failure::<C>(params.t(), params.i(), msgs, 1, params.n() as int)
    }
}

/// Whether `points` are the commitments that a message of the first round holds.
pub open spec fn parsed_commitments<C: Curve>(t: u16, msg: Seq<u8>, points: Seq<C::G>) -> bool {
    &&& points.len() == t
    &&& forall|k: int|
        0 <= k < t ==> C::g_wf(#[trigger] points[k]) && C::g_repr(points[k]) == chunk_at(
            msg,
            C::g_len_spec() as int,
            k,
        )
}

/// Whether `commitments` holds, for each participant from 1 to `n`, the commitments of its
/// message.
pub open spec fn r1_commitments_of<C: Curve>(
    params: MultisigParams,
    msgs: Map<u16, Seq<u8>>,
    commitments: Map<u16, Vec<C::G>>,
) -> bool {
    &&& forall|l: u16| #[trigger] commitments.contains_key(l) <==> 1 <= l <= params.n()
    &&& forall|l: u16|
        1 <= l <= params.n() ==> parsed_commitments::<C>(
            params.t(),
            msgs[l],
            (#[trigger] commitments[l])@,
        )
}

/// The `k`-th of the participants other than `i`, in ascending order, counted from 0.
pub open spec fn other(i: u16, k: int) -> u16 {
    if k + 1 < i {
        (k + 1) as u16
    } else {
        (k + 2) as u16
    }
}

/// How many participants other than `i` come before `l`.
pub open spec fn others_before(i: u16, l: int) -> int {
    if l <= i {
        l - 1
    } else {
        l - 2
    }
}

/// The statement that the proof of knowledge in the message of `l` is valid, as the batch
/// holds it: `R + c·A − s·G` is the identity.
pub open spec fn r1_pok_statement<C: Curve>(context: Seq<u8>, t: u16, l: u16, msg: Seq<u8>) -> Seq<
    (int, int),
> {
    seq![
        (1int, encoded_log::<C>(chunk_at(msg, C::g_len_spec() as int, t as int))),
        (
            r1_challenge::<C>(context, t, l, msg),
            encoded_log::<C>(chunk_at(msg, C::g_len_spec() as int, 0)),
        ),
        ((-encoded_val::<C>(r1_response::<C>(t, msg))) % C::order(), 1int),
    ]
}

/// A proof's statement holds exactly where the proof of knowledge is valid.
pub proof fn lemma_r1_pok_statement<C: Curve>(context: Seq<u8>, t: u16, l: u16, msg: Seq<u8>)
    ensures
        statement_holds(r1_pok_statement::<C>(context, t, l, msg), C::order()) <==> r1_pok_valid::<
            C,
        >(context, t, l, msg),
{
    let q = C::order();
    C::lemma_order();
    let r = encoded_log::<C>(chunk_at(msg, C::g_len_spec() as int, t as int));
    let c = r1_challenge::<C>(context, t, l, msg);
    let a = encoded_log::<C>(chunk_at(msg, C::g_len_spec() as int, 0));
    let s = encoded_val::<C>(r1_response::<C>(t, msg));
    lemma_dot3((1int, r), (c, a), ((-s) % q, 1int));
    assert(1 * r + c * a + ((-s) % q) * 1 == (r + c * a) + (-s) % q) by (nonlinear_arith);
    lemma_add_mod_right(r + c * a, -s, q);
    lemma_mod_difference(r + c * a, s, q);
}

/// The statements that the first round's batch is given: for each participant other than
/// this one, in ascending order and under its index, that its proof of knowledge is valid.
pub open spec fn r1_statements<C: Curve>(
    context: Seq<u8>,
    params: MultisigParams,
    msgs: Map<u16, Seq<u8>>,
) -> Seq<(u16, Seq<(int, int)>)> {
    Seq::new(
        (params.n() - 1) as nat,
        |k: int|
            (
                other(params.i(), k),
                r1_pok_statement::<C>(
                    context,
                    params.t(),
                    other(params.i(), k),
                    msgs[other(params.i(), k)],
                ),
            ),
    )
}

/// What the verification of the first round may return, given the messages with this
/// participant's own among them.
///
/// Where the messages are refused before the proofs are checked, that error. Else the
/// proofs of knowledge of the others are checked in a batch, which weights the statements:
/// the first by 1, the others at random. The commitments are returned exactly where the
/// weighted statements add up to the identity, and else the error names a participant
/// whose weighted statement does not. So where all proofs are valid the commitments are
/// returned, and an error names a participant whose proof is not valid.
pub open spec fn r1_outcome<C: Curve>(
    context: Seq<u8>,
    params: MultisigParams,
    msgs: Map<u16, Seq<u8>>,
    r: Result<Map<u16, Vec<C::G>>, FrostError>,
) -> bool {
    let failure = r1_failure::<C>(params, msgs);
    &&& match r {
        Ok(commitments) => failure is None && r1_commitments_of::<C>(params, msgs, commitments),
        Err(e) => failure == Some(e) || (failure is None && exists|l: u16|
            1 <= l <= params.n() && l != params.i() && e == FrostError::InvalidProofOfKnowledge(l)
                && !#[trigger] r1_pok_valid::<C>(context, params.t(), l, msgs[l])),
    }
    &&& (failure is None && forall|l: u16|
        1 <= l <= params.n() && l != params.i() ==> #[trigger] r1_pok_valid::<C>(
            context,
            params.t(),
            l,
            msgs[l],
        )) ==> r is Ok
    &&& failure is None ==> exists|weights: Seq<int>, checked: Result<(), u16>|
        {
            &&& batch_weights(weights, (params.n() - 1) as nat, C::order())
            &&& #[trigger] batch_verdict(
                r1_statements::<C>(context, params, msgs),
                weights,
                C::order(),
                checked,
            )
            &&& match checked {
                Ok(()) => r is Ok,
                Err(l) => r == Err::<Map<u16, Vec<C::G>>, FrostError>(
                    FrostError::InvalidProofOfKnowledge(l),
                ),
            }
        }
}

/// Every participant from 1 to `n` has a message where none is missing.
pub proof fn lemma_participants_present<T>(msgs: Map<u16, T>, n: u16, l: u16)
    requires
        first_missing(msgs, participants_spec(n)) is None,
        1 <= l <= n,
    ensures
        msgs.contains_key(l),
{
    lemma_first_missing(msgs, participants_spec(n));
    assert(participants_spec(n)[l - 1] == l);
}

/// Verify the received data from the first round of key generation.
pub fn verify_r1<C: Curve>(
    rng: &mut rand_core::OsRng,
    params: &MultisigParams,
    context: &str,
    our_commitments: Vec<u8>,
    serialized: HashMap<u16, Vec<u8>>,
) -> (r: Result<HashMap<u16, Vec<C::G>>, FrostError>)
    ensures
        r1_outcome::<C>(
            context.spec_bytes(),
            *params,
            bytes_of(serialized@).insert(params.i(), our_commitments@),
            viewed(r),
        ),
{
    proof {
        use_type_invariant(params);
    }
    let ghost msgs = bytes_of(serialized@).insert(params.i(), our_commitments@);
    let mut received = serialized;
    let everyone = participants(params.n());
    let validated = validate_map(
        &mut received,
        everyone.as_slice(),
        (params.i(), our_commitments),
    );
    proof {
        assert(msgs =~= bytes_of(received@));
        assert(msgs.dom() =~= received@.dom());
        lemma_first_missing_same_keys(msgs, received@, participants_spec(params.n()));
    }
    match validated {
        Ok(()) => {},
        Err(e) => {
            return Err(e);
        },
    }
    let ghost ctx = context.spec_bytes();
    let ghost g = C::g_len_spec() as int;
    let ghost q = C::order();
    proof {
        C::lemma_lengths();
        C::lemma_order();
    }
    let t = params.t() as usize;
    let n = params.n();
    let g_len = C::G_len();
    let f_len = C::F_len();
    assert(t * g_len <= 65535 * 255) by (nonlinear_arith)
        requires
            0 <= t <= 65535,
            0 < g_len <= 255,
    ;
    let commitments_len = t * g_len;
    let ghost upfront = r1_first_failure::<C>(params.t(), params.i(), msgs, 1, n as int);
    assert(r1_failure::<C>(*params, msgs) == upfront);

    let mut commitments: HashMap<u16, Vec<C::G>> =
        HashMap::new();
    let mut signatures: Vec<(u16, C::G, C::F, SchnorrSignature<C>)> = Vec::new();
    let mut l: u32 = 1;
    while l <= n as u32
        invariant
            1 <= l <= n + 1,
            params.wf(),
            n == params.n(),
            t == params.t(),
            msgs == bytes_of(received@),
            msgs == bytes_of(serialized@).insert(params.i(), our_commitments@),
            ctx == context.spec_bytes(),
            g == C::g_len_spec(),
            g_len == g,
            f_len == C::f_len_spec(),
            0 < g <= 255,
            0 < f_len <= 255,
            q == C::order(),
            q > 0x10000,
            commitments_len == t * g,
            commitments_len <= 65535 * 255,
            first_missing(received@, participants_spec(n)) is None,
            r1_failure::<C>(*params, msgs) == upfront,
            upfront == r1_first_failure::<C>(params.t(), params.i(), msgs, l as int, n as int),
            forall|k: u16| #[trigger] commitments@.contains_key(k) <==> 1 <= k < l,
            forall|k: u16|
                1 <= k < l ==> parsed_commitments::<C>(
                    params.t(),
                    msgs[k],
                    (#[trigger] commitments@[k])@,
                ),
            signatures@.len() == others_before(params.i(), l as int),
            forall|j: int|
                0 <= j < signatures@.len() ==> {
                    let id = (#[trigger] signatures@[j]).0;
                    &&& 1 <= id < l
                    &&& id != params.i()
                    &&& id == other(params.i(), j)
                    &&& triplet_wf(signatures@[j])
                    &&& triplet_valid(signatures@[j]) <==> r1_pok_valid::<C>(
                        ctx,
                        params.t(),
                        id,
                        msgs[id],
                    )
                    &&& triplet_statement(signatures@[j]) == r1_pok_statement::<C>(
                        ctx,
                        params.t(),
                        id,
                        msgs[id],
                    )
                },
        decreases n + 1 - l,
    {
        let index = l as u16;
        proof {
            lemma_participants_present(received@, n, index);
        }
        let msg = match received.get(&index) {
            Some(msg) => msg,
            None => vstd::pervasive::unreached(),
        };
        let ghost here = r1_party_failure::<C>(params.t(), params.i(), index, msg@);
        assert(here is Some ==> upfront == here);
        if msg.len() < commitments_len {
            assert(!r1_commitments_ok::<C>(params.t(), msg@));
            return Err(FrostError::InvalidCommitment(index));
        }
        let mut these_commitments: Vec<C::G> = Vec::new();
        let mut c: usize = 0;
        while c < t
            invariant
                c <= t,
                t == params.t(),
                g == C::g_len_spec(),
                g_len == g,
                0 < g <= 255,
                commitments_len == t * g,
                msg@.len() >= commitments_len,
                these_commitments@.len() == c,
                forall|k: int|
                    0 <= k < c ==> C::g_wf(#[trigger] these_commitments@[k]) && C::g_repr(
                        these_commitments@[k],
                    ) == chunk_at(msg@, g, k),
                forall|k: int| 0 <= k < c ==> C::point_encoding(#[trigger] chunk_at(msg@, g, k)),
                here == r1_party_failure::<C>(params.t(), params.i(), index, msg@),
                here is Some ==> upfront == here,
                r1_failure::<C>(*params, msgs) == upfront,
                msgs == bytes_of(serialized@).insert(params.i(), our_commitments@),
            decreases t - c,
        {
            proof {
                lemma_chunk_order(g, c as int, t as int);
                assert((c + 1) * g == c * g + g) by (nonlinear_arith);
            }
            let bytes = slice_subrange(msg.as_slice(), c * g_len, (c + 1) * g_len);
            assert(bytes@ == chunk_at(msg@, g, c as int));
            match C::G_from_slice(bytes) {
                Ok(point) => {
                    these_commitments.push(point);
                },
                Err(_) => {
                    assert(!C::point_encoding(chunk_at(msg@, g, c as int)));
                    assert(!r1_commitments_ok::<C>(params.t(), msg@));
                    return Err(FrostError::InvalidCommitment(index));
                },
            }
            c += 1;
        }
        assert(r1_commitments_ok::<C>(params.t(), msg@));

        // Don't bother validating our own proof of knowledge
        if index != params.i() {
            // Validate each proof of knowledge
            // This is solely the prep step for the latter batch verification
            if msg.len() != commitments_len + g_len + f_len {
                return Err(FrostError::InvalidProofOfKnowledge(index));
            }
            let nonce_bytes = slice_subrange(
                msg.as_slice(),
                commitments_len,
                commitments_len + g_len,
            );
            let commitment_bytes = slice_subrange(msg.as_slice(), 0, commitments_len);
            let response_bytes = slice_subrange(
                msg.as_slice(),
                commitments_len + g_len,
                msg.len(),
            );
            let nonce = match C::G_from_slice(nonce_bytes) {
                Ok(nonce) => nonce,
                Err(_) => {
                    return Err(FrostError::InvalidProofOfKnowledge(index));
                },
            };
            let response = match C::F_from_slice(response_bytes) {
                Ok(response) => response,
                Err(_) => {
                    return Err(FrostError::InvalidProofOfKnowledge(index));
                },
            };
            let challenge = challenge::<C>(context, index, nonce_bytes, commitment_bytes);
            let triplet = (
                index,
                these_commitments[0],
                challenge,
                SchnorrSignature::<C> { R: nonce, s: response },
            );
            proof {
                lemma_point_of::<C>(these_commitments@[0]);
                lemma_point_of::<C>(nonce);
                lemma_scalar_of::<C>(response);
                assert(0 * g == 0) by (nonlinear_arith);
                assert(triplet_valid(triplet) <==> r1_pok_valid::<C>(
                    ctx,
                    params.t(),
                    index,
                    msg@,
                ));
                assert(triplet_statement(triplet) =~= r1_pok_statement::<C>(
                    ctx,
                    params.t(),
                    index,
                    msg@,
                ));
            }
            signatures.push(triplet);
        }
        assert(here is None);
        commitments.insert(index, these_commitments);
        l += 1;
    }

    let checked = batch_verify::<C>(rng, signatures.as_slice());
    proof {
        assert(upfront is None);
        if forall|k: u16|
            1 <= k <= params.n() && k != params.i() ==> #[trigger] r1_pok_valid::<C>(
                ctx,
                params.t(),
                k,
                msgs[k],
            ) {
            assert forall|j: int| 0 <= j < signatures@.len() implies triplet_valid(
                #[trigger] signatures@[j],
            ) by {
                let id = signatures@[j].0;
                assert(r1_pok_valid::<C>(ctx, params.t(), id, msgs[id]));
            }
        }
    }
    proof {
        if let Err(blamed) = checked {
            let j = choose|j: int|
                0 <= j < signatures@.len() && (#[trigger] signatures@[j]).0 == blamed
                    && !triplet_valid(signatures@[j]);
            assert(!r1_pok_valid::<C>(ctx, params.t(), blamed, msgs[blamed]));
        }
        let weights = choose|weights: Seq<int>|
            #[trigger] batch_weights(weights, signatures@.len(), q) && batch_verdict(
                triplet_statements(signatures@),
                weights,
                q,
                checked,
            );
        assert(triplet_statements(signatures@) =~= r1_statements::<C>(ctx, *params, msgs));
        assert(batch_verdict(r1_statements::<C>(ctx, *params, msgs), weights, q, checked));
    }
    proofs_checked(checked, commitments)
}

/// What the first round ends with, given what the check of the proofs of knowledge
/// returned: the commitments where it passed, and else the participant that it blames.
pub fn proofs_checked<T>(checked: Result<(), u16>, commitments: T) -> (r: Result<T, FrostError>)
    ensures
        match checked {
            Ok(()) => r == Ok::<T, FrostError>(commitments),
            Err(blamed) => r == Err::<T, FrostError>(FrostError::InvalidProofOfKnowledge(blamed)),
        },
{
    match checked {
        Ok(()) => Ok(commitments),
        Err(blamed) => Err(FrostError::InvalidProofOfKnowledge(blamed)),
    }
}

/// What the check of the shares against their commitments ends with, given what the batch
/// returned: the participant that it blames is the one whose share is not what it
/// committed to.
pub fn shares_checked(checked: Result<(), u16>) -> (r: Result<(), FrostError>)
    ensures
        match checked {
            Ok(()) => r is Ok,
            Err(blamed) => r == Err::<(), FrostError>(FrostError::InvalidCommitment(blamed)),
        },
{
    match checked {
        Ok(()) => Ok(()),
        Err(blamed) => Err(FrostError::InvalidCommitment(blamed)),
    }
}

/// The powers of `x` from the 0th to the `n - 1`th, reduced modulo `q`, each paired with
/// the element of `values` at its place.
pub open spec fn exponential_spec(x: int, values: Seq<int>, q: int) -> Seq<(int, int)> {
    Seq::new(values.len(), |k: int| (pow(x, k as nat) % q, values[k]))
}

/// The sum of the products of the powers of `x` with the values is the polynomial with
/// the values as coefficients, at `x`, modulo `q`.
pub proof fn lemma_exponential(x: int, values: Seq<int>, q: int)
    requires
        q > 0,
    ensures
        dot(exponential_spec(x, values, q)) % q == poly_eval(values, x) % q,
    decreases values.len(),
{
    if values.len() == 0 {
        assert(exponential_spec(x, values, q) =~= Seq::<(int, int)>::empty());
    } else {
        let front = values.drop_last();
        let last = values.last();
        let k = front.len();
        lemma_exponential(x, front, q);
        assert(exponential_spec(x, values, q).drop_last() =~= exponential_spec(x, front, q));
        assert(values =~= front.push(last));
        lemma_poly_eval_push(front, last, x);
        let e = exponential_spec(x, values, q);
        let d = dot(exponential_spec(x, front, q));
        let p = poly_eval(front, x);
        let a = (pow(x, k) % q) * last;
        let b = last * pow(x, k);
        assert(e.last() == (pow(x, k) % q, last));
        assert(dot(e) == d + a);
        assert(poly_eval(values, x) == p + b);
        lemma_mul_mod_left(pow(x, k), last, q);
        assert(pow(x, k) * last == last * pow(x, k)) by (nonlinear_arith);
        assert(a % q == b % q);
        lemma_add_mod_left(d, a, q);
        lemma_add_mod_left(p, a, q);
        lemma_add_mod_right(p, a, q);
        lemma_add_mod_right(p, b, q);
    }
}

/// Pairs each point with the power of `i` at its place: the first with 1, the second with
/// `i`, the third with `i²`, and so on.
///
/// Used with a participant's commitments to verify its secret share, and with the stripes
/// to generate the verification shares.
pub fn exponential<C: Curve>(i: u16, values: &[C::G]) -> (res: Vec<(C::F, C::G)>)
    requires
        points_wf::<C>(values@),
    ensures
        res@.len() == values@.len(),
        pairs_wf::<C>(res@),
        pairs_model::<C>(res@) == exponential_spec(
            i as int,
            point_logs::<C>(values@),
            C::order(),
        ),
{
    let ghost q = C::order();
    proof {
        C::lemma_order();
        lemma_reduced(1, q);
    }
    let point = f_from_u16::<C>(i);
    let mut exp = f_one::<C>();
    let mut res: Vec<(C::F, C::G)> = Vec::new();
    let mut k: usize = 0;
    while k < values.len()
        invariant
            k <= values@.len(),
            q == C::order(),
            q > 0x10000,
            points_wf::<C>(values@),
            C::f_wf(point),
            C::f_val(point) == i,
            C::f_wf(exp),
            C::f_val(exp) == pow(i as int, k as nat) % q,
            res@.len() == k,
            forall|j: int|
                0 <= j < k ==> C::f_wf((#[trigger] res@[j]).0) && C::g_wf(res@[j].1) && res@[j].1
                    == values@[j] && C::f_val(res@[j].0) == pow(i as int, j as nat) % q,
        decreases values@.len() - k,
    {
        res.push((exp, values[k]));
        proof {
            lemma_mul_mod_left(pow(i as int, k as nat), i as int, q);
            assert(pow(i as int, (k + 1) as nat) == pow(i as int, k as nat) * i) by {
                assert(pow(i as int, (k + 1) as nat) == i * pow(i as int, k as nat));
                assert(i * pow(i as int, k as nat) == pow(i as int, k as nat) * i)
                    by (nonlinear_arith);
            }
        }
        exp = C::f_mul(exp, point);
        k += 1;
    }
    assert(pairs_model::<C>(res@) =~= exponential_spec(
        i as int,
        point_logs::<C>(values@),
        q,
    ));
    res
}

/// Whether a byte string is the share of the participant `l` in the polynomial with the
/// given coefficients: the canonical encoding of the polynomial's value at `l`.
pub open spec fn is_share_of<C: Curve>(bytes: Seq<u8>, coefficients: Seq<int>, l: u16) -> bool {
    &&& C::scalar_encoding(bytes)
    &&& encodes_scalar::<C>(bytes)
    &&& encoded_val::<C>(bytes) == poly_eval(coefficients, l as int) % C::order()
}

/// Whether `shares` holds, for each participant but this one, its share in the polynomial
/// with the given coefficients.
pub open spec fn r2_shares_of<C: Curve>(
    params: MultisigParams,
    coefficients: Seq<int>,
    shares: Map<u16, Vec<u8>>,
) -> bool {
    &&& forall|l: u16| #[trigger]
        shares.contains_key(l) <==> 1 <= l <= params.n() && l != params.i()
    &&& forall|l: u16|
        1 <= l <= params.n() && l != params.i() ==> is_share_of::<C>(
            (#[trigger] shares[l])@,
            coefficients,
            l,
        )
}

/// The verification of the first round as it shows in the result of the second.
pub open spec fn r1_part<C: Curve>(
    r: Result<
        (C::F, HashMap<u16, Vec<C::G>>, HashMap<u16, Vec<u8>>),
        FrostError,
    >,
) -> Result<Map<u16, Vec<C::G>>, FrostError> {
    match r {
        Ok(res) => Ok(res.1@),
        Err(e) => Err(e),
    }
}

/// Implements round 1, step 5 and round 2, step 1 of the key generation: verifies the
/// messages of the first round, then evaluates the polynomial for everyone.
///
/// Returns our secret share part, commitments for the next step, and a vector for each
/// counterparty to receive.
pub fn generate_key_r2<C: Curve>(
    rng: &mut rand_core::OsRng,
    params: &MultisigParams,
    context: &str,
    coefficients: Vec<C::F>,
    our_commitments: Vec<u8>,
    commitments: HashMap<u16, Vec<u8>>,
) -> (r: Result<
    (C::F, HashMap<u16, Vec<C::G>>, HashMap<u16, Vec<u8>>),
    FrostError,
>)
    requires
        scalars_wf::<C>(coefficients@),
    ensures
        r1_outcome::<C>(
            context.spec_bytes(),
            *params,
            bytes_of(commitments@).insert(params.i(), our_commitments@),
            r1_part::<C>(r),
        ),
        r matches Ok(res) ==> {
            &&& C::f_wf(res.0)
            &&& C::f_val(res.0) == poly_eval(
                scalar_vals::<C>(coefficients@),
                params.i() as int,
            ) % C::order()
            &&& r2_shares_of::<C>(*params, scalar_vals::<C>(coefficients@), res.2@)
        },
{
    let commitments = match verify_r1::<C>(rng, params, context, our_commitments, commitments) {
        Ok(commitments) => commitments,
        Err(e) => {
            return Err(e);
        },
    };
    let ghost vals = scalar_vals::<C>(coefficients@);
    proof {
        use_type_invariant(params);
    }

    // Generate secret shares for all other parties
    let mut res: HashMap<u16, Vec<u8>> = HashMap::new();
    let n = params.n();
    let mut l: u32 = 1;
    while l <= n as u32
        invariant
            1 <= l <= n + 1,
            n == params.n(),
            params.wf(),
            scalars_wf::<C>(coefficients@),
            vals == scalar_vals::<C>(coefficients@),
            forall|k: u16| #[trigger] res@.contains_key(k) <==> 1 <= k < l && k != params.i(),
            forall|k: u16|
                1 <= k < l && k != params.i() ==> is_share_of::<C>((#[trigger] res@[k])@, vals, k),
        decreases n + 1 - l,
    {
        let index = l as u16;
        // Don't insert our own shares to the byte buffer which is meant to be sent around
        // An app developer could accidentally send it. Best to keep this black boxed
        if index != params.i() {
            let share = polynomial::<C>(coefficients.as_slice(), index);
            proof {
                C::lemma_scalar(share);
                lemma_scalar_of::<C>(share);
            }
            res.insert(index, C::F_to_bytes(&share));
        }
        l += 1;
    }

    // Calculate our own share
    let share = polynomial::<C>(coefficients.as_slice(), params.i());
    Ok((share, commitments, res))
}

/// Whether the commitments kept from the first round are complete: `t` points for each
/// participant from 1 to `n`.
pub open spec fn commitments_wf<C: Curve>(
    params: MultisigParams,
    commitments: Map<u16, Vec<C::G>>,
) -> bool {
    forall|l: u16|
        1 <= l <= params.n() ==> #[trigger] commitments.contains_key(l) && commitments[l]@.len()
            == params.t() && points_wf::<C>(commitments[l]@)
}

/// The sum of the `k`-th commitments of the participants from 1 to `upto`, as multiples of
/// the generator.
pub open spec fn stripe_log<C: Curve>(commitments: Map<u16, Vec<C::G>>, k: int, upto: int) -> int
    decreases upto,
{
    if upto <= 0 {
        0
    } else {
        stripe_log::<C>(commitments, k, upto - 1) + C::g_log(commitments[upto as u16]@[k])
    }
}

/// The stripes: for each coefficient, the sum of everyone's commitment to it, reduced.
pub open spec fn stripes_spec<C: Curve>(commitments: Map<u16, Vec<C::G>>, t: u16, n: u16) -> Seq<
    int,
> {
    Seq::new(t as nat, |k: int| stripe_log::<C>(commitments, k, n as int) % C::order())
}

/// The sum of the shares received from the participants from 1 to `upto`, this one's own
/// left out.
pub open spec fn others_sum<C: Curve>(shares: Map<u16, Seq<u8>>, i: u16, upto: int) -> int
    decreases upto,
{
    if upto <= 0 {
        0
    } else {
        others_sum::<C>(shares, i, upto - 1) + if upto == i {
            0
        } else {
            encoded_val::<C>(shares[upto as u16])
        }
    }
}

/// The first participant from `from` to `n` whose share is not the canonical encoding of
/// a scalar.
pub open spec fn r2_first_unparsed<C: Curve>(shares: Map<u16, Seq<u8>>, from: int, n: int) -> Option<
    u16,
>
    decreases n + 1 - from,
{
    if from > n {
        None
    } else if !(shares[from as u16].len() == C::f_len_spec() && C::scalar_encoding(
        shares[from as u16],
    )) {
        Some(from as u16)
    } else {
        r2_first_unparsed::<C>(shares, from + 1, n)
    }
}

/// Why the shares of the second round are refused before any is checked against the
/// commitments, where they are: there is not one for each participant, or one does not
/// parse.
pub open spec fn r2_failure<C: Curve>(params: MultisigParams, shares: Map<u16, Seq<u8>>) -> Option<
    FrostError,
> {
    if shares.len() != params.n() {
        Some(FrostError::InvalidParticipantQuantity(params.n() as usize, shares.len() as usize))
    } else if let Some(l) = first_missing(shares, participants_spec(params.n())) {
        Some(FrostError::MissingParticipant(l))
    } else if let Some(l) = r2_first_unparsed::<C>(shares, 1, params.n() as int) {
        Some(FrostError::InvalidShare(l))
    } else {
        None
    }
}

/// Whether a share is what its sender committed to: the sender's polynomial, as its
/// commitments fix it, has the share as its value at `i`.
pub open spec fn share_consistent<C: Curve>(i: u16, commitments: Seq<C::G>, share: Seq<u8>) -> bool {
    (poly_eval(point_logs::<C>(commitments), i as int) - encoded_val::<C>(share)) % C::order()
        == 0
}

/// The secret share that key generation ends with: this participant's own value of its
/// polynomial plus the shares received from the others.
pub open spec fn r2_secret<C: Curve>(own: C::F, shares: Map<u16, Seq<u8>>, params: MultisigParams) -> int {
    (C::f_val(own) + others_sum::<C>(shares, params.i(), params.n() as int)) % C::order()
}

/// The verification share of `l` that key generation ends with: the value at `l` of the
/// polynomial whose coefficients are the stripes.
pub open spec fn r2_verification_share<C: Curve>(
    commitments: Map<u16, Vec<C::G>>,
    params: MultisigParams,
    l: u16,
) -> int {
    poly_eval(stripes_spec::<C>(commitments, params.t(), params.n()), l as int) % C::order()
}

/// Whether keys are those that the commitments and shares of a key generation make.
pub open spec fn r2_keys<C: Curve>(
    params: MultisigParams,
    own: C::F,
    commitments: Map<u16, Vec<C::G>>,
    shares: Map<u16, Seq<u8>>,
    keys: MultisigKeys<C>,
) -> bool {
    &&& keys.wf()
    &&& keys.spec_params() == params
    &&& keys.spec_offset() is None
    &&& C::f_val(keys.spec_secret_share()) == r2_secret::<C>(own, shares, params)
    &&& C::g_log(keys.spec_group_key()) == stripes_spec::<C>(commitments, params.t(), params.n())[0]
    &&& forall|l: u16|
        1 <= l <= params.n() ==> C::g_log(#[trigger] keys.shares()[l]) == r2_verification_share::<C>(
            commitments,
            params,
            l,
        )
    &&& C::g_log(keys.shares()[params.i()]) == C::f_val(keys.spec_secret_share())
}

/// The statements that the second round's batch is given: for each participant other
/// than this one, in ascending order and under its index, that its share is what it
/// committed to.
pub open spec fn r2_statements<C: Curve>(
    params: MultisigParams,
    commitments: Map<u16, Vec<C::G>>,
    shares: Map<u16, Seq<u8>>,
) -> Seq<(u16, Seq<(int, int)>)> {
    Seq::new(
        (params.n() - 1) as nat,
        |k: int|
            (
                other(params.i(), k),
                share_statement::<C>(
                    params.i(),
                    commitments[other(params.i(), k)]@,
                    encoded_val::<C>(shares[other(params.i(), k)]),
                ),
            ),
    )
}

/// What the completion of the key generation may return, given the shares with this
/// participant's own among them.
///
/// Where the shares are refused before they are checked, that error. Else the shares of
/// the others are checked against their commitments in a batch, which weights the
/// statements: the first by 1, the others at random. Where the weighted statements do not
/// add up to the identity, an `InvalidCommitment` names a participant whose weighted
/// statement does not. Where they do, the secret share made of the shares is checked
/// against its verification share: the keys where it matches, and else an internal error.
/// So where all of it holds the keys are returned, and an `InvalidCommitment` names a
/// participant whose share is not what it committed to.
pub open spec fn r2_outcome<C: Curve>(
    params: MultisigParams,
    own: C::F,
    commitments: Map<u16, Vec<C::G>>,
    shares: Map<u16, Seq<u8>>,
    r: Result<MultisigKeys<C>, FrostError>,
) -> bool {
    let failure = r2_failure::<C>(params, shares);
    let matching = r2_secret::<C>(own, shares, params) == r2_verification_share::<C>(
        commitments,
        params,
        params.i(),
    );
    &&& match r {
        Ok(keys) => failure is None && r2_keys::<C>(params, own, commitments, shares, keys),
        Err(e) => {
            ||| failure == Some(e)
            ||| failure is None && exists|l: u16|
                1 <= l <= params.n() && l != params.i() && e == FrostError::InvalidCommitment(l)
                    && !#[trigger] share_consistent::<C>(params.i(), commitments[l]@, shares[l])
            ||| failure is None && !matching && (e matches FrostError::InternalError(why) && why@
                == "secret share does not match its verification share"@)
        },
    }
    &&& (failure is None && matching && forall|l: u16|
        1 <= l <= params.n() && l != params.i() ==> #[trigger] share_consistent::<C>(
            params.i(),
            commitments[l]@,
            shares[l],
        )) ==> r is Ok
    &&& failure is None ==> exists|weights: Seq<int>, checked: Result<(), u16>|
        {
            &&& batch_weights(weights, (params.n() - 1) as nat, C::order())
            &&& #[trigger] batch_verdict(
                r2_statements::<C>(params, commitments, shares),
                weights,
                C::order(),
                checked,
            )
            &&& match checked {
                Ok(()) => r is Ok <==> matching,
                Err(l) => r == Err::<MultisigKeys<C>, FrostError>(
                    FrostError::InvalidCommitment(l),
                ),
            }
        }
}

/// The statement that a share is what its sender committed to, as the batch holds it:
/// `Σ i^k·C_k − s·G` is the identity.
pub open spec fn share_statement<C: Curve>(i: u16, commitments: Seq<C::G>, share: int) -> Seq<
    (int, int),
> {
    exponential_spec(i as int, point_logs::<C>(commitments), C::order()).push(
        ((-share) % C::order(), 1int),
    )
}

/// A share's statement holds exactly where the share is what its sender committed to.
pub proof fn lemma_share_statement<C: Curve>(i: u16, commitments: Seq<C::G>, share: Seq<u8>)
    ensures
        statement_holds(
            share_statement::<C>(i, commitments, encoded_val::<C>(share)),
            C::order(),
        ) <==> share_consistent::<C>(i, commitments, share),
{
    let q = C::order();
    C::lemma_order();
    let s = encoded_val::<C>(share);
    let logs = point_logs::<C>(commitments);
    let pairs = exponential_spec(i as int, logs, q);
    lemma_dot_push(pairs, ((-s) % q, 1int));
    lemma_exponential(i as int, logs, q);
    assert(((-s) % q) * 1 == (-s) % q) by (nonlinear_arith);
    lemma_add_mod_right(dot(pairs), -s, q);
    lemma_add_mod_left(dot(pairs), -s, q);
    lemma_add_mod_left(poly_eval(logs, i as int), -s, q);
}

/// The pairs that state that a share is what its sender committed to: the sender's
/// commitments with the powers of `i`, and the generator with the share negated.
pub fn share_check<C: Curve>(i: u16, commitments: &[C::G], share: C::F) -> (values: Vec<
    (C::F, C::G),
>)
    requires
        points_wf::<C>(commitments@),
        C::f_wf(share),
    ensures
        values@.len() > 0,
        pairs_wf::<C>(values@),
        pairs_model::<C>(values@) == share_statement::<C>(
            i,
            commitments@,
            C::f_val(share),
        ),
{
    let mut values = exponential::<C>(i, commitments);
    let ghost before = values@;
    values.push((C::f_neg(share), C::generator()));
    proof {
        assert(pairs_model::<C>(before) == exponential_spec(
            i as int,
            point_logs::<C>(commitments@),
            C::order(),
        ));
        assert(pairs_model::<C>(values@) =~= share_statement::<C>(
            i,
            commitments@,
            C::f_val(share),
        ));
        assert forall|j: int| 0 <= j < values@.len() implies C::f_wf(#[trigger] values@[j].0)
            && C::g_wf(values@[j].1) by {
            if j < before.len() {
                assert(values@[j] == before[j]);
                assert(C::f_wf(before[j].0));
            }
        }
    }
    values
}

/// Finishes round 2 and returns the keys.
///
/// These keys are not usable until all parties confirm they have completed the protocol
/// without issue, yet simply confirming protocol completion without issue is enough to
/// confirm the same key was generated as long as a lack of duplicated commitments was also
/// confirmed when they were broadcasted initially.
pub fn complete_r2<C: Curve>(
    rng: &mut rand_core::OsRng,
    params: MultisigParams,
    secret_share: C::F,
    commitments: HashMap<u16, Vec<C::G>>,
    serialized: HashMap<u16, Vec<u8>>,
) -> (r: Result<MultisigKeys<C>, FrostError>)
    requires
        C::f_wf(secret_share),
        commitments_wf::<C>(params, commitments@),
    ensures
        r2_outcome::<C>(
            params,
            secret_share,
            commitments@,
            bytes_of(serialized@).insert(params.i(), C::f_repr(secret_share)),
            r,
        ),
{
    proof {
        use_type_invariant(&params);
    }
    let own = secret_share;
    let own_bytes = C::F_to_bytes(&own);
    let ghost shares = bytes_of(serialized@).insert(params.i(), C::f_repr(secret_share));
    let mut received = serialized;
    let everyone = participants(params.n());
    let validated = validate_map(
        &mut received,
        everyone.as_slice(),
        (params.i(), own_bytes),
    );
    proof {
        assert(shares =~= bytes_of(received@));
        assert(shares.dom() =~= received@.dom());
        lemma_first_missing_same_keys(shares, received@, participants_spec(params.n()));
    }
    match validated {
        Ok(()) => {},
        Err(e) => {
            return Err(e);
        },
    }
    let ghost q = C::order();
    proof {
        C::lemma_order();
        C::lemma_lengths();
    }
    let n = params.n();
    let me = params.i();
    let t = params.t() as usize;

    // Read each share
    let mut parsed: Vec<C::F> = Vec::new();
    let mut l: u32 = 1;
    while l <= n as u32
        invariant
            1 <= l <= n + 1,
            n == params.n(),
            shares == bytes_of(received@),
            shares == bytes_of(serialized@).insert(params.i(), C::f_repr(secret_share)),
            first_missing(shares, participants_spec(n)) is None,
            first_missing(received@, participants_spec(n)) is None,
            shares.len() == n,
            r2_first_unparsed::<C>(shares, 1, n as int) == r2_first_unparsed::<C>(
                shares,
                l as int,
                n as int,
            ),
            parsed@.len() == l - 1,
            forall|k: int|
                0 <= k < parsed@.len() ==> C::f_wf(#[trigger] parsed@[k]) && C::f_val(parsed@[k])
                    == encoded_val::<C>(shares[(k + 1) as u16]),
        decreases n + 1 - l,
    {
        let index = l as u16;
        proof {
            lemma_participants_present(received@, n, index);
        }
        let bytes = match received.get(&index) {
            Some(bytes) => bytes,
            None => vstd::pervasive::unreached(),
        };
        match C::F_from_slice(bytes.as_slice()) {
            Ok(share) => {
                proof {
                    lemma_scalar_of::<C>(share);
                }
                parsed.push(share);
            },
            Err(_) => {
                return Err(FrostError::InvalidShare(index));
            },
        }
        l += 1;
    }
    assert(r2_failure::<C>(params, shares) is None);

    // Verify each share, and add them up
    let mut total = own;
    proof {
        C::lemma_scalar(own);
        lemma_reduced(C::f_val(own), q);
    }
    let mut batch = C::batch_new(parsed.len());
    let ghost mut statements = Seq::<(u16, Seq<(int, int)>)>::empty();
    let ghost mut weights = Seq::<int>::empty();
    let mut l: u32 = 1;
    while l <= n as u32
        invariant
            1 <= l <= n + 1,
            n == params.n(),
            me == params.i(),
            params.wf(),
            q == C::order(),
            q > 0x10000,
            commitments_wf::<C>(params, commitments@),
            parsed@.len() == n,
            forall|k: int|
                0 <= k < parsed@.len() ==> C::f_wf(#[trigger] parsed@[k]) && C::f_val(parsed@[k])
                    == encoded_val::<C>(shares[(k + 1) as u16]),
            C::f_wf(own),
            C::f_wf(total),
            C::f_val(total) == (C::f_val(own) + others_sum::<C>(shares, me, l - 1)) % q,
            statements.len() == others_before(me, l as int),
            batch_of(C::batch_entries(&batch), statements, weights, q),
            forall|j: int|
                0 <= j < statements.len() ==> {
                    let id = (#[trigger] statements[j]).0;
                    &&& 1 <= id < l
                    &&& id != me
                    &&& id == other(me, j)
                    &&& statements[j].1 == share_statement::<C>(
                        me,
                        commitments@[id]@,
                        encoded_val::<C>(shares[id]),
                    )
                },
        decreases n + 1 - l,
    {
        let index = l as u16;
        if index != me {
            let share = parsed[(l - 1) as usize];
            proof {
                lemma_add_mod_left(
                    C::f_val(own) + others_sum::<C>(shares, me, l - 1),
                    C::f_val(share),
                    q,
                );
            }
            total = C::f_add(total, share);

            // This can be insecurely linearized from n * t to just n using the below sums for
            // a given stripe. Doing so uses naive addition which is subject to malleability.
            // The only way to ensure that malleability isn't present is to use this n * t
            // algorithm, which runs per sender and not as an aggregate of all senders, which
            // also enables blame
            assert(commitments@.contains_key(index));
            let theirs = match commitments.get(&index) {
                Some(theirs) => theirs,
                None => vstd::pervasive::unreached(),
            };
            let values = share_check::<C>(me, theirs.as_slice(), share);
            assert(forall|x: int|
                0 <= x < values@.len() ==> C::f_wf(#[trigger] values@[x].0) && C::g_wf(
                    values@[x].1,
                ));
            let ghost before = C::batch_entries(&batch);
            let ghost statement = pairs_model::<C>(values@);
            queue::<C>(&mut batch, rng, index, values);
            proof {
                let after = C::batch_entries(&batch);
                let u = choose|u: int| batch_queued(before, after, index, statement, u, q);
                lemma_batch_queued(before, after, statements, weights, index, statement, u, q);
                statements = statements.push((index, statement));
                weights = weights.push(u);
            }
        }
        l += 1;
    }
    let ghost entries = C::batch_entries(&batch);
    let ghost queued = r2_statements::<C>(params, commitments@, shares);
    proof {
        assert(statements =~= queued);
        if n == 1 {
            assert(weighted_total(queued, weights, 0) == 0);
            assert(0int % q == 0);
            assert(batch_verdict(queued, weights, q, Ok(())));
        }
    }
    if n > 1 {
        proof {
            assert forall|j: int| 0 <= j < entries.len() implies (#[trigger] entries[j]).1.len()
                > 0 by {
                let id = statements[j].0;
                assert(statements[j].1 == share_statement::<C>(
                    me,
                    commitments@[id]@,
                    encoded_val::<C>(shares[id]),
                ));
            }
        }
        let checked = C::batch_verify(&batch);
        proof {
            lemma_batch_verdict(entries, statements, weights, q, checked);
            if forall|k: u16|
                1 <= k <= params.n() && k != params.i() ==> #[trigger] share_consistent::<C>(
                    params.i(),
                    commitments@[k]@,
                    shares[k],
                ) {
                assert forall|j: int|
                    0 <= j < statements.len() implies statement_holds(
                    (#[trigger] statements[j]).1,
                    q,
                ) by {
                    let id = statements[j].0;
                    assert(share_consistent::<C>(me, commitments@[id]@, shares[id]));
                    lemma_share_statement::<C>(me, commitments@[id]@, shares[id]);
                }
            }
        }
        proof {
            if let Err(blamed) = checked {
                let j = choose|j: int|
                    0 <= j < statements.len() && (#[trigger] statements[j]).0 == blamed
                        && !statement_holds(statements[j].1, q);
                lemma_share_statement::<C>(me, commitments@[blamed]@, shares[blamed]);
                assert(!share_consistent::<C>(me, commitments@[blamed]@, shares[blamed]));
            }
        }
        match shares_checked(checked) {
            Ok(()) => {},
            Err(e) => {
                return Err(e);
            },
        }
    }
    assert(batch_verdict(queued, weights, q, Ok(())));

    // Stripe commitments per t and sum them in advance. Calculating verification shares
    // relies on these sums so preprocessing them is a massive speedup
    let mut stripes: Vec<C::G> = Vec::new();
    let mut k: usize = 0;
    while k < t
        invariant
            k <= t,
            t == params.t(),
            n == params.n(),
            params.wf(),
            q == C::order(),
            q > 0x10000,
            commitments_wf::<C>(params, commitments@),
            stripes@.len() == k,
            forall|j: int|
                0 <= j < k ==> C::g_wf(#[trigger] stripes@[j]) && C::g_log(stripes@[j])
                    == stripe_log::<C>(commitments@, j, n as int) % q,
        decreases t - k,
    {
        assert(commitments@.contains_key(1u16));
        let first = match commitments.get(&1u16) {
            Some(first) => first,
            None => vstd::pervasive::unreached(),
        };
        let mut stripe = first[k];
        proof {
            C::lemma_point(stripe);
            lemma_reduced(C::g_log(stripe), q);
            assert(stripe_log::<C>(commitments@, k as int, 1) == C::g_log(stripe)) by {
                assert(stripe_log::<C>(commitments@, k as int, 0) == 0);
            }
        }
        let mut l: u32 = 2;
        while l <= n as u32
            invariant
                2 <= l <= n + 1,
                k < t,
                t == params.t(),
                n == params.n(),
                q == C::order(),
                q > 0x10000,
                commitments_wf::<C>(params, commitments@),
                C::g_wf(stripe),
                C::g_log(stripe) == stripe_log::<C>(commitments@, k as int, l - 1) % q,
            decreases n + 1 - l,
        {
            let index = l as u16;
            assert(commitments@.contains_key(index));
            let theirs = match commitments.get(&index) {
                Some(theirs) => theirs,
                None => vstd::pervasive::unreached(),
            };
            proof {
                lemma_add_mod_left(
                    stripe_log::<C>(commitments@, k as int, l - 1),
                    C::g_log(theirs@[k as int]),
                    q,
                );
            }
            stripe = C::g_add(stripe, theirs[k]);
            l += 1;
        }
        stripes.push(stripe);
        k += 1;
    }
    assert(point_logs::<C>(stripes@) =~= stripes_spec::<C>(commitments@, params.t(), n));

    // Calculate each user's verification share
    let mut verification_shares: HashMap<u16, C::G> =
        HashMap::new();
    let mut l: u32 = 1;
    while l <= n as u32
        invariant
            1 <= l <= n + 1,
            n == params.n(),
            t == params.t(),
            t > 0,
            stripes@.len() == t,
            points_wf::<C>(stripes@),
            q == C::order(),
            q > 0,
            point_logs::<C>(stripes@) == stripes_spec::<C>(commitments@, params.t(), n),
            forall|k: u16| #[trigger] verification_shares@.contains_key(k) <==> 1 <= k < l,
            forall|k: u16|
                1 <= k < l ==> C::g_wf(#[trigger] verification_shares@[k]) && C::g_log(
                    verification_shares@[k],
                ) == r2_verification_share::<C>(commitments@, params, k),
        decreases n + 1 - l,
    {
        let index = l as u16;
        let pairs = exponential::<C>(index, stripes.as_slice());
        proof {
            lemma_exponential(index as int, point_logs::<C>(stripes@), q);
            assert(pairs_model::<C>(pairs@) =~= Seq::new(
                pairs@.len(),
                |j: int| (C::f_val(pairs@[j].0), C::g_log(pairs@[j].1)),
            ));
        }
        verification_shares.insert(index, C::multiexp_vartime(&pairs));
        l += 1;
    }

    let ours = match verification_shares.get(&me) {
        Some(ours) => *ours,
        None => vstd::pervasive::unreached(),
    };
    proof {
        C::lemma_scalar(total);
        lemma_reduced(C::f_val(total), q);
        assert(1 * C::f_val(total) == C::f_val(total)) by (nonlinear_arith);
    }
    assert(batch_weights(weights, (n - 1) as nat, q) && batch_verdict(queued, weights, q, Ok(())));
    if !C::g_eq(C::g_mul(C::generator(), total), ours) {
        return Err(
            FrostError::InternalError(
                "secret share does not match its verification share".to_owned(),
            ),
        );
    }

    Ok(
        MultisigKeys {
            params,
            secret_share: total,
            group_key: stripes[0],
            verification_shares,
            offset: None,
        },
    )
}

/// A result with its map seen as a mathematical map.
pub open spec fn viewed<V>(r: Result<HashMap<u16, V>, FrostError>) -> Result<
    Map<u16, V>,
    FrostError,
> {
    match r {
        Ok(m) => Ok(m@),
        Err(e) => Err(e),
    }
}

/// The byte strings that a map of vectors holds.
pub open spec fn bytes_of(m: Map<u16, Vec<u8>>) -> Map<u16, Seq<u8>> {
    m.map_values(|v: Vec<u8>| v@)
}

/// Maps with the same keys miss the same index first.
pub proof fn lemma_first_missing_same_keys<T, U>(a: Map<u16, T>, b: Map<u16, U>, included: Seq<u16>)
    requires
        a.dom() == b.dom(),
    ensures
        first_missing(a, included) == first_missing(b, included),
    decreases included.len(),
{
    if included.len() > 0 {
        assert(a.contains_key(included[0]) == b.dom().contains(included[0]));
        lemma_first_missing_same_keys(a, b, included.skip(1));
    }
}

/// The start of a key generation: the parameters and a context string, which must be
/// unique among multisigs.
pub struct KeyGenMachine<C: Curve> {
    params: MultisigParams,
    context: String,
    _curve: core::marker::PhantomData<C>,
}

/// A key generation after its first round: the polynomial dealt, and the message sent.
pub struct SecretShareMachine<C: Curve> {
    params: MultisigParams,
    context: String,
    coefficients: Vec<C::F>,
    our_commitments: Vec<u8>,
}

/// A key generation after its second round: this participant's own value of its
/// polynomial, and everyone's commitments.
pub struct KeyMachine<C: Curve> {
    params: MultisigParams,
    secret: C::F,
    commitments: HashMap<u16, Vec<C::G>>,
}

impl<C: Curve> KeyGenMachine<C> {
    /// The parameters.
    pub closed spec fn spec_params(&self) -> MultisigParams {
        self.params
    }

    /// The context string, as bytes.
    pub closed spec fn context_bytes(&self) -> Seq<u8> {
        vstd::utf8::encode_utf8(self.context@)
    }

    /// Creates a new machine to generate a key for the specified curve in the specified
    /// multisig. The context string must be unique among multisigs.
    pub fn new(params: MultisigParams, context: String) -> (machine: KeyGenMachine<C>)
        ensures
            machine.spec_params() == params,
            machine.context_bytes() == vstd::utf8::encode_utf8(context@),
    {
        KeyGenMachine { params, context, _curve: core::marker::PhantomData }
    }

    /// Start generating a key according to the FROST DKG spec.
    ///
    /// Returns a serialized list of commitments to be sent to all parties over an
    /// authenticated channel. If any party submits multiple sets of commitments, they MUST
    /// be treated as malicious.
    pub fn generate_coefficients(self, rng: &mut rand_core::OsRng) -> (res: (
        SecretShareMachine<C>,
        Vec<u8>,
    ))
        ensures
            res.0.spec_params() == self.spec_params(),
            res.0.context_bytes() == self.context_bytes(),
            res.0.message() == res.1@,
            exists|r: int|
                r1_message::<C>(
                    self.context_bytes(),
                    self.spec_params().t(),
                    self.spec_params().i(),
                    res.0.coefficients(),
                    r,
                    res.1@,
                ),
    {
        let (coefficients, serialized) = generate_key_r1::<C>(
            rng,
            &self.params,
            self.context.as_str(),
        );
        let ghost r = choose|r: int|
            r1_message::<C>(
                self.context_bytes(),
                self.params.t(),
                self.params.i(),
                scalar_vals::<C>(coefficients@),
                r,
                serialized@,
            );
        let our_commitments = copy_range(serialized.as_slice(), 0, serialized.len());
        assert(our_commitments@ =~= serialized@);
        let machine = SecretShareMachine {
            params: self.params,
            context: self.context,
            coefficients,
            our_commitments,
        };
        assert(r1_message::<C>(
            self.context_bytes(),
            self.spec_params().t(),
            self.spec_params().i(),
            machine.coefficients(),
            r,
            serialized@,
        ));
        (machine, serialized)
    }
}

impl<C: Curve> SecretShareMachine<C> {
    /// The parameters.
    pub closed spec fn spec_params(&self) -> MultisigParams {
        self.params
    }

    /// The context string, as bytes.
    pub closed spec fn context_bytes(&self) -> Seq<u8> {
        vstd::utf8::encode_utf8(self.context@)
    }

    /// The coefficients of the polynomial dealt, lowest first.
    pub closed spec fn coefficients(&self) -> Seq<int> {
        scalar_vals::<C>(self.coefficients@)
    }

    /// The message that was sent in the first round.
    pub closed spec fn message(&self) -> Seq<u8> {
        self.our_commitments@
    }

    /// The machine holds as many coefficients as the threshold asks for.
    #[verifier::type_invariant]
    pub closed spec fn wf(&self) -> bool {
        &&& self.coefficients@.len() == self.params.t()
        &&& scalars_wf::<C>(self.coefficients@)
    }

    /// Continue generating a key.
    ///
    /// Takes in everyone else's commitments, by participant index. Returns a byte vector
    /// representing a secret share for each other participant, which should be encrypted
    /// before sending.
    pub fn generate_secret_shares(
        self,
        rng: &mut rand_core::OsRng,
        commitments: HashMap<u16, Vec<u8>>,
    ) -> (r: Result<(KeyMachine<C>, HashMap<u16, Vec<u8>>), FrostError>)
        ensures
            r1_outcome::<C>(
                self.context_bytes(),
                self.spec_params(),
                bytes_of(commitments@).insert(self.spec_params().i(), self.message()),
                match r {
                    Ok(res) => Ok(res.0.commitments()),
                    Err(e) => Err(e),
                },
            ),
            r matches Ok(res) ==> {
                &&& res.0.spec_params() == self.spec_params()
                &&& C::f_val(res.0.own_share()) == poly_eval(
                    self.coefficients(),
                    self.spec_params().i() as int,
                ) % C::order()
                &&& r2_shares_of::<C>(self.spec_params(), self.coefficients(), res.1@)
            },
    {
        proof {
            use_type_invariant(&self);
        }
        match generate_key_r2::<C>(
            rng,
            &self.params,
            self.context.as_str(),
            self.coefficients,
            self.our_commitments,
            commitments,
        ) {
            Ok((secret, commitments, shares)) => Ok(
                (KeyMachine { params: self.params, secret, commitments }, shares),
            ),
            Err(e) => Err(e),
        }
    }
}

impl<C: Curve> KeyMachine<C> {
    /// The parameters.
    pub closed spec fn spec_params(&self) -> MultisigParams {
        self.params
    }

    /// This participant's own value of its polynomial.
    pub closed spec fn own_share(&self) -> C::F {
        self.secret
    }

    /// Everyone's commitments.
    pub closed spec fn commitments(&self) -> Map<u16, Vec<C::G>> {
        self.commitments@
    }

    /// The machine holds a scalar, and `t` commitments for each participant.
    #[verifier::type_invariant]
    pub closed spec fn wf(&self) -> bool {
        &&& C::f_wf(self.secret)
        &&& commitments_wf::<C>(self.params, self.commitments@)
    }

    /// Complete key generation.
    ///
    /// Takes in everyone else's shares submitted to us, by participant index. Returns the
    /// keys. More than `t` participants must report completion without issue before these
    /// keys can be considered usable, yet you should wait for all participants to report
    /// as such.
    pub fn complete(
        self,
        rng: &mut rand_core::OsRng,
        shares: HashMap<u16, Vec<u8>>,
    ) -> (r: Result<MultisigKeys<C>, FrostError>)
        ensures
            r2_outcome::<C>(
                self.spec_params(),
                self.own_share(),
                self.commitments(),
                bytes_of(shares@).insert(self.spec_params().i(), C::f_repr(self.own_share())),
                r,
            ),
    {
        proof {
            use_type_invariant(&self);
        }
        complete_r2::<C>(rng, self.params, self.secret, self.commitments, shares)
    }
}

} // verus!
