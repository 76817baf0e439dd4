//! Schnorr signatures over a curve: signing, checking, and checking in batches.

use crate::bytes::append;
use crate::curve::{batch_of, batch_queued, batch_verdict, batch_weights, pairs_model, queue};
use crate::curve::{lemma_batch_queued, lemma_batch_verdict, lemma_first_fails, statement_holds};
use crate::curve::{weighted_total, Curve};
use crate::modmath::{dot, lemma_add_mod_right, lemma_dot3, lemma_mod_difference, lemma_reduced};
use vstd::prelude::*;

verus! {

/// A Schnorr signature: the commitment `R` to the nonce, and the response `s`.
#[allow(non_snake_case)]
#[derive(Clone, Copy, PartialEq, Eq, Debug)]
pub struct SchnorrSignature<C: Curve> {
    pub R: C::G,
    pub s: C::F,
}

/// Whether the response `s` answers the challenge: `s·G = R + c·A`, with the points given
/// as multiples of the generator `G`.
pub open spec fn schnorr_valid(public_key: int, challenge: int, nonce: int, s: int, q: int) -> bool {
    s % q == (nonce + challenge * public_key) % q
}

/// A queued triplet: an id, a public key, a challenge and a signature.
pub open spec fn triplet_wf<C: Curve>(t: (u16, C::G, C::F, SchnorrSignature<C>)) -> bool {
    C::g_wf(t.1) && C::f_wf(t.2) && t.3.wf()
}

/// Whether the signature of a triplet is valid for its key and challenge.
pub open spec fn triplet_valid<C: Curve>(t: (u16, C::G, C::F, SchnorrSignature<C>)) -> bool {
    schnorr_valid(C::g_log(t.1), C::f_val(t.2), C::g_log(t.3.R), C::f_val(t.3.s), C::order())
}

impl<C: Curve> SchnorrSignature<C> {
    /// Whether both parts belong to the curve.
    pub open spec fn wf(&self) -> bool {
        C::g_wf(self.R) && C::f_wf(self.s)
    }

    /// The encoding: that of `R`, then that of `s`.
    pub open spec fn serialized(&self) -> Seq<u8> {
        C::g_repr(self.R) + C::f_repr(self.s)
    }

    /// Encodes the signature as `R‖s`.
    pub fn serialize(&self) -> (res: Vec<u8>)
        requires
            self.wf(),
        ensures
            res@ == self.serialized(),
            res@.len() == C::g_len_spec() + C::f_len_spec(),
    {
        proof {
            C::lemma_point(self.R);
            C::lemma_scalar(self.s);
        }
        let mut res = C::G_to_bytes(&self.R);
        let s = C::F_to_bytes(&self.s);
        append(&mut res, s.as_slice());
        res
    }
}

/// The response to a challenge `c`, with the private key `x` and the nonce `r`: `r + x·c`.
pub fn respond<C: Curve>(private_key: C::F, nonce: C::F, challenge: C::F) -> (s: C::F)
    requires
        C::f_wf(private_key),
        C::f_wf(nonce),
        C::f_wf(challenge),
    ensures
        C::f_wf(s),
        C::f_val(s) == (C::f_val(nonce) + C::f_val(private_key) * C::f_val(challenge))
            % C::order(),
{
    proof {
        C::lemma_order();
        lemma_add_mod_right(
            C::f_val(nonce),
            C::f_val(private_key) * C::f_val(challenge),
            C::order(),
        );
    }
    C::f_add(nonce, C::f_mul(private_key, challenge))
}

/// Signs: with the private key `x`, the nonce `r` and the challenge `c`, the signature is
/// `(r·G, r + x·c)`.
pub fn sign<C: Curve>(private_key: C::F, nonce: C::F, challenge: C::F) -> (sig: SchnorrSignature<C>)
    requires
        C::f_wf(private_key),
        C::f_wf(nonce),
        C::f_wf(challenge),
    ensures
        sig.wf(),
        C::g_log(sig.R) == C::f_val(nonce),
        C::f_val(sig.s) == (C::f_val(nonce) + C::f_val(private_key) * C::f_val(challenge))
            % C::order(),
{
    proof {
        C::lemma_order();
        C::lemma_scalar(nonce);
        lemma_reduced(C::f_val(nonce), C::order());
        assert(1 * C::f_val(nonce) == C::f_val(nonce)) by (nonlinear_arith);
    }
    SchnorrSignature {
        R: C::g_mul(C::generator(), nonce),
        s: respond::<C>(private_key, nonce, challenge),
    }
}

/// Checks a signature under a public key `A` and a challenge `c`: whether `s·G = R + c·A`.
pub fn verify<C: Curve>(public_key: C::G, challenge: C::F, signature: &SchnorrSignature<C>) -> (r:
    bool)
    requires
        C::g_wf(public_key),
        C::f_wf(challenge),
        signature.wf(),
    ensures
        r == schnorr_valid(
            C::g_log(public_key),
            C::f_val(challenge),
            C::g_log(signature.R),
            C::f_val(signature.s),
            C::order(),
        ),
{
    let lhs = C::g_mul(C::generator(), signature.s);
    let rhs = C::g_add(signature.R, C::g_mul(public_key, challenge));
    proof {
        let q = C::order();
        C::lemma_order();
        assert(1 * C::f_val(signature.s) == C::f_val(signature.s)) by (nonlinear_arith);
        lemma_add_mod_right(C::g_log(signature.R), C::g_log(public_key) * C::f_val(challenge), q);
        assert(C::g_log(public_key) * C::f_val(challenge) == C::f_val(challenge) * C::g_log(
            public_key,
        )) by (nonlinear_arith);
    }
    C::g_eq(lhs, rhs)
}

/// The statement that a triplet's signature is valid, as the batch holds it:
/// `R + c·A − s·G` is the identity.
pub open spec fn triplet_statement<C: Curve>(t: (u16, C::G, C::F, SchnorrSignature<C>)) -> Seq<
    (int, int),
> {
    seq![
        (1int, C::g_log(t.3.R)),
        (C::f_val(t.2), C::g_log(t.1)),
        ((-C::f_val(t.3.s)) % C::order(), 1int),
    ]
}

/// A triplet's statement holds exactly where its signature is valid.
pub proof fn lemma_triplet_statement<C: Curve>(t: (u16, C::G, C::F, SchnorrSignature<C>))
    requires
        triplet_wf(t),
    ensures
        statement_holds(triplet_statement(t), C::order()) <==> triplet_valid(t),
{
    let q = C::order();
    C::lemma_order();
    let r = C::g_log(t.3.R);
    let c = C::f_val(t.2);
    let a = C::g_log(t.1);
    let s = C::f_val(t.3.s);
    lemma_dot3((1int, r), (c, a), ((-s) % q, 1int));
    assert(1 * r + c * a + ((-s) % q) * 1 == (r + c * a) + (-s) % q) by (nonlinear_arith);
    lemma_add_mod_right(r + c * a, -s, q);
    lemma_mod_difference(r + c * a, s, q);
}

/// Checks many signatures together. Each triplet is queued as the statement that
/// `R + c·A − s·G` is the identity, under a weight: 1 for the first, drawn at random for
/// the others. The result is `Ok` exactly where the weighted statements add up to the
/// identity, and else names a triplet whose weighted statement does not: so it is `Ok`
/// where every signature is valid, and a triplet that it names has an invalid signature.
pub fn batch_verify<C: Curve>(
    rng: &mut rand_core::OsRng,
    triplets: &[(u16, C::G, C::F, SchnorrSignature<C>)],
) -> (r: Result<(), u16>)
    requires
        forall|i: int| 0 <= i < triplets@.len() ==> triplet_wf(#[trigger] triplets@[i]),
    ensures
        exists|weights: Seq<int>|
            #[trigger] batch_weights(weights, triplets@.len(), C::order()) && batch_verdict(
                triplet_statements(triplets@),
                weights,
                C::order(),
                r,
            ),
        (forall|i: int| 0 <= i < triplets@.len() ==> triplet_valid(#[trigger] triplets@[i]))
            ==> r is Ok,
        r matches Err(id) ==> exists|i: int|
            0 <= i < triplets@.len() && (#[trigger] triplets@[i]).0 == id && !triplet_valid(
                triplets@[i],
            ),
        triplets@.len() == 1 ==> (r is Ok <==> triplet_valid(triplets@[0])),
{
    proof {
        C::lemma_order();
    }
    if triplets.len() == 0 {
        proof {
            let none = Seq::<int>::empty();
            assert(batch_weights(none, triplets@.len(), C::order()));
            assert(weighted_total(triplet_statements(triplets@), none, 0) == 0);
            assert(0int % C::order() == 0);
            assert(batch_verdict(triplet_statements(triplets@), none, C::order(), Ok(())));
        }
        return Ok(());
    }
    let one = crate::curve::f_one::<C>();
    let mut batch = C::batch_new(triplets.len());
    let ghost mut statements = Seq::<(u16, Seq<(int, int)>)>::empty();
    let ghost mut weights = Seq::<int>::empty();
    let mut i: usize = 0;
    while i < triplets.len()
        invariant
            i <= triplets@.len(),
            C::f_wf(one),
            C::f_val(one) == 1,
            forall|j: int| 0 <= j < triplets@.len() ==> triplet_wf(#[trigger] triplets@[j]),
            statements.len() == i,
            batch_of(C::batch_entries(&batch), statements, weights, C::order()),
            forall|j: int|
                0 <= j < i ==> (#[trigger] statements[j]) == (
                    triplets@[j].0,
                    triplet_statement(triplets@[j]),
                ),
        decreases triplets@.len() - i,
    {
        let triple = &triplets[i];
        assert(triplet_wf(*triple));
        let mut values: Vec<(C::F, C::G)> = Vec::new();
        // R
        values.push((one, triple.3.R));
        // cA
        values.push((triple.2, triple.1));
        // -sG
        values.push((C::f_neg(triple.3.s), C::generator()));
        assert(pairs_model::<C>(values@) =~= triplet_statement(*triple));
        let ghost before = C::batch_entries(&batch);
        queue::<C>(&mut batch, rng, triple.0, values);
        proof {
            let after = C::batch_entries(&batch);
            let statement = triplet_statement(*triple);
            let u = choose|u: int| batch_queued(before, after, triple.0, statement, u, C::order());
            lemma_batch_queued(before, after, statements, weights, triple.0, statement, u, C::order());
            statements = statements.push((triple.0, statement));
            weights = weights.push(u);
        }
        i += 1;
    }
    proof {
        let entries = C::batch_entries(&batch);
        assert forall|j: int| 0 <= j < entries.len() implies (#[trigger] entries[j]).1.len() > 0 by {
            assert(statements[j] == (triplets@[j].0, triplet_statement(triplets@[j])));
        }
    }
    let r = C::batch_verify_vartime(&batch);
    proof {
        assert(statements =~= triplet_statements(triplets@));
        lemma_batch_verdict(C::batch_entries(&batch), statements, weights, C::order(), r);
        if forall|j: int| 0 <= j < triplets@.len() ==> triplet_valid(#[trigger] triplets@[j]) {
            assert forall|j: int| 0 <= j < statements.len() implies statement_holds(
                (#[trigger] statements[j]).1,
                C::order(),
            ) by {
                assert(triplet_valid(triplets@[j]));
                lemma_triplet_statement(triplets@[j]);
            }
        }
        if let Err(id) = r {
            let j = choose|j: int|
                0 <= j < statements.len() && (#[trigger] statements[j]).0 == id && !statement_holds(
                    statements[j].1,
                    C::order(),
                );
            lemma_triplet_statement(triplets@[j]);
            assert(triplets@[j].0 == id && !triplet_valid(triplets@[j]));
        }
        if triplets@.len() == 1 {
            // the only statement has the weight 1
            lemma_triplet_statement(triplets@[0]);
            assert(statements[0] == (triplets@[0].0, triplet_statement(triplets@[0])));
            assert(weighted_total(statements, weights, 0) == 0);
            assert(weighted_total(statements, weights, 1) == weights[0] * dot(statements[0].1));
            assert(weights[0] * dot(statements[0].1) == dot(statements[0].1)) by (nonlinear_arith)
                requires
                    weights[0] == 1,
            ;
        }
    }
    r
}

/// The statements that triplets are queued as, each under its triplet's id.
pub open spec fn triplet_statements<C: Curve>(
    triplets: Seq<(u16, C::G, C::F, SchnorrSignature<C>)>,
) -> Seq<(u16, Seq<(int, int)>)> {
    Seq::new(triplets.len(), |i: int| (triplets[i].0, triplet_statement(triplets[i])))
}

/// A fault in the first triplet is never hidden: where the first signature of a batch is
/// not valid and every other is, the check names the first triplet, whatever weights were
/// drawn. A batch of one agrees with the single check.
pub proof fn lemma_batch_first_fault<C: Curve>(
    triplets: Seq<(u16, C::G, C::F, SchnorrSignature<C>)>,
    weights: Seq<int>,
    r: Result<(), u16>,
)
    requires
        triplets.len() > 0,
        forall|i: int| 0 <= i < triplets.len() ==> triplet_wf(#[trigger] triplets[i]),
        batch_weights(weights, triplets.len(), C::order()),
        batch_verdict(triplet_statements(triplets), weights, C::order(), r),
        !triplet_valid(triplets[0]),
        forall|i: int| 0 < i < triplets.len() ==> triplet_valid(#[trigger] triplets[i]),
    ensures
        r == Err::<(), u16>(triplets[0].0),
{
    C::lemma_order();
    let statements = triplet_statements(triplets);
    assert forall|k: int| 0 <= k < statements.len() implies (statement_holds(
        (#[trigger] statements[k]).1,
        C::order(),
    ) <==> k != 0) by {
        lemma_triplet_statement(triplets[k]);
        if k != 0 {
            assert(triplet_valid(triplets[k]));
        }
    }
    lemma_first_fails(statements, weights, C::order(), r);
}

/// A signature made by `sign` is valid under the key `x·G`, whatever the nonce and the
/// challenge.
pub proof fn lemma_sign_verifies(x: int, r: int, c: int, q: int)
    requires
        q > 1,
        0 <= x < q,
    ensures
        schnorr_valid(x, c, r, (r + x * c) % q, q),
{
    vstd::arithmetic::div_mod::lemma_mod_twice(r + x * c, q);
    assert(x * c == c * x) by (nonlinear_arith);
}

} // verus!
