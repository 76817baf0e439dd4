//! Serialized keys read back as themselves.

use crate::bytes::be16_spec;
use crate::curve::Curve;
use crate::{
    curve_header, deserialize_failure, encoded_group_key, encoded_i, encoded_n, encoded_secret,
    encoded_share, encoded_t, header_len, secret_at, serialized_len_spec, MultisigKeys,
};
use vstd::prelude::*;

verus! {

/// The serialized verification shares of the participants from 1 to `upto` hold one
/// encoded point each, that of `l` at the place `l - 1`.
pub proof fn lemma_shares_serialized<C: Curve>(keys: MultisigKeys<C>, upto: nat, l: int)
    requires
        keys.wf(),
        upto <= keys.spec_params().n(),
        1 <= l <= upto,
    ensures
        keys.shares_serialized(upto).len() == upto * C::g_len_spec(),
        keys.shares_serialized(upto).subrange((l - 1) * C::g_len_spec(), l * C::g_len_spec())
            == C::g_repr(keys.shares()[l as u16]),
    decreases upto,
{
    let g = C::g_len_spec() as int;
    let last = keys.shares()[upto as u16];
    assert(keys.shares().contains_key(upto as u16));
    C::lemma_point(last);
    let front = keys.shares_serialized((upto - 1) as nat);
    assert(upto * g == (upto - 1) * g + g) by (nonlinear_arith);
    assert((l - 1) * g >= 0 && l * g == (l - 1) * g + g && l * g <= upto * g) by (nonlinear_arith)
        requires
            1 <= l <= upto,
            g >= 0,
    ;
    if upto > 1 {
        lemma_shares_serialized::<C>(keys, (upto - 1) as nat, if l < upto {
            l
        } else {
            1
        });
    } else {
        assert(front.len() == 0);
    }
    if l < upto {
        assert(l * g <= (upto - 1) * g) by (nonlinear_arith)
            requires
                l <= upto - 1,
                g >= 0,
        ;
        assert((front + C::g_repr(last)).subrange((l - 1) * g, l * g) =~= front.subrange(
            (l - 1) * g,
            l * g,
        ));
    } else {
        assert((front + C::g_repr(last)).subrange((l - 1) * g, l * g) =~= C::g_repr(last));
    }
}

/// Serialized keys read back as themselves: the serialization of keys without an offset,
/// whose group key and verification shares are not the identity, is accepted, and states
/// these keys.
pub proof fn lemma_serialization_round_trip<C: Curve>(keys: MultisigKeys<C>)
    requires
        keys.wf(),
        keys.spec_offset() is None,
        C::g_log(keys.spec_group_key()) != 0,
        forall|l: u16|
            1 <= l <= keys.spec_params().n() ==> C::g_log(#[trigger] keys.shares()[l]) != 0,
    ensures
        deserialize_failure::<C>(keys.serialized()) is None,
        keys.encoded_in(keys.serialized()),
{
    let s = keys.serialized();
    let params = keys.spec_params();
    let n = params.n();
    let g = C::g_len_spec() as int;
    let f = C::f_len_spec() as int;
    C::lemma_lengths();
    C::lemma_scalar(keys.spec_secret_share());
    C::lemma_point(keys.spec_group_key());
    let head = curve_header::<C>() + be16_spec(params.t()) + be16_spec(n) + be16_spec(params.i());
    let secret = C::f_repr(keys.spec_secret_share());
    let group = C::g_repr(keys.spec_group_key());
    let shares = keys.shares_serialized(n as nat);
    assert(s == head + secret + group + shares);
    assert(head.len() == secret_at::<C>());
    lemma_shares_serialized::<C>(keys, n as nat, 1);
    assert((1 - 1) * g == 0) by (nonlinear_arith);
    assert((n + 1 - 1) * g == n * g) by (nonlinear_arith);
    assert(s.len() == serialized_len_spec::<C>(n));
    assert(s.subrange(0, header_len::<C>()) =~= curve_header::<C>());
    let at = header_len::<C>();
    assert(s[at] == be16_spec(params.t())[0]);
    assert(s[at + 1] == be16_spec(params.t())[1]);
    assert(s[at + 2] == be16_spec(n)[0]);
    assert(s[at + 3] == be16_spec(n)[1]);
    assert(s[at + 4] == be16_spec(params.i())[0]);
    assert(s[at + 5] == be16_spec(params.i())[1]);
    assert(encoded_t::<C>(s) == params.t());
    assert(encoded_n::<C>(s) == n);
    assert(encoded_i::<C>(s) == params.i());
    assert(encoded_secret::<C>(s) =~= secret);
    assert(encoded_group_key::<C>(s) =~= group);
    assert forall|l: u16| 1 <= l <= n implies C::g_repr(#[trigger] keys.shares()[l])
        == encoded_share::<C>(s, l as int) by {
        lemma_shares_serialized::<C>(keys, n as nat, l as int);
        assert((l - 1) * g >= 0 && (l + 1 - 1) * g == (l - 1) * g + g && l * g <= n * g)
            by (nonlinear_arith)
            requires
                1 <= l <= n,
                g >= 0,
        ;
        assert(encoded_share::<C>(s, l as int) =~= shares.subrange((l - 1) * g, l * g));
    }
    assert forall|l: int| 1 <= l <= n implies C::point_encoding(
        #[trigger] encoded_share::<C>(s, l),
    ) by {
        let index = l as u16;
        assert(keys.shares().contains_key(index));
        assert(C::g_log(keys.shares()[index]) != 0);
        C::lemma_point(keys.shares()[index]);
        assert(encoded_share::<C>(s, l) == C::g_repr(keys.shares()[index]));
    }
}

/// Keys that one serialization states are the same keys.
pub proof fn lemma_encoded_keys_agree<C: Curve>(a: MultisigKeys<C>, b: MultisigKeys<C>, s: Seq<u8>)
    requires
        a.wf(),
        b.wf(),
        a.encoded_in(s),
        b.encoded_in(s),
    ensures
        a.spec_params().t() == b.spec_params().t(),
        a.spec_params().n() == b.spec_params().n(),
        a.spec_params().i() == b.spec_params().i(),
        a.spec_secret_share() == b.spec_secret_share(),
        a.spec_group_key() == b.spec_group_key(),
        a.shares() == b.shares(),
        a.spec_offset() == b.spec_offset(),
{
    C::lemma_scalar_repr(a.spec_secret_share(), b.spec_secret_share());
    C::lemma_point_repr(a.spec_group_key(), b.spec_group_key());
    assert forall|l: u16| a.shares().contains_key(l) implies a.shares()[l] == b.shares()[l] by {
        assert(b.shares().contains_key(l));
        C::lemma_point_repr(a.shares()[l], b.shares()[l]);
    }
    assert(a.shares() =~= b.shares());
}

} // verus!
