//! Completeness of the protocol for a claim with a single multilinear
//! factor.
//!
//! For one factor the round polynomial has degree at most one, so the
//! Verifier's Lagrange reconstruction from two points is exactly the affine
//! blend the Prover's tables are collapsed with. That makes the whole run
//! provable: every round's check passes and the final oracle check
//! succeeds, for every choice of challenges. (For products of several
//! factors the same argument needs degree-`m` interpolation exactness over
//! the prime field, which is not developed here; those runs are exercised
//! by tests instead.)

use crate::field::{
    f_add, f_inv, f_mul, f_pow, f_sub, field_order, in_field, lemma_f_add_assoc,
    lemma_f_mul_distributes, FIELD_MODULUS,
};
use crate::polynomial::{
    binary_point, hypercube_table, model_wf, poly_multilinear, poly_value, poly_value_from,
    product_value, product_value_from, term_multilinear, term_value, term_value_from, PolyModel,
    TermModel,
};
use crate::protocol::checker::{lagrange_basis_from, lagrange_eval, lagrange_sum_from};
use crate::protocol::prover::{
    blend_product_from, collapse_table, collapse_tables, combine_val, hypercube_sum,
    message_point_sum, point_product_from, round_message,
};
use crate::protocol::{explained_by_some_challenges, protocol_run, transcript_matches};
use vstd::arithmetic::div_mod::{
    lemma_add_mod_noop, lemma_basic_div, lemma_hoist_over_denominator, lemma_mod_bound,
    lemma_mod_multiples_vanish, lemma_mul_mod_noop_left, lemma_mul_mod_noop_right,
    lemma_small_mod, lemma_sub_mod_noop_right,
};
use vstd::arithmetic::power2::{lemma_pow2_adds, lemma_pow2_pos, lemma_pow2_unfold, pow2};
use vstd::arithmetic::mul::{
    lemma_mul_is_associative, lemma_mul_is_commutative, lemma_mul_is_distributive_add,
    lemma_mul_is_distributive_sub_other_way,
};
use vstd::arithmetic::power::{lemma1_pow, lemma_pow0, lemma_pow1, pow};
use vstd::prelude::*;

verus! {

/// The blend is an affine combination: `a0 - r*a0 + r*a1` equals
/// `(1 - r)*a0 + r*a1` in the field.
proof fn lemma_combine_reform(a0: int, a1: int, r: int)
    ensures
        combine_val(a0, a1, r) == f_add(f_mul(f_sub(1, r), a0), f_mul(r, a1)),
{
    lemma_sub_mod_noop_right(a0, r * a0, field_order());
    lemma_mul_is_distributive_sub_other_way(a0, 1, r);
    lemma_mul_is_commutative(1 - r, a0);
    lemma_mul_mod_noop_left(1 - r, a0, field_order());
}

/// Blending is additive in the pair of endpoints.
proof fn lemma_combine_additive(a0: int, a1: int, b0: int, b1: int, r: int)
    ensures
        combine_val(f_add(a0, b0), f_add(a1, b1), r) == f_add(
            combine_val(a0, a1, r),
            combine_val(b0, b1, r),
        ),
{
    let w = f_sub(1, r);
    lemma_combine_reform(f_add(a0, b0), f_add(a1, b1), r);
    lemma_combine_reform(a0, a1, r);
    lemma_combine_reform(b0, b1, r);
    lemma_f_mul_distributes(w, a0, b0);
    lemma_f_mul_distributes(r, a1, b1);
    let wa = f_mul(w, a0);
    let wb = f_mul(w, b0);
    let ra = f_mul(r, a1);
    let rb = f_mul(r, b1);
    lemma_f_add_assoc(f_add(wa, wb), ra, rb);
    lemma_f_add_assoc(wa, wb, ra);
    lemma_f_add_assoc(wa, ra, wb);
    lemma_f_add_assoc(f_add(wa, ra), wb, rb);
}

/// Blending commutes with scaling both endpoints.
proof fn lemma_combine_scalar(c: int, a0: int, a1: int, r: int)
    ensures
        f_mul(c, combine_val(a0, a1, r)) == combine_val(f_mul(c, a0), f_mul(c, a1), r),
{
    let w = f_sub(1, r);
    lemma_combine_reform(a0, a1, r);
    lemma_combine_reform(f_mul(c, a0), f_mul(c, a1), r);
    lemma_f_mul_distributes(c, f_mul(w, a0), f_mul(r, a1));
    assert(f_mul(c, f_mul(w, a0)) == f_mul(w, f_mul(c, a0))) by {
        lemma_mul_mod_noop_right(c, w * a0, field_order());
        lemma_mul_mod_noop_right(w, c * a0, field_order());
        lemma_mul_is_associative(c, w, a0);
        lemma_mul_is_commutative(c, w);
        lemma_mul_is_associative(w, c, a0);
    }
    assert(f_mul(c, f_mul(r, a1)) == f_mul(r, f_mul(c, a1))) by {
        lemma_mul_mod_noop_right(c, r * a1, field_order());
        lemma_mul_mod_noop_right(r, c * a1, field_order());
        lemma_mul_is_associative(c, r, a1);
        lemma_mul_is_commutative(c, r);
        lemma_mul_is_associative(r, c, a1);
    }
}

/// Blending two equal values gives that value back.
proof fn lemma_combine_same(t: int, r: int)
    requires
        in_field(t),
    ensures
        combine_val(t, t, r) == t,
{
    let w = f_sub(1, r);
    lemma_combine_reform(t, t, r);
    assert(f_add(f_mul(w, t), f_mul(r, t)) == ((w + r) * t) % field_order()) by {
        lemma_add_mod_noop(w * t, r * t, field_order());
        lemma_mul_is_distributive_add(t, w, r);
        lemma_mul_is_commutative(t, w);
        lemma_mul_is_commutative(t, r);
        lemma_mul_is_commutative(t, w + r);
    }
    assert(((w + r) * t) % field_order() == t) by {
        lemma_mul_mod_noop_left(w + r, t, field_order());
        assert((w + r) % field_order() == 1) by {
            lemma_add_mod_noop(1 - r, r, field_order());
            lemma_small_mod(1, field_order() as nat);
        }
        lemma_mul_mod_noop_left(1, t, field_order());
        lemma_small_mod(t as nat, field_order() as nat);
    }
}

/// Blending from a zero left endpoint is scaling the right endpoint by the
/// parameter.
proof fn lemma_combine_from_zero(t: int, r: int)
    ensures
        combine_val(0, t, r) == f_mul(r, t),
{
    lemma_combine_reform(0, t, r);
    lemma_small_mod(0, field_order() as nat);
    lemma_mod_bound(r * t, field_order());
    lemma_small_mod(f_mul(r, t) as nat, field_order() as nat);
}

/// Powers of `-1`: even exponents give 1, odd exponents give `-1`.
proof fn lemma_pow_of_minus_one(e: nat)
    ensures
        f_pow(field_order() - 1, e) == if e % 2 == 0 {
            1int
        } else {
            field_order() - 1
        },
    decreases e,
{
    let q = field_order() - 1;
    if e == 0 {
        lemma_pow0(q);
        lemma_small_mod(1, field_order() as nat);
    } else {
        lemma_pow_of_minus_one((e - 1) as nat);
        assert(pow(q, e) == q * pow(q, (e - 1) as nat)) by {
            reveal(pow);
        }
        lemma_mul_mod_noop_right(q, pow(q, (e - 1) as nat), field_order());
        if (e - 1) % 2 == 0 {
            lemma_small_mod(q as nat, field_order() as nat);
        } else {
            assert((field_order() - 1) * (field_order() - 1) == field_order() * (field_order()
                - 2) + 1) by (nonlinear_arith);
            lemma_mod_multiples_vanish(field_order() - 2, 1, field_order());
            lemma_small_mod(1, field_order() as nat);
        }
    }
}

/// Two-point Lagrange reconstruction is the affine blend: for a message of
/// exactly two values, the Verifier's interpolation at `r` is
/// `(1 - r)*y0 + r*y1`.
proof fn lemma_lagrange_two_points(ys: Seq<int>, r: int)
    requires
        ys.len() == 2,
        in_field(ys[0]),
        in_field(ys[1]),
        in_field(r),
    ensures
        lagrange_eval(ys, r) == combine_val(ys[0], ys[1], r),
{
    let p = field_order();
    // The basis factor of node 0 is (r - 1) / (0 - 1) == 1 - r.
    assert(f_sub(0, 1) == p - 1);
    assert(f_inv(p - 1) == p - 1) by {
        lemma_pow_of_minus_one((FIELD_MODULUS - 2) as nat);
    }
    assert(f_mul(f_sub(r, 1), p - 1) == f_sub(1, r)) by {
        lemma_mul_mod_noop_left(r - 1, p - 1, p);
        assert((r - 1) * (p - 1) == p * (r - 1) + (1 - r)) by (nonlinear_arith);
        lemma_mod_multiples_vanish(r - 1, 1 - r, p);
    }
    assert(lagrange_basis_from(0, r, 2, 0) == f_sub(1, r)) by {
        assert(lagrange_basis_from(0, r, 2, 2) == 1);
        assert(lagrange_basis_from(0, r, 2, 1) == f_mul(
            crate::field::f_div(f_sub(r, 1), f_sub(0, 1)),
            1,
        ));
        assert(lagrange_basis_from(0, r, 2, 0) == lagrange_basis_from(0, r, 2, 1));
        lemma_mod_bound(1 - r, p);
        lemma_mul_mod_noop_left(f_sub(1, r), 1, p);
        lemma_small_mod(f_sub(1, r) as nat, p as nat);
    }
    // The basis factor of node 1 is (r - 0) / (1 - 0) == r.
    assert(f_sub(1, 0) == 1) by {
        lemma_small_mod(1, p as nat);
    }
    assert(f_inv(1) == 1) by {
        lemma1_pow((FIELD_MODULUS - 2) as nat);
        lemma_small_mod(1, p as nat);
    }
    assert(f_sub(r, 0) == r) by {
        lemma_small_mod(r as nat, p as nat);
    }
    assert(lagrange_basis_from(1, r, 2, 0) == r) by {
        assert(lagrange_basis_from(1, r, 2, 2) == 1);
        assert(lagrange_basis_from(1, r, 2, 1) == lagrange_basis_from(1, r, 2, 2));
        assert(lagrange_basis_from(1, r, 2, 0) == f_mul(
            crate::field::f_div(f_sub(r, 0), f_sub(1, 0)),
            1,
        ));
        assert(crate::field::f_div(f_sub(r, 0), f_sub(1, 0)) == f_mul(r, 1));
        lemma_mul_mod_noop_left(r, 1, p);
        lemma_small_mod(r as nat, p as nat);
    }
    // Assemble the two weighted values.
    assert(lagrange_sum_from(ys, r, 1) == f_mul(ys[1], r)) by {
        assert(lagrange_sum_from(ys, r, 2) == 0);
        assert(lagrange_sum_from(ys, r, 1) == f_add(
            f_mul(ys[1], lagrange_basis_from(1, r, 2, 0)),
            0,
        ));
        lemma_mod_bound(ys[1] * r, p);
        lemma_small_mod(f_mul(ys[1], r) as nat, p as nat);
    }
    lemma_combine_reform(ys[0], ys[1], r);
    lemma_mul_is_commutative(ys[0], f_sub(1, r));
    lemma_mul_is_commutative(ys[1], r);
}

/// The field sum of `count` consecutive entries of a table, starting at
/// `off`.
spec fn table_sum_from(t: Seq<int>, off: int, count: int) -> int
    decreases count,
{
    if count <= 0 {
        0
    } else {
        f_add(table_sum_from(t, off, count - 1), t[off + count - 1])
    }
}

/// Every entry of the sequence is a reduced residue.
spec fn seq_in_field(t: Seq<int>) -> bool {
    forall|b: int| 0 <= b < t.len() ==> in_field(#[trigger] t[b])
}

/// Partial table sums are reduced residues.
proof fn lemma_table_sum_in_field(t: Seq<int>, off: int, count: int)
    ensures
        in_field(table_sum_from(t, off, count)),
    decreases count,
{
    if count > 0 {
        lemma_table_sum_in_field(t, off, count - 1);
        lemma_mod_bound(table_sum_from(t, off, count - 1) + t[off + count - 1], field_order());
    }
}

/// For a single tabulated factor, the round message's value at 0 sums the
/// first half of the table and its value at 1 sums the second half.
proof fn lemma_single_message_sums(t: Seq<int>, half: int, count: int)
    requires
        seq_in_field(t),
        half >= 0,
        t.len() == 2 * half,
        0 <= count <= half,
    ensures
        message_point_sum(seq![t], half, 0, count) == table_sum_from(t, 0, count),
        message_point_sum(seq![t], half, 1, count) == table_sum_from(t, half, count),
    decreases count,
{
    if count > 0 {
        lemma_single_message_sums(t, half, count - 1);
        let b = count - 1;
        let tables = seq![t];
        assert(blend_product_from(tables, b, b + half, 0, 1) == 1);
        assert(blend_product_from(tables, b, b + half, 1, 1) == 1);
        assert(blend_product_from(tables, b, b + half, 0, 0) == f_mul(
            combine_val(t[b], t[b + half], 0),
            1,
        ));
        assert(blend_product_from(tables, b, b + half, 1, 0) == f_mul(
            combine_val(t[b], t[b + half], 1),
            1,
        ));
        crate::protocol::laws::lemma_combine_at_zero(t[b], t[b + half]);
        crate::protocol::laws::lemma_combine_at_one(t[b], t[b + half]);
        lemma_mul_mod_noop_left(t[b], 1, field_order());
        lemma_mul_mod_noop_left(t[b + half], 1, field_order());
        lemma_small_mod(t[b] as nat, field_order() as nat);
        lemma_small_mod(t[b + half] as nat, field_order() as nat);
    }
}

/// Summing a collapsed table is blending the two half-sums of the original
/// table: the blend is linear.
proof fn lemma_collapse_sum(t: Seq<int>, r: int, half: int, count: int)
    requires
        half >= 0,
        t.len() == 2 * half,
        0 <= count <= half,
    ensures
        table_sum_from(collapse_table(t, r), 0, count) == combine_val(
            table_sum_from(t, 0, count),
            table_sum_from(t, half, count),
            r,
        ),
    decreases count,
{
    if count == 0 {
        lemma_combine_from_zero(0, r);
        lemma_small_mod(0, field_order() as nat);
    } else {
        lemma_collapse_sum(t, r, half, count - 1);
        let b = count - 1;
        assert(collapse_table(t, r)[b] == combine_val(t[b], t[b + half], r));
        lemma_combine_additive(
            table_sum_from(t, 0, count - 1),
            table_sum_from(t, half, count - 1),
            t[b],
            t[b + half],
            r,
        );
    }
}

/// A single product table is summed like its one factor's table.
proof fn lemma_single_hypercube_sum(t: Seq<int>, count: int)
    requires
        seq_in_field(t),
        count <= t.len(),
    ensures
        hypercube_sum(seq![t], count) == table_sum_from(t, 0, count),
    decreases count,
{
    if count > 0 {
        lemma_single_hypercube_sum(t, count - 1);
        let b = count - 1;
        assert(point_product_from(seq![t], b, 1) == 1);
        assert(point_product_from(seq![t], b, 0) == f_mul(t[b], 1));
        lemma_mul_mod_noop_left(t[b], 1, field_order());
        lemma_small_mod(t[b] as nat, field_order() as nat);
    }
}

/// For one factor, a round preserves the running identity: the sum of the
/// collapsed table equals the Verifier's Lagrange reconstruction of the
/// round message at the same challenge.
proof fn lemma_single_round_preserved(t: Seq<int>, r: int, half: int)
    requires
        seq_in_field(t),
        half >= 0,
        t.len() == 2 * half,
        in_field(r),
    ensures
        table_sum_from(collapse_table(t, r), 0, half) == lagrange_eval(
            round_message(seq![t], half),
            r,
        ),
{
    let msg = round_message(seq![t], half);
    lemma_single_message_sums(t, half, half);
    lemma_table_sum_in_field(t, 0, half);
    lemma_table_sum_in_field(t, half, half);
    assert(msg.len() == 2);
    assert(msg[0] == table_sum_from(t, 0, half));
    assert(msg[1] == table_sum_from(t, half, half));
    lemma_lagrange_two_points(msg, r);
    lemma_collapse_sum(t, r, half, half);
}

/// The evaluation point whose leading coordinates are `rho` and whose
/// trailing coordinates binary-encode `b` over `k` bits.
spec fn extended_point(rho: Seq<int>, b: int, k: nat) -> Seq<int> {
    rho.add(binary_point(b, k))
}

/// The factor's dense table over the sub-hypercube left after fixing its
/// leading variables to `rho`.
spec fn partial_table(m: PolyModel, rho: Seq<int>, k: nat) -> Seq<int> {
    Seq::new(pow2(k), |b: int| poly_value(m, extended_point(rho, b, k)))
}

/// A monomial's partial products are reduced residues.
proof fn lemma_term_value_in_field(ps: Seq<(nat, nat)>, s: Seq<int>, i: int)
    ensures
        in_field(term_value_from(ps, s, i)),
    decreases ps.len() - i,
{
    if 0 <= i < ps.len() {
        lemma_term_value_in_field(ps, s, i + 1);
        lemma_mod_bound(
            f_pow(s[ps[i].0 as int], ps[i].1) * term_value_from(ps, s, i + 1),
            field_order(),
        );
    }
}

/// A factor's partial term sums are reduced residues.
proof fn lemma_poly_value_in_field(terms: Seq<TermModel>, s: Seq<int>, i: int)
    ensures
        in_field(poly_value_from(terms, s, i)),
    decreases terms.len() - i,
{
    if 0 <= i < terms.len() {
        lemma_poly_value_in_field(terms, s, i + 1);
        lemma_mod_bound(
            f_mul(terms[i].coeff, term_value(terms[i].powers, s)) + poly_value_from(
                terms,
                s,
                i + 1,
            ),
            field_order(),
        );
    }
}

/// A monomial that reads variable `v` only with power zero takes the same
/// value at two points that differ only at `v`.
proof fn lemma_term_value_agrees(
    ps: Seq<(nat, nat)>,
    sa: Seq<int>,
    sb: Seq<int>,
    v: int,
    i: int,
)
    requires
        0 <= i,
        sa.len() == sb.len(),
        forall|u: int| 0 <= u < sa.len() && u != v ==> sa[u] == sb[u],
        forall|j: int|
            i <= j < ps.len() ==> (#[trigger] ps[j]).0 < sa.len() && (ps[j].0 == v ==> ps[j].1
                == 0),
    ensures
        term_value_from(ps, sa, i) == term_value_from(ps, sb, i),
    decreases ps.len() - i,
{
    if i < ps.len() {
        let w = ps[i].0 as int;
        let e = ps[i].1;
        if w == v {
            lemma_pow0(sa[w]);
            lemma_pow0(sb[w]);
        }
        lemma_term_value_agrees(ps, sa, sb, v, i + 1);
    }
}

/// The blend decomposition of one monomial of a multilinear term: at three
/// points that differ only in variable `v`, holding 0, 1 and `r` there, the
/// monomial's value at the third point is the blend of its values at the
/// first two.
proof fn lemma_term_value_blends(
    ps: Seq<(nat, nat)>,
    s0: Seq<int>,
    s1: Seq<int>,
    sr: Seq<int>,
    v: int,
    r: int,
    i: int,
)
    requires
        0 <= i,
        s0.len() == s1.len(),
        s0.len() == sr.len(),
        0 <= v < s0.len(),
        forall|u: int| 0 <= u < s0.len() && u != v ==> s0[u] == s1[u] && s0[u] == sr[u],
        s0[v] == 0,
        s1[v] == 1,
        sr[v] == r,
        in_field(r),
        forall|j: int|
            0 <= j < ps.len() ==> (#[trigger] ps[j]).0 < s0.len() && ps[j].1 <= 1,
        forall|j1: int, j2: int|
            0 <= j1 < j2 < ps.len() ==> (#[trigger] ps[j1]).0 != (#[trigger] ps[j2]).0,
    ensures
        combine_val(term_value_from(ps, s0, i), term_value_from(ps, s1, i), r)
            == term_value_from(ps, sr, i),
    decreases ps.len() - i,
{
    let p = field_order();
    if i >= ps.len() {
        lemma_combine_same(1, r);
    } else {
        let w = ps[i].0 as int;
        let e = ps[i].1;
        if w == v && e == 1 {
            assert forall|j: int|
                i + 1 <= j < ps.len() implies (#[trigger] ps[j]).0 < sr.len() && (ps[j].0 == v
                ==> ps[j].1 == 0) by {
                assert(ps[i].0 != ps[j].0);
            }
            lemma_term_value_agrees(ps, s0, sr, v, i + 1);
            lemma_term_value_agrees(ps, s1, sr, v, i + 1);
            let t = term_value_from(ps, sr, i + 1);
            lemma_term_value_in_field(ps, sr, i + 1);
            lemma_pow1(s0[v]);
            lemma_pow1(s1[v]);
            lemma_pow1(sr[v]);
            lemma_small_mod(0, p as nat);
            lemma_small_mod(1, p as nat);
            lemma_small_mod(r as nat, p as nat);
            lemma_small_mod(t as nat, p as nat);
            assert(term_value_from(ps, s0, i) == f_mul(0, t));
            assert(f_mul(0, t) == 0);
            assert(term_value_from(ps, s1, i) == f_mul(1, t));
            assert(f_mul(1, t) == t);
            lemma_combine_from_zero(t, r);
        } else {
            assert(f_pow(s0[w], e) == f_pow(sr[w], e) && f_pow(s1[w], e) == f_pow(sr[w], e)) by {
                if w == v {
                    lemma_pow0(s0[w]);
                    lemma_pow0(s1[w]);
                    lemma_pow0(sr[w]);
                }
            }
            lemma_term_value_blends(ps, s0, s1, sr, v, r, i + 1);
            lemma_combine_scalar(
                f_pow(sr[w], e),
                term_value_from(ps, s0, i + 1),
                term_value_from(ps, s1, i + 1),
                r,
            );
        }
    }
}

/// The blend decomposition of a whole multilinear factor: its value at the
/// point holding `r` in variable `v` is the blend of its values at the
/// points holding 0 and 1 there.
proof fn lemma_poly_value_blends(
    terms: Seq<TermModel>,
    s0: Seq<int>,
    s1: Seq<int>,
    sr: Seq<int>,
    v: int,
    r: int,
    i: int,
)
    requires
        0 <= i,
        s0.len() == s1.len(),
        s0.len() == sr.len(),
        0 <= v < s0.len(),
        forall|u: int| 0 <= u < s0.len() && u != v ==> s0[u] == s1[u] && s0[u] == sr[u],
        s0[v] == 0,
        s1[v] == 1,
        sr[v] == r,
        in_field(r),
        forall|kk: int| 0 <= kk < terms.len() ==> term_multilinear(#[trigger] terms[kk]),
        forall|kk: int, j: int|
            0 <= kk < terms.len() && 0 <= j < terms[kk].powers.len() ==> (
            #[trigger] terms[kk].powers[j]).0 < s0.len(),
    ensures
        combine_val(poly_value_from(terms, s0, i), poly_value_from(terms, s1, i), r)
            == poly_value_from(terms, sr, i),
    decreases terms.len() - i,
{
    if i >= terms.len() {
        lemma_combine_from_zero(0, r);
        lemma_small_mod(0, field_order() as nat);
    } else {
        let ps = terms[i].powers;
        let coeff = terms[i].coeff;
        lemma_term_value_blends(ps, s0, s1, sr, v, r, 0);
        lemma_combine_scalar(
            coeff,
            term_value_from(ps, s0, 0),
            term_value_from(ps, s1, 0),
            r,
        );
        lemma_poly_value_blends(terms, s0, s1, sr, v, r, i + 1);
        lemma_combine_additive(
            f_mul(coeff, term_value(ps, s0)),
            f_mul(coeff, term_value(ps, s1)),
            poly_value_from(terms, s0, i + 1),
            poly_value_from(terms, s1, i + 1),
            r,
        );
    }
}

/// The binary encoding of an index below `2^k`, over one more bit, starts
/// with a zero bit.
proof fn lemma_binary_point_low(b: int, k: nat)
    requires
        0 <= b < pow2(k),
    ensures
        binary_point(b, (k + 1) as nat) =~= seq![0int].add(binary_point(b, k)),
{
    lemma_pow2_pos(k);
    assert forall|i: int| 0 <= i < k + 1 implies binary_point(b, (k + 1) as nat)[i] == seq![
        0int,
    ].add(binary_point(b, k))[i] by {
        if i == 0 {
            lemma_basic_div(b, pow2(k) as int);
            lemma_small_mod(0, 2);
        }
    }
}

/// Adding `2^k` to an index below `2^k` sets the leading bit of its
/// `k + 1`-bit encoding and leaves the remaining bits unchanged.
proof fn lemma_binary_point_high(b: int, k: nat)
    requires
        0 <= b < pow2(k),
    ensures
        binary_point(b + pow2(k), (k + 1) as nat) =~= seq![1int].add(binary_point(b, k)),
{
    lemma_pow2_pos(k);
    assert forall|i: int| 0 <= i < k + 1 implies binary_point(b + pow2(k), (k + 1) as nat)[i]
        == seq![1int].add(binary_point(b, k))[i] by {
        if i == 0 {
            lemma_basic_div(b, pow2(k) as int);
            lemma_hoist_over_denominator(b, 1, pow2(k));
            assert(1int % 2 == 1);
        } else {
            let sh = (k - i) as nat;
            lemma_pow2_pos(sh);
            lemma_pow2_pos((i - 1) as nat);
            lemma_pow2_adds(i as nat, sh);
            lemma_hoist_over_denominator(b, pow2(i as nat) as int, pow2(sh));
            lemma_pow2_unfold(i as nat);
            lemma_mod_multiples_vanish(
                pow2((i - 1) as nat) as int,
                b / pow2(sh) as int,
                2,
            );
        }
    }
}

/// Collapsing the partial table at a challenge is fixing the next variable
/// to that challenge, for a well-formed multilinear factor.
proof fn lemma_partial_table_collapse(m: PolyModel, rho: Seq<int>, k: nat, r: int)
    requires
        poly_multilinear(m),
        model_wf(m),
        m.arity == rho.len() + k + 1,
        in_field(r),
    ensures
        collapse_table(partial_table(m, rho, (k + 1) as nat), r) =~= partial_table(
            m,
            rho.push(r),
            k,
        ),
{
    let pt = partial_table(m, rho, (k + 1) as nat);
    lemma_pow2_unfold((k + 1) as nat);
    assert(pt.len() / 2 == pow2(k));
    assert forall|b: int| 0 <= b < pow2(k) implies collapse_table(pt, r)[b] == partial_table(
        m,
        rho.push(r),
        k,
    )[b] by {
        let beta = binary_point(b, k);
        lemma_binary_point_low(b, k);
        lemma_binary_point_high(b, k);
        let v = rho.len() as int;
        let s0 = extended_point(rho, b, (k + 1) as nat);
        let s1 = extended_point(rho, b + pow2(k), (k + 1) as nat);
        let sr = extended_point(rho.push(r), b, k);
        assert(binary_point(b, (k + 1) as nat) == seq![0int].add(beta));
        assert(binary_point(b + pow2(k), (k + 1) as nat) == seq![1int].add(beta));
        assert(s0.len() == rho.len() + k + 1);
        assert(s1.len() == rho.len() + k + 1);
        assert(sr.len() == rho.len() + k + 1);
        assert(s0[v] == 0);
        assert(s1[v] == 1);
        assert(sr[v] == r);
        assert forall|u: int| 0 <= u < s0.len() && u != v implies s0[u] == s1[u] && s0[u]
            == sr[u] by {
            if u < v {
                assert(s0[u] == rho[u]);
                assert(sr[u] == rho.push(r)[u]);
            } else {
                assert(s0[u] == seq![0int].add(beta)[u - rho.len()]);
                assert(s1[u] == seq![1int].add(beta)[u - rho.len()]);
                assert(sr[u] == beta[u - (rho.len() + 1)]);
            }
        }
        assert forall|kk: int, j: int|
            0 <= kk < m.terms.len() && 0 <= j < m.terms[kk].powers.len() implies (
        #[trigger] m.terms[kk].powers[j]).0 < s0.len() by {
            assert(m.terms[kk].powers[j].0 < m.arity);
        }
        lemma_poly_value_blends(m.terms, s0, s1, sr, v, r, 0);
        assert(collapse_table(pt, r)[b] == combine_val(pt[b], pt[b + pow2(k)], r));
    }
}

/// Every entry of a partial table is a reduced residue.
proof fn lemma_partial_table_in_field(m: PolyModel, rho: Seq<int>, k: nat)
    ensures
        seq_in_field(partial_table(m, rho, k)),
{
    assert forall|b: int| 0 <= b < partial_table(m, rho, k).len() implies in_field(
        #[trigger] partial_table(m, rho, k)[b],
    ) by {
        lemma_poly_value_in_field(m.terms, extended_point(rho, b, k), 0);
    }
}

/// The honest single-factor run accepts, from any intermediate state:
/// with the factor's partial table after the challenges recorded so far and
/// the running target equal to that table's true sum, every remaining
/// round's check passes and the final oracle check succeeds, whatever
/// challenges are drawn.
proof fn lemma_single_factor_run_accepts(m: PolyModel, rho: Seq<int>, k: nat, ch: Seq<int>)
    requires
        poly_multilinear(m),
        model_wf(m),
        m.arity == rho.len() + k,
        ch.len() >= k,
        forall|t: int| 0 <= t < ch.len() ==> in_field(#[trigger] ch[t]),
    ensures
        protocol_run(
            seq![partial_table(m, rho, k)],
            seq![m],
            table_sum_from(partial_table(m, rho, k), 0, pow2(k) as int),
            rho,
            k,
            ch,
        ).accept,
    decreases k,
{
    let pt = partial_table(m, rho, k);
    let running = table_sum_from(pt, 0, pow2(k) as int);
    lemma_partial_table_in_field(m, rho, k);
    lemma_pow2_pos(k);
    if k == 0 {
        vstd::arithmetic::power2::lemma2_to64();
        assert(binary_point(0, 0) =~= Seq::<int>::empty());
        assert(extended_point(rho, 0, 0) =~= rho);
        lemma_poly_value_in_field(m.terms, rho, 0);
        assert(product_value_from(seq![m], rho, 1) == 1);
        assert(product_value(seq![m], rho) == f_mul(poly_value(m, rho), 1));
        lemma_mul_mod_noop_left(poly_value(m, rho), 1, field_order());
        lemma_small_mod(poly_value(m, rho) as nat, field_order() as nat);
        assert(table_sum_from(pt, 0, 0) == 0);
        assert(table_sum_from(pt, 0, 1) == f_add(table_sum_from(pt, 0, 0), pt[0]));
        assert(running == f_add(0, pt[0]));
        lemma_small_mod(pt[0] as nat, field_order() as nat);
    } else {
        let half = pow2((k - 1) as nat) as int;
        lemma_pow2_unfold(k);
        assert(pt.len() as int / 2 == half);
        let msg = round_message(seq![pt], half);
        crate::protocol::laws::lemma_honest_message_consistent(seq![pt], half);
        lemma_single_hypercube_sum(pt, 2 * half);
        assert(f_add(msg[0], msg[1]) == running);
        let r = ch[0];
        lemma_partial_table_collapse(m, rho, (k - 1) as nat, r);
        assert(collapse_tables(seq![pt], r) =~= seq![collapse_table(pt, r)]);
        lemma_single_round_preserved(pt, r, half);
        assert forall|t: int| 0 <= t < ch.drop_first().len() implies in_field(
            #[trigger] ch.drop_first()[t],
        ) by {
            assert(ch.drop_first()[t] == ch[t + 1]);
        }
        lemma_single_factor_run_accepts(m, rho.push(r), (k - 1) as nat, ch.drop_first());
    }
}

/// Completeness for a claim with a single multilinear factor: when the
/// running target is the factor's true hypercube sum, the run model accepts
/// for every draw of in-field challenges, returning one challenge per
/// variable.
pub proof fn lemma_completeness_single_factor(m: PolyModel, rounds: nat, ch: Seq<int>)
    requires
        poly_multilinear(m),
        model_wf(m),
        m.arity == rounds,
        ch.len() >= rounds,
        forall|t: int| 0 <= t < ch.len() ==> in_field(#[trigger] ch[t]),
    ensures
        protocol_run(
            seq![hypercube_table(m)],
            seq![m],
            hypercube_sum(seq![hypercube_table(m)], pow2(rounds) as int),
            Seq::<int>::empty(),
            rounds,
            ch,
        ).accept,
        protocol_run(
            seq![hypercube_table(m)],
            seq![m],
            hypercube_sum(seq![hypercube_table(m)], pow2(rounds) as int),
            Seq::<int>::empty(),
            rounds,
            ch,
        ).randomness.len() == rounds,
{
    let empty = Seq::<int>::empty();
    assert(hypercube_table(m) =~= partial_table(m, empty, rounds)) by {
        assert forall|b: int| 0 <= b < pow2(rounds) implies hypercube_table(m)[b]
            == partial_table(m, empty, rounds)[b] by {
            assert(extended_point(empty, b, rounds) =~= binary_point(b, rounds));
        }
    }
    lemma_partial_table_in_field(m, empty, rounds);
    lemma_single_hypercube_sum(hypercube_table(m), pow2(rounds) as int);
    lemma_single_factor_run_accepts(m, empty, rounds, ch);
    crate::protocol::laws::lemma_transcript_shape(
        seq![hypercube_table(m)],
        seq![m],
        hypercube_sum(seq![hypercube_table(m)], pow2(rounds) as int),
        empty,
        rounds,
        ch,
    );
}

/// Completeness at the orchestrator's boundary: any transcript explained by
/// some challenge draw over an honest single-factor claim (tables built
/// from the factor, target equal to the true hypercube sum) accepts, with
/// one challenge recorded per variable.
pub proof fn lemma_single_factor_transcript_accepts(
    accept: bool,
    rand_vals: Seq<int>,
    m: PolyModel,
    rounds: nat,
)
    requires
        poly_multilinear(m),
        model_wf(m),
        m.arity == rounds,
        explained_by_some_challenges(
            accept,
            rand_vals,
            seq![hypercube_table(m)],
            seq![m],
            hypercube_sum(seq![hypercube_table(m)], pow2(rounds) as int),
            rounds,
        ),
    ensures
        accept,
        rand_vals.len() == rounds,
{
    let tables = seq![hypercube_table(m)];
    let running = hypercube_sum(tables, pow2(rounds) as int);
    let ch = choose|ch: Seq<int>|
        transcript_matches(accept, rand_vals, tables, seq![m], running, rounds, ch);
    lemma_completeness_single_factor(m, rounds, ch);
}

} // verus!
