//! The Verifier: per-round consistency checks, random challenges, and the
//! final oracle check against the original factors.

use crate::field::{
    f_add, f_div, f_mul, f_sub, field_order, in_field, lemma_field_eq_is_view_eq, FieldElement,
    FIELD_MODULUS,
};
use crate::polynomial::{
    clone_polynomials, evaluate_mvml_polynomial, product_model, product_value, values_of,
    PolynomialDescription, ProductMLPolynomial,
};
use crate::protocol::rejection::RejectError;
use rand::Rng;
use vstd::arithmetic::div_mod::{lemma_small_mod, lemma_sub_mod_noop, lemma_sub_mod_noop_right};
use vstd::prelude::*;

verus! {

/// The Lagrange basis factors of node `i` over the nodes `j, ..., n - 1`:
/// the product of `(r - j') / (i - j')` for `j'` in that range, `j' != i`.
pub open spec fn lagrange_basis_from(i: int, r: int, n: int, j: int) -> int
    decreases n - j,
{
    if j < 0 || j >= n {
        1
    } else if j == i {
        lagrange_basis_from(i, r, n, j + 1)
    } else {
        f_mul(f_div(f_sub(r, j), f_sub(i, j)), lagrange_basis_from(i, r, n, j + 1))
    }
}

/// The tail of the Lagrange interpolation sum from node `i` on: each value
/// weighted by its full basis polynomial at `r`.
pub open spec fn lagrange_sum_from(ys: Seq<int>, r: int, i: int) -> int
    decreases ys.len() - i,
{
    if i < 0 || i >= ys.len() {
        0
    } else {
        f_add(
            f_mul(ys[i], lagrange_basis_from(i, r, ys.len() as int, 0)),
            lagrange_sum_from(ys, r, i + 1),
        )
    }
}

/// The value at `r` of the unique polynomial of degree below `ys.len()`
/// through the points `(0, ys[0]), ..., (ys.len() - 1, ys[last])`, by
/// Lagrange interpolation.
pub open spec fn lagrange_eval(ys: Seq<int>, r: int) -> int {
    lagrange_sum_from(ys, r, 0)
}

/// The Verifier's working state: the original claim (needed for the final
/// oracle check), the running target, and the challenges drawn so far.
pub struct VerifierState {
    pub last_round: usize,
    pub num_polys: usize,
    pub poly: ProductMLPolynomial,
    pub claimed_sum: FieldElement,
    pub running_eval: FieldElement,
    pub randomness: Vec<FieldElement>,
}

/// The Verifier's operations; it keeps no state of its own.
pub struct Verifier {}

/// Relies on `rand::Rng::gen_range` over `rand::thread_rng`: returns a
/// value drawn uniformly below the bound, which is all that can be said of
/// a random sample.
#[verifier::external_body]
fn sample_below(bound: u64) -> (r: u64)
    requires
        bound > 0,
    ensures
        r < bound,
{
    rand::thread_rng().gen_range(0..bound)
}

/// Copies a vector of field elements.
pub(crate) fn copy_elements(v: &Vec<FieldElement>) -> (r: Vec<FieldElement>)
    ensures
        r@ == v@,
{
    let mut out: Vec<FieldElement> = Vec::new();
    let mut i: usize = 0;
    while i < v.len()
        invariant
            0 <= i <= v@.len(),
            out@.len() == i,
            forall|j: int| 0 <= j < i ==> #[trigger] out@[j] == v@[j],
        decreases v@.len() - i,
    {
        out.push(v[i]);
        i += 1;
    }
    proof {
        assert(out@ =~= v@);
    }
    out
}

impl Verifier {
    /// Starts a protocol run: the running target is the claimed sum, no
    /// challenges have been drawn, and a private copy of the claim is kept
    /// for the final check.
    pub fn initialize(poly: &ProductMLPolynomial, claimed: FieldElement) -> (st: VerifierState)
        ensures
            st.last_round == 0,
            st.num_polys == poly@.len(),
            st.poly@.len() == poly@.len(),
            product_model(st.poly@) == product_model(poly@),
            forall|k: int|
                0 <= k < poly@.len() ==> (#[trigger] st.poly@[k]).num_vars == poly@[k].num_vars,
            st.claimed_sum == claimed,
            st.running_eval == claimed,
            st.randomness@ == Seq::<FieldElement>::empty(),
    {
        let st = VerifierState {
            last_round: 0,
            num_polys: poly.len(),
            poly: clone_polynomials(poly),
            claimed_sum: claimed,
            running_eval: claimed,
            randomness: Vec::new(),
        };
        proof {
            assert(st.randomness@ =~= Seq::<FieldElement>::empty());
        }
        st
    }

    /// One Verifier round. The message must reconstruct the running target
    /// as `g(0) + g(1)`; if it does not, the claim is rejected. Otherwise a
    /// fresh random challenge is drawn, recorded, and the target becomes
    /// the message polynomial's value at the challenge.
    pub fn round(state: VerifierState, mvml_desc: PolynomialDescription) -> (res: Result<
        (FieldElement, VerifierState),
        RejectError,
    >)
        requires
            mvml_desc@.len() >= 2,
            state.last_round < usize::MAX,
        ensures
            res is Ok <==> f_add(mvml_desc@[0]@, mvml_desc@[1]@) == state.running_eval@,
            res matches Ok((challenge, st)) ==> {
                &&& in_field(challenge@)
                &&& st.last_round == state.last_round + 1
                &&& st.num_polys == state.num_polys
                &&& st.poly == state.poly
                &&& st.claimed_sum == state.claimed_sum
                &&& st.randomness@ == state.randomness@.push(challenge)
                &&& st.running_eval@ == lagrange_eval(values_of(mvml_desc@), challenge@)
                &&& in_field(st.running_eval@)
            },
    {
        let ev = Self::evaluate_intermediate(&mvml_desc);
        proof {
            lemma_field_eq_is_view_eq(ev, state.running_eval);
        }
        if ev != state.running_eval {
            return Result::Err(RejectError::new("Rejecting the Prover's claim!"));
        }
        let sample = sample_below(FIELD_MODULUS);
        proof {
            lemma_small_mod(sample as nat, FIELD_MODULUS as nat);
        }
        let r = FieldElement::from_u64(sample);
        let mut new_rand = copy_elements(&state.randomness);
        new_rand.push(r);
        let new_state = VerifierState {
            last_round: state.last_round + 1,
            num_polys: state.num_polys,
            poly: state.poly,
            claimed_sum: state.claimed_sum,
            running_eval: Self::evaluate_at_random_point(&mvml_desc, r),
            randomness: new_rand,
        };
        Result::Ok((r, new_state))
    }

    /// The message polynomial's claimed sum over `{0, 1}`: `g(0) + g(1)`.
    pub fn evaluate_intermediate(mvml_desc: &PolynomialDescription) -> (r: FieldElement)
        requires
            mvml_desc@.len() >= 2,
        ensures
            r@ == f_add(mvml_desc@[0]@, mvml_desc@[1]@),
            in_field(r@),
    {
        let a = mvml_desc[0];
        let b = mvml_desc[1];
        a.add(b)
    }

    /// The value at `r` of the unique polynomial of degree below the
    /// message length through the message's points, by Lagrange
    /// interpolation over the nodes `0, 1, ..., len - 1`.
    pub fn evaluate_at_random_point(mvml_descr: &PolynomialDescription, r: FieldElement) -> (out:
        FieldElement)
        requires
            mvml_descr@.len() >= 1,
        ensures
            out@ == lagrange_eval(values_of(mvml_descr@), r@),
            in_field(out@),
    {
        let ghost ys = values_of(mvml_descr@);
        let n = mvml_descr.len();
        let mut result = FieldElement::zero();
        let mut i = n;
        while i > 0
            invariant
                0 <= i <= n,
                n == mvml_descr@.len(),
                ys == values_of(mvml_descr@),
                result@ == lagrange_sum_from(ys, r@, i as int),
                in_field(result@),
            decreases i,
        {
            i -= 1;
            let y_i = mvml_descr[i];
            let mut l_i_r = FieldElement::one();
            let mut j = n;
            while j > 0
                invariant
                    0 <= j <= n,
                    0 <= i < n,
                    n == mvml_descr@.len(),
                    ys == values_of(mvml_descr@),
                    l_i_r@ == lagrange_basis_from(i as int, r@, n as int, j as int),
                    in_field(l_i_r@),
                decreases j,
            {
                j -= 1;
                if i != j {
                    let x_i = FieldElement::from_u64(i as u64);
                    let x_j = FieldElement::from_u64(j as u64);
                    proof {
                        lemma_sub_mod_noop_right(r@, j as int, field_order());
                        lemma_sub_mod_noop(i as int, j as int, field_order());
                    }
                    l_i_r = r.sub(x_j).div(x_i.sub(x_j)).mul(l_i_r);
                }
            }
            result = y_i.mul(l_i_r).add(result);
        }
        result
    }

    /// The final oracle check: the original factors, evaluated at the full
    /// challenge vector and multiplied, must match the running target. The
    /// full challenge vector is always handed back.
    pub fn sanity_check(state: VerifierState) -> (r: (bool, Vec<FieldElement>))
        requires
            forall|k: int|
                0 <= k < state.poly@.len() ==> (#[trigger] state.poly@[k]).wf()
                    && state.poly@[k].num_vars == state.randomness@.len(),
        ensures
            r.1 == state.randomness,
            r.0 == (product_value(product_model(state.poly@), values_of(state.randomness@))
                == state.running_eval@),
    {
        let value = evaluate_mvml_polynomial(state.poly, &state.randomness);
        proof {
            lemma_field_eq_is_view_eq(value, state.running_eval);
        }
        let accept = value == state.running_eval;
        (accept, state.randomness)
    }
}

} // verus!
