//! Multilinear factors in sparse-term form, and their evaluation.
//!
//! A factor is a multivariate polynomial given as a list of terms, each a
//! coefficient together with `(variable, power)` pairs. The protocol reads
//! two things from a factor: its variable count and its value at a point.
//! Both are specified against a ghost model of the term list, so that every
//! later contract can speak about the mathematical polynomial rather than
//! the container it is stored in.

use crate::field::{f_add, f_mul, f_pow, in_field, FieldElement};
use vstd::arithmetic::div_mod::lemma_div_denominator;
use vstd::arithmetic::power2::pow2;
use vstd::prelude::*;

verus! {

/// A product of multilinear factors, the shape of every protocol claim.
pub type ProductMLPolynomial = Vec<MLPolynomial>;

/// The values `g(0), ..., g(m)` of a round's univariate polynomial `g`:
/// enough points to reconstruct a polynomial of degree at most `m`.
pub type PolynomialDescription = Vec<FieldElement>;

/// A dense table of a factor's values over the remaining hypercube.
pub type EvalTable = Vec<FieldElement>;

/// Ghost model of one term: a residue coefficient and `(variable, power)`
/// pairs.
pub ghost struct TermModel {
    pub coeff: int,
    pub powers: Seq<(nat, nat)>,
}

/// Ghost model of a factor: its variable count and its terms.
pub ghost struct PolyModel {
    pub arity: nat,
    pub terms: Seq<TermModel>,
}

/// The residues of a sequence of field elements.
pub open spec fn values_of(s: Seq<FieldElement>) -> Seq<int> {
    s.map_values(|f: FieldElement| f@)
}

/// The model of one stored `(variable, power)` list.
pub open spec fn powers_model(ps: Seq<(usize, u64)>) -> Seq<(nat, nat)> {
    ps.map_values(|q: (usize, u64)| (q.0 as nat, q.1 as nat))
}

/// The model of one stored term.
pub open spec fn term_model(t: (FieldElement, Vec<(usize, u64)>)) -> TermModel {
    TermModel { coeff: t.0@, powers: powers_model(t.1@) }
}

/// The model of a stored factor.
pub open spec fn poly_model(p: MLPolynomial) -> PolyModel {
    PolyModel { arity: p.num_vars as nat, terms: p.terms@.map_values(|t| term_model(t)) }
}

/// The models of a list of stored factors.
pub open spec fn product_model(polys: Seq<MLPolynomial>) -> Seq<PolyModel> {
    polys.map_values(|p: MLPolynomial| poly_model(p))
}

/// The product of the variable powers of one term from index `i` on,
/// evaluated at `point`.
pub open spec fn term_value_from(powers: Seq<(nat, nat)>, point: Seq<int>, i: int) -> int
    decreases powers.len() - i,
{
    if i < 0 || i >= powers.len() {
        1
    } else {
        f_mul(f_pow(point[powers[i].0 as int], powers[i].1), term_value_from(powers, point, i + 1))
    }
}

/// The value of one term's monomial at `point`.
pub open spec fn term_value(powers: Seq<(nat, nat)>, point: Seq<int>) -> int {
    term_value_from(powers, point, 0)
}

/// The sum of the terms from index `i` on, each coefficient times its
/// monomial, at `point`.
pub open spec fn poly_value_from(terms: Seq<TermModel>, point: Seq<int>, i: int) -> int
    decreases terms.len() - i,
{
    if i < 0 || i >= terms.len() {
        0
    } else {
        f_add(
            f_mul(terms[i].coeff, term_value(terms[i].powers, point)),
            poly_value_from(terms, point, i + 1),
        )
    }
}

/// The value of a factor at `point`.
pub open spec fn poly_value(m: PolyModel, point: Seq<int>) -> int {
    poly_value_from(m.terms, point, 0)
}

/// The product of the factors from index `i` on, at `point`.
pub open spec fn product_value_from(ms: Seq<PolyModel>, point: Seq<int>, i: int) -> int
    decreases ms.len() - i,
{
    if i < 0 || i >= ms.len() {
        1
    } else {
        f_mul(poly_value(ms[i], point), product_value_from(ms, point, i + 1))
    }
}

/// The value of a product of factors at `point`.
pub open spec fn product_value(ms: Seq<PolyModel>, point: Seq<int>) -> int {
    product_value_from(ms, point, 0)
}

/// Every variable mentioned by a term exists: its index is below the
/// factor's variable count.
pub open spec fn model_wf(m: PolyModel) -> bool {
    forall|k: int, j: int|
        0 <= k < m.terms.len() && 0 <= j < m.terms[k].powers.len() ==> (
        #[trigger] m.terms[k].powers[j]).0 < m.arity
}

/// Degree at most one in each variable of one term: its variables are
/// pairwise distinct and no power exceeds one.
pub open spec fn term_multilinear(t: TermModel) -> bool {
    &&& forall|j: int| 0 <= j < t.powers.len() ==> (#[trigger] t.powers[j]).1 <= 1
    &&& forall|j1: int, j2: int|
        0 <= j1 < j2 < t.powers.len() ==> (#[trigger] t.powers[j1]).0 != (
        #[trigger] t.powers[j2]).0
}

/// Degree at most one in each variable, for every term of the factor.
pub open spec fn poly_multilinear(m: PolyModel) -> bool {
    forall|k: int| 0 <= k < m.terms.len() ==> term_multilinear(#[trigger] m.terms[k])
}

/// Bit `k` (counting from the least significant end) of `n`.
pub open spec fn bit_of(n: int, k: nat) -> int {
    (n / pow2(k) as int) % 2
}

/// The hypercube point whose index is `n`: the binary encoding of `n` over
/// `num_vars` bits, most significant bit first.
pub open spec fn binary_point(n: int, num_vars: nat) -> Seq<int> {
    Seq::new(num_vars, |i: int| bit_of(n, (num_vars - 1 - i) as nat))
}

/// The dense evaluation table of a factor over the whole hypercube: entry
/// `b` is the factor's value at the binary encoding of `b`.
pub open spec fn hypercube_table(m: PolyModel) -> Seq<int> {
    Seq::new(pow2(m.arity), |b: int| poly_value(m, binary_point(b, m.arity)))
}

/// A multilinear factor in sparse-term form. Each term pairs a coefficient
/// with the `(variable, power)` list of its monomial.
pub struct MLPolynomial {
    pub num_vars: usize,
    pub terms: Vec<(FieldElement, Vec<(usize, u64)>)>,
}

impl MLPolynomial {
    /// Whether every term only mentions existing variables.
    pub open spec fn wf(self) -> bool {
        model_wf(poly_model(self))
    }

    /// Builds a factor from its variable count and term list.
    pub fn new(num_vars: usize, terms: Vec<(FieldElement, Vec<(usize, u64)>)>) -> (r:
        MLPolynomial)
        ensures
            r.num_vars == num_vars,
            r.terms == terms,
    {
        MLPolynomial { num_vars, terms }
    }

    /// Runtime check of `wf`: every variable index is below `num_vars`.
    pub fn is_well_formed(&self) -> (r: bool)
        ensures
            r == self.wf(),
    {
        let ghost m = poly_model(*self);
        let mut k: usize = 0;
        while k < self.terms.len()
            invariant
                0 <= k <= self.terms@.len(),
                m == poly_model(*self),
                forall|k0: int, j0: int|
                    0 <= k0 < k && 0 <= j0 < m.terms[k0].powers.len() ==> (
                    #[trigger] m.terms[k0].powers[j0]).0 < m.arity,
            decreases self.terms@.len() - k,
        {
            let powers = &self.terms[k].1;
            let mut j: usize = 0;
            while j < powers.len()
                invariant
                    0 <= j <= powers@.len(),
                    0 <= k < self.terms@.len(),
                    powers == &self.terms@[k as int].1,
                    m == poly_model(*self),
                    forall|j0: int|
                        0 <= j0 < j ==> (#[trigger] m.terms[k as int].powers[j0]).0 < m.arity,
                decreases powers@.len() - j,
            {
                if powers[j].0 >= self.num_vars {
                    proof {
                        assert(m.terms[k as int].powers[j as int] == (
                            powers@[j as int].0 as nat,
                            powers@[j as int].1 as nat,
                        ));
                    }
                    return false;
                }
                j += 1;
            }
            k += 1;
        }
        true
    }

    /// Evaluates the factor at a point with one coordinate per variable.
    pub fn evaluate(&self, point: &Vec<FieldElement>) -> (r: FieldElement)
        requires
            self.wf(),
            point@.len() == self.num_vars,
        ensures
            r@ == poly_value(poly_model(*self), values_of(point@)),
            in_field(r@),
    {
        let ghost m = poly_model(*self);
        let ghost pt = values_of(point@);
        let mut acc = FieldElement::zero();
        let mut k = self.terms.len();
        while k > 0
            invariant
                0 <= k <= self.terms@.len(),
                m == poly_model(*self),
                pt == values_of(point@),
                self.wf(),
                point@.len() == self.num_vars,
                acc@ == poly_value_from(m.terms, pt, k as int),
                in_field(acc@),
            decreases k,
        {
            k -= 1;
            let term = &self.terms[k];
            let coeff = term.0;
            let powers = &term.1;
            let mut tacc = FieldElement::one();
            let mut j = powers.len();
            while j > 0
                invariant
                    0 <= j <= powers@.len(),
                    0 <= k < self.terms@.len(),
                    powers == &self.terms@[k as int].1,
                    m == poly_model(*self),
                    pt == values_of(point@),
                    self.wf(),
                    point@.len() == self.num_vars,
                    tacc@ == term_value_from(m.terms[k as int].powers, pt, j as int),
                decreases j,
            {
                j -= 1;
                let var = powers[j].0;
                let exp = powers[j].1;
                assert(m.terms[k as int].powers[j as int] == (var as nat, exp as nat));
                assert(var < self.num_vars);
                let pv = point[var];
                tacc = pv.pow(exp).mul(tacc);
            }
            acc = coeff.mul(tacc).add(acc);
        }
        acc
    }
}

/// Evaluates a product of multilinear factors at `point`, multiplying the
/// factors' values together.
pub fn evaluate_mvml_polynomial(mvml_polynomial: ProductMLPolynomial, point: &Vec<FieldElement>) -> (r:
    FieldElement)
    requires
        forall|k: int|
            0 <= k < mvml_polynomial@.len() ==> (#[trigger] mvml_polynomial@[k]).wf()
                && mvml_polynomial@[k].num_vars == point@.len(),
    ensures
        r@ == product_value(product_model(mvml_polynomial@), values_of(point@)),
        in_field(r@),
{
    let ghost ms = product_model(mvml_polynomial@);
    let ghost pt = values_of(point@);
    let mut acc = FieldElement::one();
    let mut k = mvml_polynomial.len();
    while k > 0
        invariant
            0 <= k <= mvml_polynomial@.len(),
            ms == product_model(mvml_polynomial@),
            pt == values_of(point@),
            forall|k0: int|
                0 <= k0 < mvml_polynomial@.len() ==> (#[trigger] mvml_polynomial@[k0]).wf()
                    && mvml_polynomial@[k0].num_vars == point@.len(),
            acc@ == product_value_from(ms, pt, k as int),
            in_field(acc@),
        decreases k,
    {
        k -= 1;
        let v = mvml_polynomial[k].evaluate(point);
        acc = v.mul(acc);
    }
    acc
}

/// The variable count shared by every factor of the list, if the list is
/// nonempty and the counts agree; `None` otherwise.
pub open spec fn common_num_vars(polys: Seq<MLPolynomial>) -> Option<usize> {
    if polys.len() == 0 {
        Option::None
    } else if forall|k: int|
        0 <= k < polys.len() ==> (#[trigger] polys[k]).num_vars == polys[0].num_vars {
        Option::Some(polys[0].num_vars)
    } else {
        Option::None
    }
}

/// Returns the factors' shared variable count, or `None` when the list is
/// empty or the counts differ.
pub fn get_num_vars(multilinears: &ProductMLPolynomial) -> (r: Option<usize>)
    ensures
        r == common_num_vars(multilinears@),
{
    if multilinears.len() == 0 {
        return Option::None;
    }
    let head = multilinears[0].num_vars;
    let mut k: usize = 1;
    while k < multilinears.len()
        invariant
            1 <= k <= multilinears@.len(),
            head == multilinears@[0].num_vars,
            forall|k0: int| 0 <= k0 < k ==> (#[trigger] multilinears@[k0]).num_vars == head,
        decreases multilinears@.len() - k,
    {
        if multilinears[k].num_vars != head {
            return Option::None;
        }
        k += 1;
    }
    Option::Some(head)
}

/// Computes the dense evaluation table of a factor over the whole boolean
/// hypercube: entry `b` is the factor's value at the binary encoding of `b`.
pub fn evaluate_polynomial_on_hypercube(p: &MLPolynomial) -> (r: EvalTable)
    requires
        p.wf(),
        p.num_vars < 64,
        pow2(p.num_vars as nat) <= usize::MAX,
    ensures
        r@.len() == pow2(p.num_vars as nat),
        forall|b: int|
            0 <= b < r@.len() ==> (#[trigger] r@[b])@ == poly_value(
                poly_model(*p),
                binary_point(b, p.num_vars as nat),
            ) && in_field(r@[b]@),
{
    let size = pow2_exec(p.num_vars);
    let mut table: Vec<FieldElement> = Vec::new();
    let mut b: usize = 0;
    while b < size
        invariant
            0 <= b <= size,
            size == pow2(p.num_vars as nat),
            p.wf(),
            p.num_vars < 64,
            table@.len() == b,
            forall|b0: int|
                0 <= b0 < b ==> (#[trigger] table@[b0])@ == poly_value(
                    poly_model(*p),
                    binary_point(b0, p.num_vars as nat),
                ) && in_field(table@[b0]@),
        decreases size - b,
    {
        let point = usize_to_binary_vector(b, p.num_vars);
        let value = p.evaluate(&point);
        table.push(value);
        b += 1;
    }
    table
}

/// Doubles up to the requested power of two.
pub fn pow2_exec(e: usize) -> (r: usize)
    requires
        pow2(e as nat) <= usize::MAX,
    ensures
        r == pow2(e as nat),
{
    proof {
        vstd::arithmetic::power2::lemma2_to64();
    }
    let mut r: usize = 1;
    let mut i: usize = 0;
    while i < e
        invariant
            0 <= i <= e,
            r == pow2(i as nat),
            pow2(e as nat) <= usize::MAX,
        decreases e - i,
    {
        proof {
            vstd::arithmetic::power2::lemma_pow2_unfold((i + 1) as nat);
            if i + 1 < e {
                vstd::arithmetic::power2::lemma_pow2_strictly_increases((i + 1) as nat, e as nat);
            }
        }
        r = r * 2;
        i += 1;
    }
    r
}

/// Writes `n` as a vector of binary field elements over `num_vars` bits,
/// most significant bit first.
pub fn usize_to_binary_vector(n: usize, num_vars: usize) -> (r: Vec<FieldElement>)
    requires
        num_vars <= 64,
    ensures
        r@.len() == num_vars,
        values_of(r@) == binary_point(n as int, num_vars as nat),
        forall|i: int| 0 <= i < num_vars ==> (#[trigger] r@[i])@ == 0 || r@[i]@ == 1,
{
    let mut lsb: Vec<FieldElement> = Vec::new();
    let mut m: usize = n;
    let mut k: usize = 0;
    proof {
        vstd::arithmetic::power2::lemma2_to64();
    }
    while k < num_vars
        invariant
            0 <= k <= num_vars,
            lsb@.len() == k,
            m == n as int / pow2(k as nat) as int,
            forall|j: int| 0 <= j < k ==> (#[trigger] lsb@[j])@ == bit_of(n as int, j as nat),
        decreases num_vars - k,
    {
        let bit = m % 2;
        lsb.push(FieldElement::from_u64(bit as u64));
        proof {
            vstd::arithmetic::div_mod::lemma_small_mod(
                bit as nat,
                crate::field::field_order() as nat,
            );
            vstd::arithmetic::power2::lemma_pow2_unfold((k + 1) as nat);
            vstd::arithmetic::power2::lemma_pow2_pos(k as nat);
            lemma_div_denominator(n as int, pow2(k as nat) as int, 2);
        }
        m = m / 2;
        k += 1;
    }
    let mut result: Vec<FieldElement> = Vec::new();
    let mut i: usize = 0;
    while i < num_vars
        invariant
            0 <= i <= num_vars,
            lsb@.len() == num_vars,
            result@.len() == i,
            forall|j: int| 0 <= j < num_vars ==> (#[trigger] lsb@[j])@ == bit_of(n as int, j as nat),
            forall|t: int|
                0 <= t < i ==> (#[trigger] result@[t])@ == bit_of(
                    n as int,
                    (num_vars - 1 - t) as nat,
                ),
        decreases num_vars - i,
    {
        result.push(lsb[num_vars - 1 - i]);
        i += 1;
    }
    proof {
        assert(values_of(result@) =~= binary_point(n as int, num_vars as nat));
        assert forall|i0: int| 0 <= i0 < num_vars implies (#[trigger] result@[i0])@ == 0
            || result@[i0]@ == 1 by {
            vstd::arithmetic::power2::lemma_pow2_pos((num_vars - 1 - i0) as nat);
        }
    }
    result
}

/// Copies a factor list element by element, preserving each factor's model.
pub fn clone_polynomials(polys: &ProductMLPolynomial) -> (r: ProductMLPolynomial)
    ensures
        r@.len() == polys@.len(),
        product_model(r@) == product_model(polys@),
        forall|k: int|
            0 <= k < polys@.len() ==> (#[trigger] r@[k]).num_vars == polys@[k].num_vars,
{
    let mut out: Vec<MLPolynomial> = Vec::new();
    let mut k: usize = 0;
    while k < polys.len()
        invariant
            0 <= k <= polys@.len(),
            out@.len() == k,
            forall|k0: int|
                0 <= k0 < k ==> poly_model(#[trigger] out@[k0]) == poly_model(polys@[k0])
                    && out@[k0].num_vars == polys@[k0].num_vars,
        decreases polys@.len() - k,
    {
        let src = &polys[k];
        let mut terms: Vec<(FieldElement, Vec<(usize, u64)>)> = Vec::new();
        let mut t: usize = 0;
        while t < src.terms.len()
            invariant
                0 <= t <= src.terms@.len(),
                terms@.len() == t,
                forall|t0: int|
                    0 <= t0 < t ==> term_model(#[trigger] terms@[t0]) == term_model(
                        src.terms@[t0],
                    ),
            decreases src.terms@.len() - t,
        {
            let coeff = src.terms[t].0;
            let mut powers: Vec<(usize, u64)> = Vec::new();
            let mut j: usize = 0;
            while j < src.terms[t].1.len()
                invariant
                    0 <= t < src.terms@.len(),
                    0 <= j <= src.terms@[t as int].1@.len(),
                    powers@.len() == j,
                    forall|j0: int|
                        0 <= j0 < j ==> #[trigger] powers@[j0] == src.terms@[t as int].1@[j0],
                decreases src.terms@[t as int].1@.len() - j,
            {
                powers.push(src.terms[t].1[j]);
                j += 1;
            }
            proof {
                assert(powers@ =~= src.terms@[t as int].1@);
            }
            terms.push((coeff, powers));
            t += 1;
        }
        let copy = MLPolynomial { num_vars: src.num_vars, terms };
        proof {
            assert(copy.terms@.map_values(|t0| term_model(t0)) =~= src.terms@.map_values(
                |t0| term_model(t0),
            ));
        }
        out.push(copy);
        k += 1;
    }
    proof {
        assert(product_model(out@) =~= product_model(polys@));
    }
    out
}

} // verus!
