//! The Prover: dense evaluation tables and per-round messages.
//!
//! At protocol start the Prover tabulates every factor over the whole
//! hypercube and announces the claimed sum. Each round it publishes the
//! values `g(0), ..., g(m)` of the round's univariate polynomial, and, once
//! the Verifier's challenge arrives, collapses every table to half its size
//! by fixing the leading free variable to the challenge.

use crate::field::{f_add, f_mul, in_field, FieldElement};
use crate::polynomial::{
    common_num_vars, evaluate_polynomial_on_hypercube, get_num_vars, hypercube_table, poly_model,
    pow2_exec, values_of, EvalTable, PolynomialDescription, ProductMLPolynomial,
};
use vstd::arithmetic::div_mod::lemma_mul_mod_noop_left;
use vstd::arithmetic::power2::{lemma_pow2_strictly_increases, lemma_pow2_unfold, pow2};
use vstd::prelude::*;

verus! {

/// The residues held by each evaluation table.
pub open spec fn tables_values(maps: Seq<EvalTable>) -> Seq<Seq<int>> {
    maps.map_values(|t: EvalTable| values_of(t@))
}

/// Every table has length `len`.
pub open spec fn tables_len(tables: Seq<Seq<int>>, len: nat) -> bool {
    forall|k: int| 0 <= k < tables.len() ==> (#[trigger] tables[k]).len() == len
}

/// Every table entry is a reduced residue.
pub open spec fn tables_in_field(tables: Seq<Seq<int>>) -> bool {
    forall|k: int, b: int|
        0 <= k < tables.len() && 0 <= b < tables[k].len() ==> in_field(#[trigger] tables[k][b])
}

/// The affine blend `a0 - r*a0 + r*a1` of two table entries, in the field:
/// the value at `r` of the line through `(0, a0)` and `(1, a1)`.
pub open spec fn combine_val(a0: int, a1: int, r: int) -> int {
    f_add(crate::field::f_sub(a0, f_mul(r, a0)), f_mul(r, a1))
}

/// The product, over the factors from index `i` on, of each factor's blend
/// between table entries `b0` and `b1` at parameter `j`.
pub open spec fn blend_product_from(
    tables: Seq<Seq<int>>,
    b0: int,
    b1: int,
    j: int,
    i: int,
) -> int
    decreases tables.len() - i,
{
    if i < 0 || i >= tables.len() {
        1
    } else {
        f_mul(
            combine_val(tables[i][b0], tables[i][b1], j),
            blend_product_from(tables, b0, b1, j, i + 1),
        )
    }
}

/// The product over all factors of the blend between entries `b0` and `b1`
/// at parameter `j`.
pub open spec fn blend_product(tables: Seq<Seq<int>>, b0: int, b1: int, j: int) -> int {
    blend_product_from(tables, b0, b1, j, 0)
}

/// `sum over b < count` of the blend products between entries `b` and
/// `b + half`: the value `g(j)` of the round polynomial once `count == half`.
pub open spec fn message_point_sum(tables: Seq<Seq<int>>, half: int, j: int, count: int) -> int
    decreases count,
{
    if count <= 0 {
        0
    } else {
        f_add(
            message_point_sum(tables, half, j, count - 1),
            blend_product(tables, count - 1, count - 1 + half, j),
        )
    }
}

/// The whole round message: `g(0), ..., g(m)` for `m` factors.
pub open spec fn round_message(tables: Seq<Seq<int>>, half: int) -> Seq<int> {
    Seq::new((tables.len() + 1) as nat, |j: int| message_point_sum(tables, half, j, half))
}

/// The product over the factors from index `i` on of their entries at `b`.
pub open spec fn point_product_from(tables: Seq<Seq<int>>, b: int, i: int) -> int
    decreases tables.len() - i,
{
    if i < 0 || i >= tables.len() {
        1
    } else {
        f_mul(tables[i][b], point_product_from(tables, b, i + 1))
    }
}

/// The product over all factors of their entries at `b`.
pub open spec fn point_product(tables: Seq<Seq<int>>, b: int) -> int {
    point_product_from(tables, b, 0)
}

/// `sum over b < count` of the per-point products: the hypercube sum of the
/// product of the tabulated factors once `count` is the table length.
pub open spec fn hypercube_sum(tables: Seq<Seq<int>>, count: int) -> int
    decreases count,
{
    if count <= 0 {
        0
    } else {
        f_add(hypercube_sum(tables, count - 1), point_product(tables, count - 1))
    }
}

/// One table after a challenge `r` fixes its leading free variable: entry
/// `b` blends the old entries `b` and `b + half`.
pub open spec fn collapse_table(t: Seq<int>, r: int) -> Seq<int> {
    Seq::new(t.len() / 2, |b: int| combine_val(t[b], t[b + t.len() / 2], r))
}

/// All tables collapsed with the same challenge.
pub open spec fn collapse_tables(tables: Seq<Seq<int>>, r: int) -> Seq<Seq<int>> {
    tables.map_values(|t: Seq<int>| collapse_table(t, r))
}

/// Powers of two do not decrease with the exponent.
proof fn lemma_pow2_le(e1: nat, e2: nat)
    requires
        e1 <= e2,
    ensures
        pow2(e1) <= pow2(e2),
{
    if e1 < e2 {
        lemma_pow2_strictly_increases(e1, e2);
    }
}

/// The Prover's working state: one dense table per factor, shrinking by
/// half each completed round.
pub struct ProverState {
    pub last_round: usize,
    pub num_vars: usize,
    pub num_polys: usize,
    pub maps: Vec<EvalTable>,
}

impl ProverState {
    /// The residues currently tabulated, one sequence per factor.
    pub open spec fn tables(self) -> Seq<Seq<int>> {
        tables_values(self.maps@)
    }

    /// Structural soundness: one nonempty table per factor, each of the
    /// length dictated by the rounds already played, all entries reduced.
    pub open spec fn wf(self) -> bool {
        &&& self.maps@.len() == self.num_polys
        &&& self.num_polys >= 1
        &&& self.num_polys < usize::MAX
        &&& self.last_round <= self.num_vars
        &&& self.num_vars < 64
        &&& pow2(self.num_vars as nat) <= usize::MAX
        &&& tables_len(self.tables(), pow2((self.num_vars - self.last_round) as nat))
        &&& tables_in_field(self.tables())
    }
}

/// The Prover's operations; it keeps no state of its own.
pub struct Prover {}

impl Prover {
    /// Tabulates every factor over the hypercube, sums the per-point
    /// products, and returns that claimed sum with the initial state.
    pub fn claim_sum(poly: &ProductMLPolynomial) -> (r: (FieldElement, ProverState))
        requires
            common_num_vars(poly@) is Some,
            forall|k: int| 0 <= k < poly@.len() ==> (#[trigger] poly@[k]).wf(),
            poly@[0].num_vars < 64,
            pow2(poly@[0].num_vars as nat) <= usize::MAX,
            poly@.len() < usize::MAX,
        ensures
            r.1.wf(),
            r.1.last_round == 0,
            r.1.num_vars == poly@[0].num_vars,
            r.1.num_polys == poly@.len(),
            forall|k: int|
                0 <= k < poly@.len() ==> r.1.tables()[k] == hypercube_table(
                    poly_model(#[trigger] poly@[k]),
                ),
            r.0@ == hypercube_sum(r.1.tables(), pow2(r.1.num_vars as nat) as int),
            in_field(r.0@),
    {
        let num_vars = match get_num_vars(poly) {
            Option::Some(n) => n,
            Option::None => 0,
        };
        let mut maps: Vec<EvalTable> = Vec::new();
        let mut k: usize = 0;
        while k < poly.len()
            invariant
                0 <= k <= poly@.len(),
                maps@.len() == k,
                common_num_vars(poly@) is Some,
                num_vars == poly@[0].num_vars,
                num_vars < 64,
                pow2(num_vars as nat) <= usize::MAX,
                forall|k0: int| 0 <= k0 < poly@.len() ==> (#[trigger] poly@[k0]).wf(),
                forall|k0: int|
                    0 <= k0 < k ==> values_of((#[trigger] maps@[k0])@) == hypercube_table(
                        poly_model(poly@[k0]),
                    ),
                forall|k0: int|
                    0 <= k0 < k ==> ((#[trigger] maps@[k0])@).len() == pow2(num_vars as nat),
                forall|k0: int, b: int|
                    0 <= k0 < k && 0 <= b < maps@[k0]@.len() ==> in_field(
                        (#[trigger] maps@[k0]@[b])@,
                    ),
            decreases poly@.len() - k,
        {
            let table = evaluate_polynomial_on_hypercube(&poly[k]);
            proof {
                assert(values_of(table@) =~= hypercube_table(poly_model(poly@[k as int])));
            }
            maps.push(table);
            k += 1;
        }
        let state = ProverState { last_round: 0, num_vars, num_polys: poly.len(), maps };
        let ghost tables = state.tables();
        let size = pow2_exec(num_vars);
        let mut claim = FieldElement::zero();
        let mut b: usize = 0;
        while b < size
            invariant
                0 <= b <= size,
                size == pow2(num_vars as nat),
                state.maps@.len() == poly@.len(),
                tables == state.tables(),
                tables.len() == state.maps@.len(),
                tables_len(tables, pow2(num_vars as nat)),
                tables_in_field(tables),
                claim@ == hypercube_sum(tables, b as int),
                in_field(claim@),
            decreases size - b,
        {
            let mut prod = FieldElement::one();
            let mut kk = state.maps.len();
            while kk > 0
                invariant
                    0 <= kk <= state.maps@.len(),
                    0 <= b < size,
                    size == pow2(num_vars as nat),
                    tables == state.tables(),
                    tables.len() == state.maps@.len(),
                    tables_len(tables, pow2(num_vars as nat)),
                    prod@ == point_product_from(tables, b as int, kk as int),
                    in_field(prod@),
                decreases kk,
            {
                kk -= 1;
                proof {
                    assert(tables[kk as int] == values_of(state.maps@[kk as int]@));
                    assert(tables[kk as int].len() == pow2(num_vars as nat));
                }
                prod = state.maps[kk][b].mul(prod);
            }
            claim = claim.add(prod);
            b += 1;
        }
        (claim, state)
    }

    /// Publishes the current round's message: the values `g(0), ..., g(m)`
    /// of the round polynomial, summed over the surviving half-cube. The
    /// state passes through unchanged.
    pub fn round_phase_1(state: ProverState) -> (r: (PolynomialDescription, ProverState))
        requires
            state.wf(),
            state.last_round < state.num_vars,
        ensures
            r.1 == state,
            r.0@.len() == state.num_polys + 1,
            values_of(r.0@) == round_message(
                state.tables(),
                pow2((state.num_vars - state.last_round - 1) as nat) as int,
            ),
            forall|j: int| 0 <= j < r.0@.len() ==> in_field((#[trigger] r.0@[j])@),
    {
        let num_vars = state.num_vars - state.last_round - 1;
        proof {
            lemma_pow2_strictly_increases(
                num_vars as nat,
                (state.num_vars - state.last_round) as nat,
            );
            lemma_pow2_le((state.num_vars - state.last_round) as nat, state.num_vars as nat);
            lemma_pow2_unfold((state.num_vars - state.last_round) as nat);
        }
        let half = pow2_exec(num_vars);
        let ghost tables = state.tables();
        let m = state.num_polys;
        let mut points: Vec<FieldElement> = filled_with_zero(m + 1);
        let mut b: usize = 0;
        while b < half
            invariant
                0 <= b <= half,
                half == pow2(num_vars as nat),
                num_vars == state.num_vars - state.last_round - 1,
                state.wf(),
                m == state.num_polys,
                tables == state.tables(),
                points@.len() == m + 1,
                forall|j: int|
                    0 <= j < points@.len() ==> (#[trigger] points@[j])@ == message_point_sum(
                        tables,
                        half as int,
                        j,
                        b as int,
                    ) && in_field(points@[j]@),
            decreases half - b,
        {
            proof {
                lemma_pow2_unfold((state.num_vars - state.last_round) as nat);
                lemma_pow2_le((state.num_vars - state.last_round) as nat, state.num_vars as nat);
            }
            let pts = Self::get_polynomial_points(&state, b, b + half);
            let mut next: Vec<FieldElement> = Vec::new();
            let mut j: usize = 0;
            while j < points.len()
                invariant
                    0 <= j <= points@.len(),
                    points@.len() == m + 1,
                    pts@.len() == m + 1,
                    next@.len() == j,
                    forall|j0: int|
                        0 <= j0 < j ==> (#[trigger] next@[j0])@ == f_add(
                            points@[j0]@,
                            pts@[j0]@,
                        ) && in_field(next@[j0]@),
                decreases points@.len() - j,
            {
                next.push(points[j].add(pts[j]));
                j += 1;
            }
            proof {
                assert(forall|j0: int|
                    0 <= j0 < next@.len() ==> (#[trigger] next@[j0])@ == message_point_sum(
                        tables,
                        half as int,
                        j0,
                        b + 1,
                    ));
            }
            points = next;
            b += 1;
        }
        proof {
            assert(values_of(points@) =~= round_message(tables, half as int));
        }
        (points, state)
    }

    /// For a pair of table indices, the per-factor blends multiplied across
    /// all factors, one product per evaluation point `j`.
    pub fn get_polynomial_points(state: &ProverState, b0: usize, b1: usize) -> (r:
        PolynomialDescription)
        requires
            state.wf(),
            b0 < pow2((state.num_vars - state.last_round) as nat),
            b1 < pow2((state.num_vars - state.last_round) as nat),
        ensures
            r@.len() == state.num_polys + 1,
            forall|j: int|
                0 <= j < r@.len() ==> (#[trigger] r@[j])@ == blend_product(
                    state.tables(),
                    b0 as int,
                    b1 as int,
                    j,
                ) && in_field(r@[j]@),
    {
        let ghost tables = state.tables();
        let m = state.num_polys;
        let mut points: Vec<FieldElement> = filled_with_one(m + 1);
        let mut k = state.maps.len();
        while k > 0
            invariant
                0 <= k <= state.maps@.len(),
                state.wf(),
                b0 < pow2((state.num_vars - state.last_round) as nat),
                b1 < pow2((state.num_vars - state.last_round) as nat),
                m == state.num_polys,
                tables == state.tables(),
                points@.len() == m + 1,
                forall|j: int|
                    0 <= j < points@.len() ==> (#[trigger] points@[j])@ == blend_product_from(
                        tables,
                        b0 as int,
                        b1 as int,
                        j,
                        k as int,
                    ) && in_field(points@[j]@),
            decreases k,
        {
            k -= 1;
            proof {
                assert(tables[k as int] == values_of(state.maps@[k as int]@));
                assert(tables[k as int].len() == pow2(
                    (state.num_vars - state.last_round) as nat,
                ));
            }
            let pts = Self::get_polynomial_descr_points(&state.maps[k], b0, b1, m);
            let mut next: Vec<FieldElement> = Vec::new();
            let mut j: usize = 0;
            while j < points.len()
                invariant
                    0 <= j <= points@.len(),
                    points@.len() == m + 1,
                    pts@.len() == m + 1,
                    next@.len() == j,
                    forall|j0: int|
                        0 <= j0 < j ==> (#[trigger] next@[j0])@ == f_mul(
                            pts@[j0]@,
                            points@[j0]@,
                        ) && in_field(next@[j0]@),
                decreases points@.len() - j,
            {
                next.push(pts[j].mul(points[j]));
                j += 1;
            }
            points = next;
        }
        points
    }

    /// The blends `a0 - j*a0 + j*a1` of one factor's table entries at `b0`
    /// and `b1`, for every evaluation point `j` up to the factor count.
    pub fn get_polynomial_descr_points(
        eval_table: &EvalTable,
        b0: usize,
        b1: usize,
        num_polys: usize,
    ) -> (r: PolynomialDescription)
        requires
            b0 < eval_table@.len(),
            b1 < eval_table@.len(),
            num_polys < usize::MAX,
        ensures
            r@.len() == num_polys + 1,
            forall|j: int|
                0 <= j < r@.len() ==> (#[trigger] r@[j])@ == combine_val(
                    eval_table@[b0 as int]@,
                    eval_table@[b1 as int]@,
                    j,
                ) && in_field(r@[j]@),
    {
        let mut points: Vec<FieldElement> = Vec::new();
        let mut j: usize = 0;
        while j < num_polys + 1
            invariant
                0 <= j <= num_polys + 1,
                num_polys < usize::MAX,
                b0 < eval_table@.len(),
                b1 < eval_table@.len(),
                points@.len() == j,
                forall|j0: int|
                    0 <= j0 < j ==> (#[trigger] points@[j0])@ == combine_val(
                        eval_table@[b0 as int]@,
                        eval_table@[b1 as int]@,
                        j0,
                    ) && in_field(points@[j0]@),
            decreases num_polys + 1 - j,
        {
            let t0 = eval_table[b0];
            let t1 = eval_table[b1];
            let jf = FieldElement::from_u64(j as u64);
            proof {
                lemma_mul_mod_noop_left(j as int, t0@, crate::field::field_order());
                lemma_mul_mod_noop_left(j as int, t1@, crate::field::field_order());
            }
            points.push(t0.sub(jf.mul(t0)).add(jf.mul(t1)));
            j += 1;
        }
        points
    }

    /// Consumes the Verifier's challenge: collapses every table to half its
    /// size and advances the round counter.
    pub fn round_phase_2(state: ProverState, r: FieldElement) -> (r2: ProverState)
        requires
            state.wf(),
            state.last_round < state.num_vars,
        ensures
            r2.wf(),
            r2.last_round == state.last_round + 1,
            r2.num_vars == state.num_vars,
            r2.num_polys == state.num_polys,
            r2.tables() == collapse_tables(state.tables(), r@),
    {
        let num_vars = state.num_vars - state.last_round - 1;
        proof {
            lemma_pow2_unfold((state.num_vars - state.last_round) as nat);
            lemma_pow2_le((state.num_vars - state.last_round) as nat, state.num_vars as nat);
            assert forall|k: int| 0 <= k < state.maps@.len() implies ((
            #[trigger] state.maps@[k])@).len() == pow2(num_vars as nat) * 2 by {
                assert(state.tables()[k].len() == pow2(
                    (state.num_vars - state.last_round) as nat,
                ));
            }
        }
        let new_map = reduce(num_vars, r, &state.maps);
        let new_state = ProverState {
            last_round: state.last_round + 1,
            num_vars: state.num_vars,
            num_polys: state.num_polys,
            maps: new_map,
        };
        proof {
            lemma_pow2_unfold((state.num_vars - state.last_round) as nat);
            assert forall|k: int| 0 <= k < new_state.tables().len() implies new_state.tables()[k]
                =~= collapse_tables(state.tables(), r@)[k] by {
                assert(state.tables()[k].len() == pow2(
                    (state.num_vars - state.last_round) as nat,
                ));
            }
            assert(new_state.tables() =~= collapse_tables(state.tables(), r@));
        }
        new_state
    }
}

/// Collapses every table with the same challenge.
fn reduce(num_vars: usize, r: FieldElement, tables: &Vec<EvalTable>) -> (out: Vec<EvalTable>)
    requires
        pow2(num_vars as nat) * 2 <= usize::MAX,
        forall|k: int|
            0 <= k < tables@.len() ==> ((#[trigger] tables@[k])@).len() == pow2(num_vars as nat)
                * 2,
    ensures
        out@.len() == tables@.len(),
        forall|k: int|
            0 <= k < out@.len() ==> values_of((#[trigger] out@[k])@) == collapse_table(
                values_of(tables@[k]@),
                r@,
            ) && out@[k]@.len() == pow2(num_vars as nat),
        forall|k: int, b: int|
            0 <= k < out@.len() && 0 <= b < out@[k]@.len() ==> in_field((#[trigger] out@[k]@[b])@),
{
    let mut out: Vec<EvalTable> = Vec::new();
    let mut k: usize = 0;
    while k < tables.len()
        invariant
            0 <= k <= tables@.len(),
            out@.len() == k,
            pow2(num_vars as nat) * 2 <= usize::MAX,
            forall|k0: int|
                0 <= k0 < tables@.len() ==> ((#[trigger] tables@[k0])@).len() == pow2(
                    num_vars as nat,
                ) * 2,
            forall|k0: int|
                0 <= k0 < k ==> values_of((#[trigger] out@[k0])@) == collapse_table(
                    values_of(tables@[k0]@),
                    r@,
                ) && out@[k0]@.len() == pow2(num_vars as nat),
            forall|k0: int, b: int|
                0 <= k0 < k && 0 <= b < out@[k0]@.len() ==> in_field(
                    (#[trigger] out@[k0]@[b])@,
                ),
        decreases tables@.len() - k,
    {
        let reduced = reduce_map(num_vars, r, &tables[k]);
        out.push(reduced);
        k += 1;
    }
    out
}

/// Collapses one table of size `2^(num_vars+1)` into one of size
/// `2^num_vars`, blending entries `b` and `b + 2^num_vars` with the
/// challenge.
pub fn reduce_map(num_vars: usize, r: FieldElement, map: &Vec<FieldElement>) -> (out: EvalTable)
    requires
        pow2(num_vars as nat) * 2 <= usize::MAX,
        map@.len() == pow2(num_vars as nat) * 2,
    ensures
        out@.len() == pow2(num_vars as nat),
        values_of(out@) == collapse_table(values_of(map@), r@),
        forall|b: int| 0 <= b < out@.len() ==> in_field((#[trigger] out@[b])@),
{
    let size = pow2_exec(num_vars);
    let mut out: Vec<FieldElement> = Vec::new();
    let mut b: usize = 0;
    while b < size
        invariant
            0 <= b <= size,
            size == pow2(num_vars as nat),
            size * 2 <= usize::MAX,
            map@.len() == size * 2,
            out@.len() == b,
            forall|b0: int|
                0 <= b0 < b ==> (#[trigger] out@[b0])@ == combine_val(
                    map@[b0]@,
                    map@[b0 + size]@,
                    r@,
                ) && in_field(out@[b0]@),
        decreases size - b,
    {
        out.push(combine_table_elements(b, num_vars, r, map));
        b += 1;
    }
    proof {
        assert(values_of(out@) =~= collapse_table(values_of(map@), r@));
    }
    out
}

/// One collapsed entry: the blend of `table[bit]` and
/// `table[bit + 2^num_vars]` at the challenge.
pub fn combine_table_elements(
    bit: usize,
    num_vars: usize,
    r: FieldElement,
    table: &EvalTable,
) -> (out: FieldElement)
    requires
        pow2(num_vars as nat) * 2 <= usize::MAX,
        bit < pow2(num_vars as nat),
        table@.len() == pow2(num_vars as nat) * 2,
    ensures
        out@ == combine_val(table@[bit as int]@, table@[bit + pow2(num_vars as nat)]@, r@),
        in_field(out@),
{
    let half = pow2_exec(num_vars);
    let a0 = table[bit];
    let a1 = table[bit + half];
    a0.sub(r.mul(a0)).add(r.mul(a1))
}

/// A vector of `n` zero elements.
fn filled_with_zero(n: usize) -> (r: Vec<FieldElement>)
    ensures
        r@.len() == n,
        forall|i: int| 0 <= i < n ==> (#[trigger] r@[i])@ == 0,
{
    let mut r: Vec<FieldElement> = Vec::new();
    let mut i: usize = 0;
    while i < n
        invariant
            0 <= i <= n,
            r@.len() == i,
            forall|i0: int| 0 <= i0 < i ==> (#[trigger] r@[i0])@ == 0,
        decreases n - i,
    {
        r.push(FieldElement::zero());
        i += 1;
    }
    r
}

/// A vector of `n` one elements.
fn filled_with_one(n: usize) -> (r: Vec<FieldElement>)
    ensures
        r@.len() == n,
        forall|i: int| 0 <= i < n ==> (#[trigger] r@[i])@ == 1,
{
    let mut r: Vec<FieldElement> = Vec::new();
    let mut i: usize = 0;
    while i < n
        invariant
            0 <= i <= n,
            r@.len() == i,
            forall|i0: int| 0 <= i0 < i ==> (#[trigger] r@[i0])@ == 1,
        decreases n - i,
    {
        r.push(FieldElement::one());
        i += 1;
    }
    r
}

} // verus!
