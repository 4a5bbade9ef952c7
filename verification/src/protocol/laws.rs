//! Protocol-wide laws, proved over the ghost run model.
//!
//! The orchestrator's contract says its transcript is the run model's
//! outcome for the challenges that were drawn; the lemmas here pin down
//! what every such outcome looks like: how long the returned challenge
//! vector is in each terminal case, that the outcome is a function of the
//! challenges, and that a round message computed honestly from the tables
//! always reconstructs the true hypercube sum.

use crate::field::{f_add, field_order, in_field, lemma_f_add_assoc};
use crate::polynomial::PolyModel;
use crate::protocol::prover::{
    blend_product_from, combine_val, hypercube_sum, message_point_sum, point_product_from,
    round_message, tables_in_field, tables_len,
};
use crate::protocol::{protocol_run, rounds_completed, RunOutcome};
use vstd::arithmetic::div_mod::{lemma_mod_bound, lemma_small_mod};
use vstd::prelude::*;

verus! {

/// Determinism given randomness: the run model is a function, so two runs
/// over the same claim, started from the same states and drawing the same
/// challenges, produce identical transcripts.
pub proof fn lemma_transcript_deterministic(
    tables: Seq<Seq<int>>,
    polys: Seq<PolyModel>,
    running: int,
    rand: Seq<int>,
    rounds: nat,
    challenges: Seq<int>,
    first: RunOutcome,
    second: RunOutcome,
)
    requires
        first == protocol_run(tables, polys, running, rand, rounds, challenges),
        second == protocol_run(tables, polys, running, rand, rounds, challenges),
    ensures
        first == second,
{
}

/// The shape of every outcome. The returned challenge vector extends the
/// recorded one by exactly the number of rounds whose check passed, those
/// challenges are the ones offered, a run that stops early rejects, and an
/// accepting run plays every round.
///
/// In particular, started from an empty record: if the first failing check
/// is at round `i` (1-indexed), the returned vector has length `i - 1`, and
/// a rejection after all checks passed (at the final oracle check) returns
/// the full `rounds`-length vector.
pub proof fn lemma_transcript_shape(
    tables: Seq<Seq<int>>,
    polys: Seq<PolyModel>,
    running: int,
    rand: Seq<int>,
    rounds: nat,
    challenges: Seq<int>,
)
    requires
        challenges.len() >= rounds,
    ensures
        rounds_completed(tables, running, rounds, challenges) <= rounds,
        protocol_run(tables, polys, running, rand, rounds, challenges).randomness == rand.add(
            challenges.take(rounds_completed(tables, running, rounds, challenges) as int),
        ),
        protocol_run(tables, polys, running, rand, rounds, challenges).randomness.len()
            == rand.len() + rounds_completed(tables, running, rounds, challenges),
        rounds_completed(tables, running, rounds, challenges) < rounds ==> !protocol_run(
            tables,
            polys,
            running,
            rand,
            rounds,
            challenges,
        ).accept,
        protocol_run(tables, polys, running, rand, rounds, challenges).accept ==> protocol_run(
            tables,
            polys,
            running,
            rand,
            rounds,
            challenges,
        ).randomness.len() == rand.len() + rounds,
    decreases rounds,
{
    let outcome = protocol_run(tables, polys, running, rand, rounds, challenges);
    let rc = rounds_completed(tables, running, rounds, challenges);
    if rounds == 0 {
        assert(outcome.randomness =~= rand.add(challenges.take(0)));
    } else {
        let half = tables[0].len() as int / 2;
        let msg = round_message(tables, half);
        if f_add(msg[0], msg[1]) != running {
            assert(outcome.randomness =~= rand.add(challenges.take(0)));
        } else {
            let r = challenges[0];
            let next_tables = crate::protocol::prover::collapse_tables(tables, r);
            let next_running = crate::protocol::checker::lagrange_eval(msg, r);
            let rest = challenges.drop_first();
            lemma_transcript_shape(
                next_tables,
                polys,
                next_running,
                rand.push(r),
                (rounds - 1) as nat,
                rest,
            );
            let rc_rest = rounds_completed(next_tables, next_running, (rounds - 1) as nat, rest);
            assert(rand.push(r).add(rest.take(rc_rest as int)) =~= rand.add(
                challenges.take(rc as int),
            ));
        }
    }
}

/// Early-rejection shape: a run whose checks do not all pass rejects, and
/// returns exactly the challenges of its completed rounds — from an empty
/// record, a first failure at round `i` (1-indexed) returns `i - 1`
/// challenges, and an immediate failure returns none.
pub proof fn lemma_early_rejection_shape(
    tables: Seq<Seq<int>>,
    polys: Seq<PolyModel>,
    running: int,
    rand: Seq<int>,
    rounds: nat,
    challenges: Seq<int>,
)
    requires
        challenges.len() >= rounds,
        rounds_completed(tables, running, rounds, challenges) < rounds,
    ensures
        !protocol_run(tables, polys, running, rand, rounds, challenges).accept,
        protocol_run(tables, polys, running, rand, rounds, challenges).randomness.len()
            == rand.len() + rounds_completed(tables, running, rounds, challenges),
{
    lemma_transcript_shape(tables, polys, running, rand, rounds, challenges);
}

/// Final-check shape: a run whose every per-round check passes — so that
/// any rejection is detected only at the final oracle check — returns one
/// challenge per round, the full `rounds`-length vector when the record
/// started empty.
pub proof fn lemma_final_check_shape(
    tables: Seq<Seq<int>>,
    polys: Seq<PolyModel>,
    running: int,
    rand: Seq<int>,
    rounds: nat,
    challenges: Seq<int>,
)
    requires
        challenges.len() >= rounds,
        rounds_completed(tables, running, rounds, challenges) == rounds,
    ensures
        protocol_run(tables, polys, running, rand, rounds, challenges).randomness.len()
            == rand.len() + rounds,
{
    lemma_transcript_shape(tables, polys, running, rand, rounds, challenges);
}

/// Every nonempty field sum or product written with the field operations is
/// a reduced residue, and the empty sums and products are too.
proof fn lemma_hypercube_sum_in_field(tables: Seq<Seq<int>>, count: int)
    ensures
        in_field(hypercube_sum(tables, count)),
    decreases count,
{
    if count <= 0 {
    } else {
        lemma_hypercube_sum_in_field(tables, count - 1);
        lemma_mod_bound(
            hypercube_sum(tables, count - 1) + point_product_from(tables, count - 1, 0),
            field_order(),
        );
    }
}

/// Blending two table entries at parameter 0 yields the first entry.
pub(crate) proof fn lemma_combine_at_zero(a0: int, a1: int)
    requires
        in_field(a0),
    ensures
        combine_val(a0, a1, 0) == a0,
{
    lemma_small_mod(0, field_order() as nat);
    lemma_small_mod(a0 as nat, field_order() as nat);
}

/// Blending two table entries at parameter 1 yields the second entry.
pub(crate) proof fn lemma_combine_at_one(a0: int, a1: int)
    requires
        in_field(a0),
        in_field(a1),
    ensures
        combine_val(a0, a1, 1) == a1,
{
    lemma_small_mod(0, field_order() as nat);
    lemma_small_mod(a0 as nat, field_order() as nat);
    lemma_small_mod(a1 as nat, field_order() as nat);
}

/// At parameter 0 the blend product over the factors is the plain product
/// of their entries at the first index.
proof fn lemma_blend_product_at_zero(tables: Seq<Seq<int>>, b0: int, b1: int, len: nat, i: int)
    requires
        tables_len(tables, len),
        tables_in_field(tables),
        0 <= b0 < len,
        0 <= b1 < len,
    ensures
        blend_product_from(tables, b0, b1, 0, i) == point_product_from(tables, b0, i),
    decreases tables.len() - i,
{
    if 0 <= i < tables.len() {
        lemma_combine_at_zero(tables[i][b0], tables[i][b1]);
        lemma_blend_product_at_zero(tables, b0, b1, len, i + 1);
    }
}

/// At parameter 1 the blend product over the factors is the plain product
/// of their entries at the second index.
proof fn lemma_blend_product_at_one(tables: Seq<Seq<int>>, b0: int, b1: int, len: nat, i: int)
    requires
        tables_len(tables, len),
        tables_in_field(tables),
        0 <= b0 < len,
        0 <= b1 < len,
    ensures
        blend_product_from(tables, b0, b1, 1, i) == point_product_from(tables, b1, i),
    decreases tables.len() - i,
{
    if 0 <= i < tables.len() {
        lemma_combine_at_one(tables[i][b0], tables[i][b1]);
        lemma_blend_product_at_one(tables, b0, b1, len, i + 1);
    }
}

/// The message value at 0, partially summed, is the hypercube sum over the
/// first `count` points.
proof fn lemma_message_sum_at_zero(tables: Seq<Seq<int>>, half: int, count: int)
    requires
        tables_len(tables, (2 * half) as nat),
        tables_in_field(tables),
        half >= 0,
        0 <= count <= half,
    ensures
        message_point_sum(tables, half, 0, count) == hypercube_sum(tables, count),
    decreases count,
{
    if count > 0 {
        lemma_message_sum_at_zero(tables, half, count - 1);
        lemma_blend_product_at_zero(tables, count - 1, count - 1 + half, (2 * half) as nat, 0);
    }
}

/// Adding the message value at 1, partially summed, to the first-half
/// hypercube sum recovers the hypercube sum over `half + count` points.
proof fn lemma_message_sum_at_one(tables: Seq<Seq<int>>, half: int, count: int)
    requires
        tables_len(tables, (2 * half) as nat),
        tables_in_field(tables),
        half >= 0,
        0 <= count <= half,
    ensures
        hypercube_sum(tables, half + count) == f_add(
            hypercube_sum(tables, half),
            message_point_sum(tables, half, 1, count),
        ),
    decreases count,
{
    if count == 0 {
        lemma_hypercube_sum_in_field(tables, half);
        lemma_small_mod(hypercube_sum(tables, half) as nat, field_order() as nat);
    } else {
        lemma_message_sum_at_one(tables, half, count - 1);
        lemma_blend_product_at_one(tables, count - 1, count - 1 + half, (2 * half) as nat, 0);
        lemma_f_add_assoc(
            hypercube_sum(tables, half),
            message_point_sum(tables, half, 1, count - 1),
            point_product_from(tables, count - 1 + half, 0),
        );
    }
}

/// Completeness of the per-round check for an honest Prover: the round
/// message computed from the tables always reconstructs the tables' true
/// hypercube product-sum as `g(0) + g(1)`.
pub proof fn lemma_honest_message_consistent(tables: Seq<Seq<int>>, half: int)
    requires
        tables.len() >= 1,
        half >= 0,
        tables_len(tables, (2 * half) as nat),
        tables_in_field(tables),
    ensures
        f_add(round_message(tables, half)[0], round_message(tables, half)[1]) == hypercube_sum(
            tables,
            2 * half,
        ),
{
    lemma_message_sum_at_zero(tables, half, half);
    lemma_message_sum_at_one(tables, half, half);
}

/// Completeness of the first round: when the Verifier's running target is
/// the true hypercube product-sum of the Prover's tables, the first round's
/// consistency check passes, whatever challenges follow.
pub proof fn lemma_true_claim_passes_first_check(
    tables: Seq<Seq<int>>,
    half: int,
    rounds: nat,
    challenges: Seq<int>,
)
    requires
        rounds >= 1,
        tables.len() >= 1,
        half >= 0,
        tables_len(tables, (2 * half) as nat),
        tables_in_field(tables),
    ensures
        rounds_completed(tables, hypercube_sum(tables, 2 * half), rounds, challenges) >= 1,
{
    lemma_honest_message_consistent(tables, half);
    assert(tables[0].len() as int / 2 == half);
}

} // verus!
