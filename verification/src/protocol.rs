//! The interactive protocol: Prover, Verifier, and the orchestrator that
//! drives them round by round.
//!
//! The whole run is mirrored by a ghost model, [`protocol_run`]: a
//! deterministic function of the initial tables, the claim, and the sequence
//! of challenges the Verifier happens to draw. The orchestrator's contract
//! says its transcript equals the model's outcome for the challenges drawn;
//! the laws module proves the transcript shapes from the model.

use crate::field::{f_add, in_field, FieldElement};
use crate::polynomial::{
    common_num_vars, product_model, product_value, values_of, PolyModel, ProductMLPolynomial,
};
use crate::protocol::checker::{lagrange_eval, Verifier, VerifierState};
use crate::protocol::prover::{
    collapse_tables, round_message, Prover, ProverState,
};
use vstd::arithmetic::power2::{lemma_pow2_unfold, pow2};
use vstd::prelude::*;

pub mod checker;
pub mod completeness;
pub mod laws;
pub mod prover;
pub mod rejection;

verus! {

/// The protocol's terminal output: an accept flag together with the
/// challenges the Verifier drew before the run ended.
pub struct ProtocolTranscript {
    pub _randomness: Vec<FieldElement>,
    pub accept: bool,
}

/// The ghost outcome of a run: the accept flag and the challenge residues.
pub ghost struct RunOutcome {
    pub accept: bool,
    pub randomness: Seq<int>,
}

/// The deterministic model of the protocol: from the Prover's current
/// tables, the claim's factor models, the Verifier's running target and the
/// challenges already recorded, play `rounds` more rounds drawing the
/// challenges from `challenges`, then do the final oracle check.
///
/// A round whose message fails the `g(0) + g(1)` check ends the run at once
/// with the challenges recorded so far; otherwise the tables collapse at
/// the round's challenge and the target becomes the message polynomial's
/// value there.
pub open spec fn protocol_run(
    tables: Seq<Seq<int>>,
    polys: Seq<PolyModel>,
    running: int,
    rand: Seq<int>,
    rounds: nat,
    challenges: Seq<int>,
) -> RunOutcome
    decreases rounds,
{
    if rounds == 0 {
        RunOutcome { accept: product_value(polys, rand) == running, randomness: rand }
    } else {
        let half = tables[0].len() as int / 2;
        let msg = round_message(tables, half);
        if f_add(msg[0], msg[1]) != running {
            RunOutcome { accept: false, randomness: rand }
        } else {
            protocol_run(
                collapse_tables(tables, challenges[0]),
                polys,
                lagrange_eval(msg, challenges[0]),
                rand.push(challenges[0]),
                (rounds - 1) as nat,
                challenges.drop_first(),
            )
        }
    }
}

/// Whether a transcript (its accept flag and challenge residues) is the
/// run model's outcome for the initial data and the challenge sequence
/// `ch`: `ch` has one in-field challenge per variable and the model's
/// outcome matches the transcript exactly.
pub open spec fn transcript_matches(
    accept: bool,
    rand_vals: Seq<int>,
    tables: Seq<Seq<int>>,
    polys: Seq<PolyModel>,
    running: int,
    rounds: nat,
    ch: Seq<int>,
) -> bool {
    &&& ch.len() == rounds
    &&& (forall|i: int| 0 <= i < ch.len() ==> in_field(#[trigger] ch[i]))
    &&& {
        let out = protocol_run(tables, polys, running, Seq::<int>::empty(), rounds, ch);
        accept == out.accept && rand_vals == out.randomness
    }
}

/// The orchestrator's guarantee: some in-field challenge sequence, one
/// challenge per round, explains the transcript as the run model's outcome.
pub open spec fn explained_by_some_challenges(
    accept: bool,
    rand_vals: Seq<int>,
    tables: Seq<Seq<int>>,
    polys: Seq<PolyModel>,
    running: int,
    rounds: nat,
) -> bool {
    exists|ch: Seq<int>|
        #[trigger] transcript_matches(accept, rand_vals, tables, polys, running, rounds, ch)
}

/// How many rounds of the model pass their consistency check before the
/// run ends (all of them, when nothing fails early).
pub open spec fn rounds_completed(
    tables: Seq<Seq<int>>,
    running: int,
    rounds: nat,
    challenges: Seq<int>,
) -> nat
    decreases rounds,
{
    if rounds == 0 {
        0
    } else {
        let half = tables[0].len() as int / 2;
        let msg = round_message(tables, half);
        if f_add(msg[0], msg[1]) != running {
            0
        } else {
            1 + rounds_completed(
                collapse_tables(tables, challenges[0]),
                lagrange_eval(msg, challenges[0]),
                (rounds - 1) as nat,
                challenges.drop_first(),
            )
        }
    }
}

/// Unfolds one successful round of the run model: when the message passes
/// the consistency check, playing the challenge `r` first is the same as
/// running on from the collapsed tables and the interpolated target.
proof fn lemma_run_step(
    tables: Seq<Seq<int>>,
    polys: Seq<PolyModel>,
    running: int,
    rand: Seq<int>,
    rounds: nat,
    r: int,
    tail: Seq<int>,
)
    requires
        rounds >= 1,
        f_add(
            round_message(tables, tables[0].len() as int / 2)[0],
            round_message(tables, tables[0].len() as int / 2)[1],
        ) == running,
    ensures
        (protocol_run(tables, polys, running, rand, rounds, seq![r].add(tail)) == protocol_run(
            collapse_tables(tables, r),
            polys,
            lagrange_eval(round_message(tables, tables[0].len() as int / 2), r),
            rand.push(r),
            (rounds - 1) as nat,
            tail,
        )),
{
    let step = seq![r].add(tail);
    assert(step[0] == r);
    assert(step.drop_first() =~= tail);
}

/// Unfolds one failing round of the run model: when the message misses the
/// running target, the run ends at once with the challenges recorded so far.
proof fn lemma_run_reject(
    tables: Seq<Seq<int>>,
    polys: Seq<PolyModel>,
    running: int,
    rand: Seq<int>,
    rounds: nat,
    challenges: Seq<int>,
)
    requires
        rounds >= 1,
        f_add(
            round_message(tables, tables[0].len() as int / 2)[0],
            round_message(tables, tables[0].len() as int / 2)[1],
        ) != running,
    ensures
        (protocol_run(tables, polys, running, rand, rounds, challenges) == (RunOutcome {
            accept: false,
            randomness: rand,
        })),
{
}

/// Builds both parties' initial states from a claim: the Prover tabulates
/// the factors and announces the claimed sum, the Verifier adopts it as its
/// first running target.
pub fn setup_protocol(poly: &ProductMLPolynomial) -> (r: (
    usize,
    FieldElement,
    ProverState,
    VerifierState,
))
    requires
        common_num_vars(poly@) is Some,
        forall|k: int| 0 <= k < poly@.len() ==> (#[trigger] poly@[k]).wf(),
        poly@[0].num_vars < 64,
        pow2(poly@[0].num_vars as nat) <= usize::MAX,
        poly@.len() < usize::MAX,
    ensures
        r.0 == poly@[0].num_vars,
        r.2.wf(),
        r.2.last_round == 0,
        r.2.num_vars == r.0,
        r.2.num_polys == poly@.len(),
        forall|k: int|
            0 <= k < poly@.len() ==> r.2.tables()[k] == crate::polynomial::hypercube_table(
                crate::polynomial::poly_model(#[trigger] poly@[k]),
            ),
        r.1@ == crate::protocol::prover::hypercube_sum(r.2.tables(), pow2(r.0 as nat) as int),
        in_field(r.1@),
        r.3.last_round == 0,
        r.3.num_polys == poly@.len(),
        r.3.poly@.len() == poly@.len(),
        product_model(r.3.poly@) == product_model(poly@),
        forall|k: int|
            0 <= k < poly@.len() ==> (#[trigger] r.3.poly@[k]).num_vars == poly@[k].num_vars,
        r.3.claimed_sum == r.1,
        r.3.running_eval == r.1,
        r.3.randomness@ == Seq::<FieldElement>::empty(),
{
    let num_vars = match crate::polynomial::get_num_vars(poly) {
        Option::Some(n) => n,
        Option::None => 0,
    };
    let (claimed_sum, prover_state) = Prover::claim_sum(poly);
    let verifier_state = Verifier::initialize(poly, claimed_sum);
    (num_vars, claimed_sum, prover_state, verifier_state)
}

/// Drives the protocol to its end: each round the Prover's message goes to
/// the Verifier, whose rejection ends the run at once with the challenges
/// collected so far, and whose challenge otherwise collapses the Prover's
/// tables; after the last round the Verifier's final oracle check decides.
///
/// The transcript equals the ghost model's outcome for the challenges that
/// were drawn: some in-field challenge sequence of length `num_vars`.
#[verifier::loop_isolation(false)]
#[verifier::rlimit(100)]
pub fn orchestrate_protocol(
    num_vars: usize,
    _claimed_sum: FieldElement,
    prover_state: ProverState,
    verifier_state: VerifierState,
) -> (transcript: ProtocolTranscript)
    requires
        prover_state.wf(),
        prover_state.last_round == 0,
        num_vars == prover_state.num_vars,
        verifier_state.last_round == 0,
        verifier_state.randomness@.len() == 0,
        forall|k: int|
            0 <= k < verifier_state.poly@.len() ==> (#[trigger] verifier_state.poly@[k]).wf()
                && verifier_state.poly@[k].num_vars == num_vars,
    ensures
        explained_by_some_challenges(
            transcript.accept,
            values_of(transcript._randomness@),
            prover_state.tables(),
            product_model(verifier_state.poly@),
            verifier_state.running_eval@,
            num_vars as nat,
        ),
{
    let ghost polys = product_model(verifier_state.poly@);
    let ghost init_tables = prover_state.tables();
    let ghost init_running = verifier_state.running_eval@;
    let mut pstate = prover_state;
    let mut vstate = verifier_state;
    let ghost mut chs: Seq<int> = Seq::<int>::empty();
    proof {
        assert forall|tail: Seq<int>|
            #[trigger] protocol_run(
                init_tables,
                polys,
                init_running,
                Seq::<int>::empty(),
                num_vars as nat,
                chs.add(tail),
            ) == protocol_run(
            pstate.tables(),
            polys,
            vstate.running_eval@,
            chs,
            (num_vars - 0) as nat,
            tail,
        ) by {
            assert(chs.add(tail) =~= tail);
            assert(values_of(vstate.randomness@) =~= chs);
        }
        assert(values_of(vstate.randomness@) =~= chs);
    }
    let mut i: usize = 0;
    while i < num_vars
        invariant
            0 <= i <= num_vars,
            pstate.wf(),
            pstate.num_vars == num_vars,
            pstate.last_round == i,
            vstate.last_round == i,
            vstate.randomness@.len() == i,
            polys == product_model(vstate.poly@),
            forall|k: int|
                0 <= k < vstate.poly@.len() ==> (#[trigger] vstate.poly@[k]).wf()
                    && vstate.poly@[k].num_vars == num_vars,
            chs.len() == i,
            forall|t: int| 0 <= t < chs.len() ==> in_field(#[trigger] chs[t]),
            values_of(vstate.randomness@) == chs,
            forall|tail: Seq<int>|
                #[trigger] protocol_run(
                    init_tables,
                    polys,
                    init_running,
                    Seq::<int>::empty(),
                    num_vars as nat,
                    chs.add(tail),
                ) == protocol_run(
                    pstate.tables(),
                    polys,
                    vstate.running_eval@,
                    chs,
                    (num_vars - i) as nat,
                    tail,
                ),
        decreases num_vars - i,
    {
        let ghost tables_i = pstate.tables();
        let ghost running_i = vstate.running_eval@;
        let ghost half_spec = pow2((num_vars - i - 1) as nat) as int;
        proof {
            lemma_pow2_unfold((num_vars - i) as nat);
            assert(tables_i[0].len() == pow2((num_vars - i) as nat));
        }
        let phase_1 = Prover::round_phase_1(pstate);
        let poly_descr = phase_1.0;
        pstate = phase_1.1;
        let ghost msg = round_message(tables_i, half_spec);
        proof {
            assert(values_of(poly_descr@) == msg);
            assert(msg[0] == poly_descr@[0]@ && msg[1] == poly_descr@[1]@);
        }
        let saved = crate::protocol::checker::copy_elements(&vstate.randomness);
        match Verifier::round(vstate, poly_descr) {
            Result::Ok((r, new_vstate)) => {
                vstate = new_vstate;
                pstate = Prover::round_phase_2(pstate, r);
                proof {
                    let old_chs = chs;
                    chs = chs.push(r@);
                    assert(values_of(vstate.randomness@) =~= chs);
                    assert forall|tail: Seq<int>|
                        #[trigger] protocol_run(
                            init_tables,
                            polys,
                            init_running,
                            Seq::<int>::empty(),
                            num_vars as nat,
                            chs.add(tail),
                        ) == protocol_run(
                            pstate.tables(),
                            polys,
                            vstate.running_eval@,
                            chs,
                            (num_vars - (i + 1)) as nat,
                            tail,
                        ) by {
                        let step = seq![r@].add(tail);
                        assert(chs.add(tail) =~= old_chs.add(step));
                        assert(protocol_run(
                            init_tables,
                            polys,
                            init_running,
                            Seq::<int>::empty(),
                            num_vars as nat,
                            old_chs.add(step),
                        ) == protocol_run(
                            tables_i,
                            polys,
                            running_i,
                            old_chs,
                            (num_vars - i) as nat,
                            step,
                        ));
                        assert(tables_i[0].len() as int / 2 == half_spec);
                        lemma_run_step(
                            tables_i,
                            polys,
                            running_i,
                            old_chs,
                            (num_vars - i) as nat,
                            r@,
                            tail,
                        );
                        assert(old_chs.push(r@) =~= chs);
                    }
                }
            },
            Result::Err(_) => {
                proof {
                    let pad = Seq::<int>::new((num_vars - i) as nat, |t: int| 0);
                    let full = chs.add(pad);
                    assert(full.len() == num_vars);
                    assert(protocol_run(
                        init_tables,
                        polys,
                        init_running,
                        Seq::<int>::empty(),
                        num_vars as nat,
                        full,
                    ) == protocol_run(
                        tables_i,
                        polys,
                        running_i,
                        chs,
                        (num_vars - i) as nat,
                        pad,
                    ));
                    assert(tables_i[0].len() as int / 2 == half_spec);
                    lemma_run_reject(tables_i, polys, running_i, chs, (num_vars - i) as nat, pad);
                    assert(values_of(saved@) == chs);
                    assert(forall|t: int| 0 <= t < full.len() ==> in_field(#[trigger] full[t]));
                    assert(transcript_matches(
                        false,
                        values_of(saved@),
                        init_tables,
                        polys,
                        init_running,
                        num_vars as nat,
                        full,
                    ));
                    assert(explained_by_some_challenges(
                        false,
                        values_of(saved@),
                        init_tables,
                        polys,
                        init_running,
                        num_vars as nat,
                    ));
                }
                return ProtocolTranscript { _randomness: saved, accept: false };
            },
        }
        i += 1;
    }
    let sanity = Verifier::sanity_check(vstate);
    let accept = sanity.0;
    let randomness = sanity.1;
    proof {
        assert(chs.add(Seq::<int>::empty()) =~= chs);
        assert(protocol_run(
            init_tables,
            polys,
            init_running,
            Seq::<int>::empty(),
            num_vars as nat,
            chs,
        ) == protocol_run(
            pstate.tables(),
            polys,
            vstate.running_eval@,
            chs,
            0,
            Seq::<int>::empty(),
        ));
        assert(transcript_matches(
            accept,
            values_of(randomness@),
            init_tables,
            polys,
            init_running,
            num_vars as nat,
            chs,
        ));
        assert(explained_by_some_challenges(
            accept,
            values_of(randomness@),
            init_tables,
            polys,
            init_running,
            num_vars as nat,
        ));
    }
    ProtocolTranscript { _randomness: randomness, accept }
}

} // verus!
