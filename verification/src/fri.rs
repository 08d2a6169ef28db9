//! Verification of a FRI proof: the shape a proof must have, the challenges
//! drawn from the transcript, and for each query the openings of the
//! commit phase and the folding down to the final value.

use crate::challenger::after_sample;
use crate::challenger::after_samples;
use crate::challenger::all_zero;
use crate::challenger::bits_le;
use crate::challenger::observe_all;
use crate::challenger::reversed_index_value;
use crate::challenger::sampled_ext;
use crate::challenger::sampled_value;
use crate::challenger::spec_observe;
use crate::challenger::DuplexChallenger;
use crate::challenger::DuplexState;
use crate::challenger::NUM_BITS;
use crate::types::FriChallenges;
use crate::types::FriProofVariable;
use crate::challenger::lemma_reversed_index_value_front;
use crate::field::add_ext;
use crate::field::all_canonical;
use crate::field::ext_add;
use crate::field::ext_canonical;
use crate::field::ext_coefficients;
use crate::field::ext_mul;
use crate::field::ext_scale;
use crate::field::ext_sub;
use crate::field::ext_sub_base;
use crate::field::ext_zero;
use crate::field::all_ext_canonical;
use crate::field::felt_inv;
use crate::field::felt_mul;
use crate::field::felt_pow;
use crate::field::felt_sub;
use crate::field::inverse;
use crate::field::is_canonical;
use crate::field::lemma_felt_pow_add;
use crate::field::mul_ext;
use crate::field::mul_felt;
use crate::field::scale;
use crate::field::spec_two_adic_generator;
use crate::field::sub_base;
use crate::field::sub_ext;
use crate::field::sub_felt;
use crate::field::two_adic_generator;
use crate::field::Ext;
use crate::field::Felt;
use crate::field::TWO_ADICITY;
use crate::hash::Digest;
use crate::hash::Permutation;
use crate::merkle_tree::all_rows_canonical;
use crate::merkle_tree::batch_opens;
use crate::merkle_tree::digests_view;
use crate::merkle_tree::verify_batch;
use crate::types::FriCommitPhaseProofStepVariable;
use vstd::arithmetic::power2::pow2;
use vstd::prelude::*;

verus! {

/// The parameters of the protocol.
#[derive(Clone, Copy, Debug)]
pub struct FriConfig {
    /// The logarithm of the rate at which codewords are longer than the
    /// polynomials they encode.
    pub log_blowup: usize,
    /// The number of positions at which a proof is queried.
    pub num_queries: usize,
    /// The number of zero bits that the proof-of-work challenge must have.
    pub proof_of_work_bits: usize,
}

/// Why a proof was not accepted.
#[derive(Clone, Copy, Debug, PartialEq, Eq, Structural)]
pub enum FriError {
    /// The proof does not have the shape that the parameters ask for.
    /// Nothing was computed on it.
    InvalidProofShape,
    /// A check failed. Which one is not told.
    Rejected,
}

/// `g` raised to the power that `bits` spell when read highest bit first.
pub fn exp_reverse_bits(g: Felt, bits: &[bool]) -> (r: Felt)
    requires
        is_canonical(g),
    ensures
        r == felt_pow(g, reversed_index_value(bits@)),
        is_canonical(r),
{
    let n = bits.len();
    let mut result: Felt = 1;
    let mut power: Felt = g;
    let mut i: usize = 0;
    proof {
        assert(bits@.skip(n as int) =~= Seq::<bool>::empty());
        vstd::arithmetic::power2::lemma2_to64();
        assert(felt_pow(g, 1) == felt_mul(g, felt_pow(g, 0)));
    }
    while i < n
        invariant
            n == bits@.len(),
            i <= n,
            is_canonical(result),
            is_canonical(power),
            result == felt_pow(g, reversed_index_value(bits@.skip(n - i))),
            power == felt_pow(g, pow2(i as nat)),
        decreases n - i,
    {
        let bit = bits[n - 1 - i];
        proof {
            let done = bits@.skip(n - i);
            assert(bits@.skip(n - i - 1) =~= seq![bit] + done);
            lemma_reversed_index_value_front(bit, done);
            lemma_felt_pow_add(g, pow2(i as nat), reversed_index_value(done));
            lemma_felt_pow_add(g, pow2(i as nat), pow2(i as nat));
            vstd::arithmetic::power2::lemma_pow2_unfold((i + 1) as nat);
            crate::field::lemma_felt_mul_commutative(
                felt_pow(g, pow2(i as nat)),
                felt_pow(g, reversed_index_value(done)),
            );
        }
        if bit {
            result = mul_felt(result, power);
        }
        power = mul_felt(power, power);
        i += 1;
    }
    assert(bits@.skip(0) =~= bits@);
    result
}

/// The two values of a row of a folding round: the value folded so far and
/// the value next to it, the latter on the left where the position's bit is
/// set.
pub open spec fn round_evals(folded: Ext, sibling: Ext, bit: bool) -> (Ext, Ext) {
    if bit {
        (sibling, folded)
    } else {
        (folded, sibling)
    }
}

/// The two points at which a row's values were taken: `x` and its
/// negative, `x` on the right where the position's bit is set.
pub open spec fn round_points(x: Felt, bit: bool) -> (Felt, Felt) {
    let other = felt_mul(x, spec_two_adic_generator(1));
    if bit {
        (other, x)
    } else {
        (x, other)
    }
}

/// The line through the two values of a row, at `beta`:
/// `e0 + (beta - x0) * (e1 - e0) / (x1 - x0)`.
#[verifier::opaque]
pub open spec fn fold_row(evals: (Ext, Ext), points: (Felt, Felt), beta: Ext) -> Ext {
    ext_add(
        evals.0,
        ext_mul(
            ext_sub_base(beta, points.0),
            ext_scale(ext_sub(evals.1, evals.0), felt_inv(felt_sub(points.1, points.0))),
        ),
    )
}

/// What a query carries from one folding round to the next.
pub struct FoldState {
    /// The value folded so far.
    pub folded: Ext,
    /// The point that the value belongs to.
    pub x: Felt,
}

/// The state of a query after `rounds` folding rounds. A query starts
/// from zero at the point `g^r`, for `g` the generator of order
/// `2^log_max_height` and `r` the queried position with its bits reversed.
/// Round `j` adds the reduced opening of height `2^(log_max_height - j)` to
/// the folded value, folds the row it stands in at the round's challenge,
/// and squares the point.
#[verifier::opaque]
pub open spec fn fold_state(
    index_bits: Seq<bool>,
    steps: Seq<FriCommitPhaseProofStepVariable>,
    betas: Seq<Ext>,
    reduced_openings: Seq<Ext>,
    log_max_height: nat,
    rounds: nat,
) -> FoldState
    decreases rounds,
{
    if rounds == 0 {
        FoldState {
            folded: ext_zero(),
            x: felt_pow(spec_two_adic_generator(log_max_height), reversed_index_value(index_bits)),
        }
    } else {
        let j = (rounds - 1) as nat;
        let before = fold_state(index_bits, steps, betas, reduced_openings, log_max_height, j);
        let folded = ext_add(before.folded, reduced_openings[log_max_height - j]);
        let bit = index_bits[j as int];
        FoldState {
            folded: fold_row(
                round_evals(folded, steps[j as int].sibling_value, bit),
                round_points(before.x, bit),
                betas[j as int],
            ),
            x: felt_mul(before.x, before.x),
        }
    }
}

/// The leaf that round `j` opens: the eight coefficients of the row's two
/// values.
pub open spec fn round_leaf(
    index_bits: Seq<bool>,
    steps: Seq<FriCommitPhaseProofStepVariable>,
    betas: Seq<Ext>,
    reduced_openings: Seq<Ext>,
    log_max_height: nat,
    j: nat,
) -> Seq<Felt> {
    let before = fold_state(index_bits, steps, betas, reduced_openings, log_max_height, j);
    let folded = ext_add(before.folded, reduced_openings[log_max_height - j]);
    row_leaf(round_evals(folded, steps[j as int].sibling_value, index_bits[j as int]))
}

/// The eight coefficients of the two values of a row.
pub open spec fn row_leaf(evals: (Ext, Ext)) -> Seq<Felt> {
    ext_coefficients(evals.0) + ext_coefficients(evals.1)
}

/// Round `j` opens: its row, at the position's remaining bits, leads to
/// the round's commitment.
pub open spec fn round_opens<H: Permutation>(
    perm: H,
    commits: Seq<Digest>,
    index_bits: Seq<bool>,
    steps: Seq<FriCommitPhaseProofStepVariable>,
    betas: Seq<Ext>,
    reduced_openings: Seq<Ext>,
    log_max_height: nat,
    j: nat,
) -> bool {
    batch_opens(
        perm,
        commits[j as int]@,
        seq![(log_max_height - 1 - j) as usize],
        seq![round_leaf(index_bits, steps, betas, reduced_openings, log_max_height, j)],
        index_bits.skip(j as int + 1),
        digests_view(steps[j as int].opening_proof@),
    )
}

/// The first `rounds` rounds open.
#[verifier::opaque]
pub open spec fn rounds_open<H: Permutation>(
    perm: H,
    commits: Seq<Digest>,
    index_bits: Seq<bool>,
    steps: Seq<FriCommitPhaseProofStepVariable>,
    betas: Seq<Ext>,
    reduced_openings: Seq<Ext>,
    log_max_height: nat,
    rounds: nat,
) -> bool
    decreases rounds,
{
    rounds == 0 || (rounds_open(
        perm,
        commits,
        index_bits,
        steps,
        betas,
        reduced_openings,
        log_max_height,
        (rounds - 1) as nat,
    ) && round_opens(
        perm,
        commits,
        index_bits,
        steps,
        betas,
        reduced_openings,
        log_max_height,
        (rounds - 1) as nat,
    ))
}

/// The steps of a query have the shape of the commit phase: one for each
/// round, with a path as long as the round's tree is high, and canonical
/// throughout.
pub open spec fn steps_shape(
    steps: Seq<FriCommitPhaseProofStepVariable>,
    rounds: nat,
    log_max_height: nat,
) -> bool {
    &&& steps.len() == rounds
    &&& forall|j: int|
        0 <= j < steps.len() ==> {
            &&& (#[trigger] steps[j]).opening_proof@.len() == log_max_height - 1 - j
            &&& ext_canonical(steps[j].sibling_value)
            &&& all_rows_canonical(digests_view(steps[j].opening_proof@))
        }
}

/// What a query folds down to, if all its rounds open.
pub open spec fn spec_verify_query<H: Permutation>(
    perm: H,
    commits: Seq<Digest>,
    index_bits: Seq<bool>,
    steps: Seq<FriCommitPhaseProofStepVariable>,
    betas: Seq<Ext>,
    reduced_openings: Seq<Ext>,
    log_max_height: nat,
) -> Option<Ext> {
    if rounds_open(
        perm,
        commits,
        index_bits,
        steps,
        betas,
        reduced_openings,
        log_max_height,
        commits.len(),
    ) {
        Some(
            fold_state(
                index_bits,
                steps,
                betas,
                reduced_openings,
                log_max_height,
                commits.len(),
            ).folded,
        )
    } else {
        None
    }
}

/// Folds one row.
fn fold(folded: Ext, sibling: Ext, bit: bool, x: Felt, beta: Ext) -> (r: Ext)
    requires
        ext_canonical(folded),
        ext_canonical(sibling),
        ext_canonical(beta),
        is_canonical(x),
    ensures
        r == fold_row(round_evals(folded, sibling, bit), round_points(x, bit), beta),
        ext_canonical(r),
{
    reveal(fold_row);
    let other = mul_felt(x, two_adic_generator(1));
    let (e0, e1) = if bit {
        (sibling, folded)
    } else {
        (folded, sibling)
    };
    let (x0, x1) = if bit {
        (other, x)
    } else {
        (x, other)
    };
    let slope = scale(sub_ext(e1, e0), inverse(sub_felt(x1, x0)));
    add_ext(e0, mul_ext(sub_base(beta, x0), slope))
}

/// Checks the opening of round `j`: the row made of the value folded so
/// far and the value next to it, against the round's commitment.
fn open_round<H: Permutation>(
    builder: &H,
    commit: &Digest,
    index_bits: &Vec<bool>,
    step: &FriCommitPhaseProofStepVariable,
    folded: Ext,
    j: usize,
    log_max_height: usize,
) -> (ok: bool)
    requires
        builder.wf(),
        j < log_max_height,
        index_bits@.len() == log_max_height,
        step.opening_proof@.len() == log_max_height - 1 - j,
        ext_canonical(step.sibling_value),
        all_rows_canonical(digests_view(step.opening_proof@)),
        ext_canonical(folded),
    ensures
        ok == batch_opens(
            *builder,
            commit@,
            seq![(log_max_height - 1 - j) as usize],
            seq![row_leaf(round_evals(folded, step.sibling_value, index_bits@[j as int]))],
            index_bits@.skip(j + 1),
            digests_view(step.opening_proof@),
        ),
{
    let (e0, e1) = if index_bits[j] {
        (step.sibling_value, folded)
    } else {
        (folded, step.sibling_value)
    };
    let leaf: Vec<Felt> = vec![e0.c0, e0.c1, e0.c2, e0.c3, e1.c0, e1.c1, e1.c2, e1.c3];
    let ghost spec_leaf = row_leaf(round_evals(folded, step.sibling_value, index_bits@[j as int]));
    assert(leaf@ =~= spec_leaf);
    assert(all_canonical(leaf@));
    let opened: Vec<Vec<Felt>> = vec![leaf];
    let log_folded_height: usize = log_max_height - 1 - j;
    let log_heights: Vec<usize> = vec![log_folded_height];
    let index_pair = vstd::slice::slice_subrange(index_bits.as_slice(), j + 1, log_max_height);
    proof {
        assert(crate::merkle_tree::rows_view(opened@) =~= seq![spec_leaf]);
        assert(log_heights@ =~= seq![log_folded_height]);
        assert(index_pair@ =~= index_bits@.skip(j + 1));
        assert(log_heights@[0] == log_folded_height);
        assert(crate::merkle_tree::any_at(log_heights@, log_folded_height as int));
    }
    verify_batch(builder, commit, &log_heights, index_pair, &opened, &step.opening_proof)
}

/// Checks the openings of one query against the commitments of the commit
/// phase and folds the query down. The result is the folded value, or
/// nothing where an opening does not lead to its commitment.
pub fn verify_query<H: Permutation>(
    builder: &H,
    commit_phase_commits: &Vec<Digest>,
    index_bits: &Vec<bool>,
    commit_phase_openings: &Vec<FriCommitPhaseProofStepVariable>,
    betas: &Vec<Ext>,
    reduced_openings: &Vec<Ext>,
    log_max_height: usize,
) -> (folded: Option<Ext>)
    requires
        builder.wf(),
        log_max_height <= TWO_ADICITY,
        commit_phase_commits@.len() <= log_max_height,
        index_bits@.len() == log_max_height,
        betas@.len() == commit_phase_commits@.len(),
        reduced_openings@.len() == log_max_height + 1,
        steps_shape(
            commit_phase_openings@,
            commit_phase_commits@.len(),
            log_max_height as nat,
        ),
        all_ext_canonical(betas@),
        all_ext_canonical(reduced_openings@),
    ensures
        folded == spec_verify_query(
            *builder,
            commit_phase_commits@,
            index_bits@,
            commit_phase_openings@,
            betas@,
            reduced_openings@,
            log_max_height as nat,
        ),
        folded matches Some(value) ==> ext_canonical(value),
{
    let rounds = commit_phase_commits.len();
    let g = two_adic_generator(log_max_height);
    let mut x = exp_reverse_bits(g, index_bits.as_slice());
    let mut folded = Ext { c0: 0, c1: 0, c2: 0, c3: 0 };
    let mut j: usize = 0;
    proof {
        lemma_fold_state_unfold(
            index_bits@,
            commit_phase_openings@,
            betas@,
            reduced_openings@,
            log_max_height as nat,
            0,
        );
        lemma_rounds_open_unfold(
            *builder,
            commit_phase_commits@,
            index_bits@,
            commit_phase_openings@,
            betas@,
            reduced_openings@,
            log_max_height as nat,
            0,
        );
    }
    while j < rounds
        invariant
            j <= rounds,
            rounds == commit_phase_commits@.len(),
            builder.wf(),
            log_max_height <= TWO_ADICITY,
            rounds <= log_max_height,
            index_bits@.len() == log_max_height,
            betas@.len() == rounds,
            reduced_openings@.len() == log_max_height + 1,
            steps_shape(commit_phase_openings@, rounds as nat, log_max_height as nat),
            all_ext_canonical(betas@),
            all_ext_canonical(reduced_openings@),
            ext_canonical(folded),
            is_canonical(x),
            (FoldState { folded, x }) == fold_state(
                index_bits@,
                commit_phase_openings@,
                betas@,
                reduced_openings@,
                log_max_height as nat,
                j as nat,
            ),
            rounds_open(
                *builder,
                commit_phase_commits@,
                index_bits@,
                commit_phase_openings@,
                betas@,
                reduced_openings@,
                log_max_height as nat,
                j as nat,
            ),
        decreases rounds - j,
    {
        proof {
            lemma_fold_state_unfold(
                index_bits@,
                commit_phase_openings@,
                betas@,
                reduced_openings@,
                log_max_height as nat,
                j as nat,
            );
            lemma_rounds_open_unfold(
                *builder,
                commit_phase_commits@,
                index_bits@,
                commit_phase_openings@,
                betas@,
                reduced_openings@,
                log_max_height as nat,
                j as nat,
            );
        }
        let step = &commit_phase_openings[j];
        let bit = index_bits[j];
        let beta = betas[j];
        let with_opening = add_ext(folded, reduced_openings[log_max_height - j]);
        let ok = open_round(
            builder,
            &commit_phase_commits[j],
            index_bits,
            step,
            with_opening,
            j,
            log_max_height,
        );
        if !ok {
            proof {
                if rounds_open(
                    *builder,
                    commit_phase_commits@,
                    index_bits@,
                    commit_phase_openings@,
                    betas@,
                    reduced_openings@,
                    log_max_height as nat,
                    rounds as nat,
                ) {
                    lemma_rounds_open_prefix(
                        *builder,
                        commit_phase_commits@,
                        index_bits@,
                        commit_phase_openings@,
                        betas@,
                        reduced_openings@,
                        log_max_height as nat,
                        (j + 1) as nat,
                        rounds as nat,
                    );
                }
            }
            return None;
        }
        folded = fold(with_opening, step.sibling_value, bit, x, beta);
        x = mul_felt(x, x);
        j += 1;
    }
    Some(folded)
}

/// How the state of a query starts and how a round changes it.
pub proof fn lemma_fold_state_unfold(
    index_bits: Seq<bool>,
    steps: Seq<FriCommitPhaseProofStepVariable>,
    betas: Seq<Ext>,
    reduced_openings: Seq<Ext>,
    log_max_height: nat,
    j: nat,
)
    ensures
        fold_state(index_bits, steps, betas, reduced_openings, log_max_height, 0) == (FoldState {
            folded: ext_zero(),
            x: felt_pow(spec_two_adic_generator(log_max_height), reversed_index_value(index_bits)),
        }),
        fold_state(index_bits, steps, betas, reduced_openings, log_max_height, j + 1) == ({
            let before = fold_state(index_bits, steps, betas, reduced_openings, log_max_height, j);
            let folded = ext_add(before.folded, reduced_openings[log_max_height - j]);
            FoldState {
                folded: fold_row(
                    round_evals(folded, steps[j as int].sibling_value, index_bits[j as int]),
                    round_points(before.x, index_bits[j as int]),
                    betas[j as int],
                ),
                x: felt_mul(before.x, before.x),
            }
        }),
{
    reveal_with_fuel(fold_state, 2);
}

/// The first rounds open where the rounds before the last do and the
/// last does.
pub proof fn lemma_rounds_open_unfold<H: Permutation>(
    perm: H,
    commits: Seq<Digest>,
    index_bits: Seq<bool>,
    steps: Seq<FriCommitPhaseProofStepVariable>,
    betas: Seq<Ext>,
    reduced_openings: Seq<Ext>,
    log_max_height: nat,
    j: nat,
)
    ensures
        rounds_open(perm, commits, index_bits, steps, betas, reduced_openings, log_max_height, 0),
        rounds_open(
            perm,
            commits,
            index_bits,
            steps,
            betas,
            reduced_openings,
            log_max_height,
            j + 1,
        ) == (rounds_open(
            perm,
            commits,
            index_bits,
            steps,
            betas,
            reduced_openings,
            log_max_height,
            j,
        ) && round_opens(
            perm,
            commits,
            index_bits,
            steps,
            betas,
            reduced_openings,
            log_max_height,
            j,
        )),
{
    reveal_with_fuel(rounds_open, 2);
}

/// Where all of the first `n` rounds open, so do the first `k` of them.
pub proof fn lemma_rounds_open_prefix<H: Permutation>(
    perm: H,
    commits: Seq<Digest>,
    index_bits: Seq<bool>,
    steps: Seq<FriCommitPhaseProofStepVariable>,
    betas: Seq<Ext>,
    reduced_openings: Seq<Ext>,
    log_max_height: nat,
    k: nat,
    n: nat,
)
    requires
        k <= n,
        rounds_open(perm, commits, index_bits, steps, betas, reduced_openings, log_max_height, n),
    ensures
        rounds_open(perm, commits, index_bits, steps, betas, reduced_openings, log_max_height, k),
    decreases n - k,
{
    if k < n {
        lemma_rounds_open_unfold(
            perm,
            commits,
            index_bits,
            steps,
            betas,
            reduced_openings,
            log_max_height,
            (n - 1) as nat,
        );
        lemma_rounds_open_prefix(
            perm,
            commits,
            index_bits,
            steps,
            betas,
            reduced_openings,
            log_max_height,
            k,
            (n - 1) as nat,
        );
    }
}

/// The height, as a logarithm, of the largest tree of a proof.
pub open spec fn log_max_height(config: FriConfig, proof: FriProofVariable) -> nat {
    (proof.commit_phase_commits@.len() + config.log_blowup) as nat
}

/// A proof has the shape that the parameters ask for: the field has room
/// for its largest domain, it answers every query, every answer opens every
/// round of the commit phase with a path as long as the round's tree is
/// high, and its field elements are canonical.
pub open spec fn proof_shape(config: FriConfig, proof: FriProofVariable) -> bool {
    &&& log_max_height(config, proof) <= TWO_ADICITY
    &&& config.proof_of_work_bits <= NUM_BITS
    &&& proof.query_proofs@.len() == config.num_queries
    &&& all_rows_canonical(digests_view(proof.commit_phase_commits@))
    &&& ext_canonical(proof.final_poly)
    &&& is_canonical(proof.pow_witness)
    &&& forall|q: int|
        0 <= q < proof.query_proofs@.len() ==> steps_shape(
            (#[trigger] proof.query_proofs@[q]).commit_phase_openings@,
            proof.commit_phase_commits@.len(),
            log_max_height(config, proof),
        )
}

/// Whether every digest is canonical.
fn digests_canonical(digests: &Vec<Digest>) -> (ok: bool)
    ensures
        ok == all_rows_canonical(digests_view(digests@)),
{
    let mut i: usize = 0;
    while i < digests.len()
        invariant
            i <= digests@.len(),
            forall|k: int| 0 <= k < i ==> all_canonical(#[trigger] digests_view(digests@)[k]),
        decreases digests@.len() - i,
    {
        if !crate::field::is_all_canonical(digests[i].as_slice()) {
            assert(!all_canonical(digests_view(digests@)[i as int]));
            return false;
        }
        assert(digests_view(digests@)[i as int] == digests@[i as int]@);
        i += 1;
    }
    true
}

/// Whether the steps of a query have the shape of the commit phase.
fn check_steps_shape(
    steps: &Vec<FriCommitPhaseProofStepVariable>,
    rounds: usize,
    log_max_height: usize,
) -> (ok: bool)
    requires
        rounds <= log_max_height,
    ensures
        ok == steps_shape(steps@, rounds as nat, log_max_height as nat),
{
    if steps.len() != rounds {
        return false;
    }
    let mut j: usize = 0;
    while j < rounds
        invariant
            j <= rounds,
            rounds == steps@.len(),
            rounds <= log_max_height,
            forall|k: int|
                0 <= k < j ==> {
                    &&& (#[trigger] steps@[k]).opening_proof@.len() == log_max_height - 1 - k
                    &&& ext_canonical(steps@[k].sibling_value)
                    &&& all_rows_canonical(digests_view(steps@[k].opening_proof@))
                },
        decreases rounds - j,
    {
        let step = &steps[j];
        if step.opening_proof.len() != log_max_height - 1 - j || !crate::field::is_ext_canonical(
            &step.sibling_value,
        ) || !digests_canonical(&step.opening_proof) {
            return false;
        }
        j += 1;
    }
    true
}

/// Whether a proof has the shape that the parameters ask for.
pub fn verify_shape(config: &FriConfig, proof: &FriProofVariable) -> (ok: bool)
    ensures
        ok == proof_shape(*config, *proof),
{
    let rounds = proof.commit_phase_commits.len();
    if config.log_blowup > TWO_ADICITY || rounds > TWO_ADICITY - config.log_blowup {
        return false;
    }
    let height = rounds + config.log_blowup;
    if config.proof_of_work_bits > NUM_BITS || proof.query_proofs.len() != config.num_queries
        || !digests_canonical(&proof.commit_phase_commits) || !crate::field::is_ext_canonical(
        &proof.final_poly,
    ) || proof.pow_witness >= crate::field::P {
        return false;
    }
    let n = proof.query_proofs.len();
    let mut q: usize = 0;
    while q < n
        invariant
            q <= n,
            n == proof.query_proofs@.len(),
            rounds == proof.commit_phase_commits@.len(),
            height == log_max_height(*config, *proof),
            rounds <= height,
            forall|k: int|
                0 <= k < q ==> steps_shape(
                    (#[trigger] proof.query_proofs@[k]).commit_phase_openings@,
                    rounds as nat,
                    height as nat,
                ),
        decreases n - q,
    {
        if !check_steps_shape(&proof.query_proofs[q].commit_phase_openings, rounds, height) {
            return false;
        }
        q += 1;
    }
    true
}

/// The transcript after the first `rounds` commitments of the commit phase
/// have been absorbed, a folding challenge drawn after each.
pub open spec fn transcript_after_rounds<H: Permutation>(
    perm: H,
    s: DuplexState,
    commits: Seq<Digest>,
    rounds: nat,
) -> DuplexState
    decreases rounds,
{
    if rounds == 0 {
        s
    } else {
        after_samples(
            perm,
            observe_all(
                perm,
                transcript_after_rounds(perm, s, commits, (rounds - 1) as nat),
                commits[rounds - 1]@,
            ),
            4,
        )
    }
}

/// The folding challenge of round `j`: what is drawn once the round's
/// commitment has been absorbed.
pub open spec fn beta<H: Permutation>(perm: H, s: DuplexState, commits: Seq<Digest>, j: nat) -> Ext {
    sampled_ext(
        perm,
        observe_all(perm, transcript_after_rounds(perm, s, commits, j), commits[j as int]@),
    )
}

/// The transcript from which the proof-of-work challenge is drawn: every
/// round has been gone through and the witness absorbed.
pub open spec fn pow_transcript<H: Permutation>(
    perm: H,
    s: DuplexState,
    proof: FriProofVariable,
) -> DuplexState {
    spec_observe(
        perm,
        transcript_after_rounds(
            perm,
            s,
            proof.commit_phase_commits@,
            proof.commit_phase_commits@.len(),
        ),
        proof.pow_witness,
    )
}

/// The proof-of-work challenge has as many zero bits as asked for.
pub open spec fn pow_ok<H: Permutation>(
    perm: H,
    config: FriConfig,
    s: DuplexState,
    proof: FriProofVariable,
) -> bool {
    all_zero(
        bits_le(
            sampled_value(perm, pow_transcript(perm, s, proof)) as nat,
            config.proof_of_work_bits as nat,
        ),
    )
}

/// The position of query `i`: the lowest bits of the `i`-th challenge
/// drawn after the proof of work, as many as the largest tree is high.
pub open spec fn query_index<H: Permutation>(
    perm: H,
    config: FriConfig,
    s: DuplexState,
    proof: FriProofVariable,
    i: nat,
) -> Seq<bool> {
    bits_le(
        sampled_value(
            perm,
            after_samples(perm, after_sample(perm, pow_transcript(perm, s, proof)), i),
        ) as nat,
        log_max_height(config, proof),
    )
}

/// The challenges are the ones that the transcript gives for the proof.
pub open spec fn challenges_drawn<H: Permutation>(
    perm: H,
    config: FriConfig,
    s: DuplexState,
    proof: FriProofVariable,
    challenges: FriChallenges,
) -> bool {
    &&& challenges.betas@.len() == proof.commit_phase_commits@.len()
    &&& challenges.betas_squared@.len() == proof.commit_phase_commits@.len()
    &&& challenges.query_indices@.len() == config.num_queries
    &&& forall|j: int|
        0 <= j < challenges.betas@.len() ==> #[trigger] challenges.betas@[j] == beta(
            perm,
            s,
            proof.commit_phase_commits@,
            j as nat,
        )
    &&& forall|j: int|
        0 <= j < challenges.betas_squared@.len() ==> #[trigger] challenges.betas_squared@[j]
            == ext_mul(challenges.betas@[j], challenges.betas@[j])
    &&& forall|i: int|
        0 <= i < challenges.query_indices@.len() ==> (#[trigger] challenges.query_indices@[i])@
            == query_index(perm, config, s, proof, i as nat)
}

/// Checks the shape of a proof and draws the challenges of its
/// verification from the transcript. A proof of the wrong shape is refused
/// before the transcript is touched. Otherwise each commitment of the commit
/// phase is absorbed and a folding challenge drawn after it, the
/// proof-of-work witness is checked, and one position is drawn for each
/// query.
pub fn verify_shape_and_sample_challenges<H: Permutation>(
    builder: &H,
    config: &FriConfig,
    proof: &FriProofVariable,
    challenger: &mut DuplexChallenger,
) -> (drawn: Result<FriChallenges, FriError>)
    requires
        builder.wf(),
        old(challenger).wf(),
    ensures
        final(challenger).wf(),
        match drawn {
            Ok(challenges) => {
                &&& proof_shape(*config, *proof)
                &&& pow_ok(*builder, *config, old(challenger)@, *proof)
                &&& challenges_drawn(*builder, *config, old(challenger)@, *proof, challenges)
                &&& final(challenger)@ == after_samples(
                    *builder,
                    after_sample(*builder, pow_transcript(*builder, old(challenger)@, *proof)),
                    config.num_queries as nat,
                )
                &&& all_ext_canonical(challenges.betas@)
            },
            Err(FriError::InvalidProofShape) => {
                &&& !proof_shape(*config, *proof)
                &&& final(challenger)@ == old(challenger)@
            },
            Err(FriError::Rejected) => {
                &&& proof_shape(*config, *proof)
                &&& !pow_ok(*builder, *config, old(challenger)@, *proof)
            },
        },
{
    if !verify_shape(config, proof) {
        return Err(FriError::InvalidProofShape);
    }
    let ghost start = challenger@;
    let rounds = proof.commit_phase_commits.len();
    let mut betas: Vec<Ext> = Vec::new();
    let mut betas_squared: Vec<Ext> = Vec::new();
    let mut j: usize = 0;
    while j < rounds
        invariant
            j <= rounds,
            rounds == proof.commit_phase_commits@.len(),
            builder.wf(),
            challenger.wf(),
            all_rows_canonical(digests_view(proof.commit_phase_commits@)),
            challenger@ == transcript_after_rounds(
                *builder,
                start,
                proof.commit_phase_commits@,
                j as nat,
            ),
            betas@.len() == j,
            betas_squared@.len() == j,
            all_ext_canonical(betas@),
            forall|k: int|
                0 <= k < j ==> #[trigger] betas@[k] == beta(
                    *builder,
                    start,
                    proof.commit_phase_commits@,
                    k as nat,
                ),
            forall|k: int|
                0 <= k < j ==> #[trigger] betas_squared@[k] == ext_mul(betas@[k], betas@[k]),
        decreases rounds - j,
    {
        assert(all_canonical(digests_view(proof.commit_phase_commits@)[j as int]));
        challenger.observe_digest(builder, &proof.commit_phase_commits[j]);
        let drawn_beta = challenger.sample_ext(builder);
        betas.push(drawn_beta);
        betas_squared.push(mul_ext(drawn_beta, drawn_beta));
        j += 1;
    }
    let log_height = rounds + config.log_blowup;
    let pow = challenger.check_witness(builder, config.proof_of_work_bits, proof.pow_witness);
    if !pow {
        return Err(FriError::Rejected);
    }
    let ghost queries = challenger@;
    let mut query_indices: Vec<Vec<bool>> = Vec::new();
    let mut i: usize = 0;
    while i < config.num_queries
        invariant
            i <= config.num_queries,
            builder.wf(),
            challenger.wf(),
            log_height <= NUM_BITS,
            log_height == log_max_height(*config, *proof),
            queries == after_sample(*builder, pow_transcript(*builder, start, *proof)),
            challenger@ == after_samples(*builder, queries, i as nat),
            query_indices@.len() == i,
            forall|k: int|
                0 <= k < i ==> (#[trigger] query_indices@[k])@ == query_index(
                    *builder,
                    *config,
                    start,
                    *proof,
                    k as nat,
                ),
        decreases config.num_queries - i,
    {
        let bits = challenger.sample_bits(builder, log_height);
        query_indices.push(bits);
        i += 1;
    }
    Ok(FriChallenges { query_indices, betas, betas_squared })
}

/// A query is accepted: all its rounds open, and it folds down to
/// `final_poly`.
pub open spec fn query_accepts<H: Permutation>(
    perm: H,
    commits: Seq<Digest>,
    index_bits: Seq<bool>,
    steps: Seq<FriCommitPhaseProofStepVariable>,
    betas: Seq<Ext>,
    reduced_openings: Seq<Ext>,
    log_max_height: nat,
    final_poly: Ext,
) -> bool {
    spec_verify_query(perm, commits, index_bits, steps, betas, reduced_openings, log_max_height)
        == Some(final_poly)
}

/// Every query of the proof is accepted.
pub open spec fn queries_accept<H: Permutation>(
    perm: H,
    config: FriConfig,
    proof: FriProofVariable,
    challenges: FriChallenges,
    reduced_openings: Seq<Vec<Ext>>,
    upto: nat,
) -> bool {
    forall|q: int|
        0 <= q < upto ==> query_accepts(
            perm,
            proof.commit_phase_commits@,
            (#[trigger] challenges.query_indices@[q])@,
            proof.query_proofs@[q].commit_phase_openings@,
            challenges.betas@,
            reduced_openings[q]@,
            log_max_height(config, proof),
            proof.final_poly,
        )
}

/// The challenges and the reduced openings fit the proof: a position of as
/// many bits as the largest tree is high and a reduced opening for every
/// height, for each query.
pub open spec fn challenges_shape(
    config: FriConfig,
    proof: FriProofVariable,
    challenges: FriChallenges,
    reduced_openings: Seq<Vec<Ext>>,
) -> bool {
    &&& challenges.betas@.len() == proof.commit_phase_commits@.len()
    &&& all_ext_canonical(challenges.betas@)
    &&& challenges.query_indices@.len() == config.num_queries
    &&& reduced_openings.len() == config.num_queries
    &&& forall|q: int|
        0 <= q < config.num_queries ==> (#[trigger] challenges.query_indices@[q])@.len()
            == log_max_height(config, proof)
    &&& forall|q: int|
        0 <= q < config.num_queries ==> (#[trigger] reduced_openings[q])@.len() == log_max_height(
            config,
            proof,
        ) + 1 && all_ext_canonical(reduced_openings[q]@)
}

/// Checks every query of a proof: the openings of the commit phase must
/// lead to the commitments, and the folded value must be the proof's final
/// value. A failure is not told apart from any other.
pub fn verify_challenges<H: Permutation>(
    builder: &H,
    config: &FriConfig,
    proof: &FriProofVariable,
    challenges: &FriChallenges,
    reduced_openings: &Vec<Vec<Ext>>,
) -> (outcome: Result<(), FriError>)
    requires
        builder.wf(),
        proof_shape(*config, *proof),
        challenges_shape(*config, *proof, *challenges, reduced_openings@),
    ensures
        outcome == (if queries_accept(
            *builder,
            *config,
            *proof,
            *challenges,
            reduced_openings@,
            config.num_queries as nat,
        ) {
            Ok::<(), FriError>(())
        } else {
            Err(FriError::Rejected)
        }),
{
    let rounds = proof.commit_phase_commits.len();
    let log_height = rounds + config.log_blowup;
    let n = config.num_queries;
    let mut q: usize = 0;
    while q < n
        invariant
            q <= n,
            n == config.num_queries,
            builder.wf(),
            rounds == proof.commit_phase_commits@.len(),
            log_height == log_max_height(*config, *proof),
            proof_shape(*config, *proof),
            challenges_shape(*config, *proof, *challenges, reduced_openings@),
            queries_accept(*builder, *config, *proof, *challenges, reduced_openings@, q as nat),
        decreases n - q,
    {
        let index_bits = &challenges.query_indices[q];
        let query = &proof.query_proofs[q];
        let openings = &reduced_openings[q];
        assert(steps_shape(query.commit_phase_openings@, rounds as nat, log_height as nat));
        let folded = verify_query(
            builder,
            &proof.commit_phase_commits,
            index_bits,
            &query.commit_phase_openings,
            &challenges.betas,
            openings,
            log_height,
        );
        let accepted = match folded {
            Some(value) => value == proof.final_poly,
            None => false,
        };
        if !accepted {
            assert(!query_accepts(
                *builder,
                proof.commit_phase_commits@,
                challenges.query_indices@[q as int]@,
                proof.query_proofs@[q as int].commit_phase_openings@,
                challenges.betas@,
                reduced_openings@[q as int]@,
                log_height as nat,
                proof.final_poly,
            ));
            return Err(FriError::Rejected);
        }
        q += 1;
    }
    Ok(())
}

/// A proof in which some query does not open exactly the rounds of the
/// commit phase does not have the shape asked for, so that it is refused
/// before anything is computed on it.
pub proof fn lemma_round_count_mismatch_is_structural(
    config: FriConfig,
    proof: FriProofVariable,
    i: int,
)
    requires
        0 <= i < proof.query_proofs@.len(),
        proof.query_proofs@[i].commit_phase_openings@.len() != proof.commit_phase_commits@.len(),
    ensures
        !proof_shape(config, proof),
{
    if proof_shape(config, proof) {
        assert(steps_shape(
            proof.query_proofs@[i].commit_phase_openings@,
            proof.commit_phase_commits@.len(),
            log_max_height(config, proof),
        ));
    }
}

/// A query folds down to one value: where it is accepted with one final
/// value, it is rejected with every other.
pub proof fn lemma_final_poly_is_pinned<H: Permutation>(
    perm: H,
    commits: Seq<Digest>,
    index_bits: Seq<bool>,
    steps: Seq<FriCommitPhaseProofStepVariable>,
    betas: Seq<Ext>,
    reduced_openings: Seq<Ext>,
    log_max_height: nat,
    final_poly: Ext,
    other: Ext,
)
    requires
        query_accepts(
            perm,
            commits,
            index_bits,
            steps,
            betas,
            reduced_openings,
            log_max_height,
            final_poly,
        ),
        other != final_poly,
    ensures
        !query_accepts(
            perm,
            commits,
            index_bits,
            steps,
            betas,
            reduced_openings,
            log_max_height,
            other,
        ),
{
}

/// The state of a query before round `j` does not depend on the steps
/// from round `j` on.
pub proof fn lemma_fold_state_reads_earlier_steps(
    index_bits: Seq<bool>,
    steps: Seq<FriCommitPhaseProofStepVariable>,
    changed: Seq<FriCommitPhaseProofStepVariable>,
    betas: Seq<Ext>,
    reduced_openings: Seq<Ext>,
    log_max_height: nat,
    j: nat,
)
    requires
        forall|k: int| 0 <= k < j ==> steps[k] == changed[k],
    ensures
        fold_state(index_bits, steps, betas, reduced_openings, log_max_height, j) == fold_state(
            index_bits,
            changed,
            betas,
            reduced_openings,
            log_max_height,
            j,
        ),
    decreases j,
{
    if j == 0 {
        lemma_fold_state_unfold(index_bits, steps, betas, reduced_openings, log_max_height, 0);
        lemma_fold_state_unfold(index_bits, changed, betas, reduced_openings, log_max_height, 0);
    } else {
        let k = (j - 1) as nat;
        lemma_fold_state_reads_earlier_steps(
            index_bits,
            steps,
            changed,
            betas,
            reduced_openings,
            log_max_height,
            k,
        );
        lemma_fold_state_unfold(index_bits, steps, betas, reduced_openings, log_max_height, k);
        lemma_fold_state_unfold(index_bits, changed, betas, reduced_openings, log_max_height, k);
    }
}

/// The value next to the queried one is part of what a round opens: with
/// another value at round `j`, and the steps before unchanged, the leaf
/// that is hashed on the way to the round's commitment is another.
pub proof fn lemma_sibling_value_is_opened(
    index_bits: Seq<bool>,
    steps: Seq<FriCommitPhaseProofStepVariable>,
    changed: Seq<FriCommitPhaseProofStepVariable>,
    betas: Seq<Ext>,
    reduced_openings: Seq<Ext>,
    log_max_height: nat,
    j: nat,
)
    requires
        j < steps.len(),
        j < changed.len(),
        forall|k: int| 0 <= k < j ==> steps[k] == changed[k],
        steps[j as int].sibling_value != changed[j as int].sibling_value,
    ensures
        round_leaf(index_bits, steps, betas, reduced_openings, log_max_height, j) != round_leaf(
            index_bits,
            changed,
            betas,
            reduced_openings,
            log_max_height,
            j,
        ),
{
    lemma_fold_state_reads_earlier_steps(
        index_bits,
        steps,
        changed,
        betas,
        reduced_openings,
        log_max_height,
        j,
    );
    let before = fold_state(index_bits, steps, betas, reduced_openings, log_max_height, j);
    let folded = ext_add(before.folded, reduced_openings[log_max_height - j]);
    let a = steps[j as int].sibling_value;
    let b = changed[j as int].sibling_value;
    let bit = index_bits[j as int];
    let la = row_leaf(round_evals(folded, a, bit));
    let lb = row_leaf(round_evals(folded, b, bit));
    if la == lb {
        if bit {
            assert(la[0] == a.c0 && la[1] == a.c1 && la[2] == a.c2 && la[3] == a.c3);
            assert(lb[0] == b.c0 && lb[1] == b.c1 && lb[2] == b.c2 && lb[3] == b.c3);
        } else {
            assert(la[4] == a.c0 && la[5] == a.c1 && la[6] == a.c2 && la[7] == a.c3);
            assert(lb[4] == b.c0 && lb[5] == b.c1 && lb[6] == b.c2 && lb[7] == b.c3);
        }
        assert(a == b);
    }
}

/// A query whose value next to the queried one was changed at round `j`
/// is accepted only through a collision: where the query opens all its
/// rounds before and after the change, with the steps before round `j` and
/// the path of round `j` unchanged, two different leaves lead to the
/// commitment of round `j` along the same path.
pub proof fn lemma_changed_sibling_needs_collision<H: Permutation>(
    perm: H,
    commits: Seq<Digest>,
    index_bits: Seq<bool>,
    steps: Seq<FriCommitPhaseProofStepVariable>,
    changed: Seq<FriCommitPhaseProofStepVariable>,
    betas: Seq<Ext>,
    reduced_openings: Seq<Ext>,
    log_max_height: nat,
    j: nat,
)
    requires
        j < commits.len(),
        j < steps.len(),
        j < changed.len(),
        forall|k: int| 0 <= k < j ==> steps[k] == changed[k],
        steps[j as int].sibling_value != changed[j as int].sibling_value,
        steps[j as int].opening_proof@ == changed[j as int].opening_proof@,
        rounds_open(
            perm,
            commits,
            index_bits,
            steps,
            betas,
            reduced_openings,
            log_max_height,
            commits.len(),
        ),
        rounds_open(
            perm,
            commits,
            index_bits,
            changed,
            betas,
            reduced_openings,
            log_max_height,
            commits.len(),
        ),
    ensures
        ({
            let leaf = round_leaf(index_bits, steps, betas, reduced_openings, log_max_height, j);
            let other = round_leaf(index_bits, changed, betas, reduced_openings, log_max_height, j);
            let heights = seq![(log_max_height - 1 - j) as usize];
            let bits = index_bits.skip(j as int + 1);
            let path = digests_view(steps[j as int].opening_proof@);
            &&& leaf != other
            &&& batch_opens(perm, commits[j as int]@, heights, seq![leaf], bits, path)
            &&& batch_opens(perm, commits[j as int]@, heights, seq![other], bits, path)
        }),
{
    lemma_sibling_value_is_opened(
        index_bits,
        steps,
        changed,
        betas,
        reduced_openings,
        log_max_height,
        j,
    );
    lemma_rounds_open_prefix(
        perm,
        commits,
        index_bits,
        steps,
        betas,
        reduced_openings,
        log_max_height,
        j + 1,
        commits.len(),
    );
    lemma_rounds_open_prefix(
        perm,
        commits,
        index_bits,
        changed,
        betas,
        reduced_openings,
        log_max_height,
        j + 1,
        commits.len(),
    );
    lemma_rounds_open_unfold(
        perm,
        commits,
        index_bits,
        steps,
        betas,
        reduced_openings,
        log_max_height,
        j,
    );
    lemma_rounds_open_unfold(
        perm,
        commits,
        index_bits,
        changed,
        betas,
        reduced_openings,
        log_max_height,
        j,
    );
}

} // verus!
