//! What ties the claimed values of the committed polynomials to a FRI
//! proof: for each query, the rows opened of every committed batch are
//! checked against the batch's commitment and reduced, with the claimed
//! values, to one value for each height, which the query then folds.

use crate::challenger::after_samples;
use crate::challenger::reversed_index_value;
use crate::challenger::sampled_ext;
use crate::challenger::DuplexChallenger;
use crate::challenger::DuplexState;
use crate::field::add_ext;
use crate::field::ext_add;
use crate::field::ext_inv;
use crate::field::ext_mul;
use crate::field::ext_one;
use crate::field::ext_sub_base;
use crate::field::ext_zero;
use crate::field::felt_mul;
use crate::field::felt_pow;
use crate::field::is_canonical;
use crate::field::mul_ext;
use crate::field::mul_felt;
use crate::field::spec_generator;
use crate::field::spec_two_adic_generator;
use crate::field::sub_base;
use crate::field::try_inverse_ext;
use crate::field::two_adic_generator;
use crate::field::TWO_ADICITY;
use crate::challenger::lemma_index_truncation;
use crate::fri::beta;
use crate::fri::challenges_drawn;
use crate::fri::challenges_shape;
use crate::fri::exp_reverse_bits;
use crate::fri::log_max_height;
use crate::fri::pow_ok;
use crate::fri::proof_shape;
use crate::fri::query_accepts;
use crate::fri::query_index;
use crate::fri::verify_challenges;
use crate::fri::verify_shape;
use crate::fri::verify_shape_and_sample_challenges;
use crate::fri::FriConfig;
use crate::fri::FriError;
use crate::merkle_tree::batch_opens;
use crate::merkle_tree::rows_view;
use crate::merkle_tree::verify_batch;
use crate::types::FriProofVariable;
use crate::field::all_canonical;
use crate::field::all_ext_canonical;
use crate::field::ext_canonical;
use crate::field::Ext;
use crate::field::Felt;
use crate::hash::Permutation;
use crate::merkle_tree::all_rows_canonical;
use crate::merkle_tree::any_at;
use crate::merkle_tree::digests_view;
use crate::types::BatchOpeningVariable;
use crate::types::TwoAdicPcsMatsVariable;
use crate::types::TwoAdicPcsRoundVariable;
use vstd::prelude::*;

verus! {

/// The heights, as logarithms, of the codewords of the matrices of a batch:
/// each domain's size times the blowup.
pub open spec fn batch_log_heights(mats: Seq<TwoAdicPcsMatsVariable>, log_blowup: nat) -> Seq<
    usize,
> {
    Seq::new(mats.len(), |i: int| (mats[i].domain.log_n + log_blowup) as usize)
}

/// The claims about a matrix fit the row opened of it: the codeword's
/// height is within the largest tree, there is a list of values for each
/// point, and a value for each column of the row; all field elements are
/// canonical.
pub open spec fn mat_shape(
    mat: TwoAdicPcsMatsVariable,
    row: Seq<Felt>,
    log_blowup: nat,
    log_max_height: nat,
) -> bool {
    &&& mat.domain.log_n + log_blowup <= log_max_height
    &&& mat.values@.len() == mat.points@.len()
    &&& all_ext_canonical(mat.points@)
    &&& all_canonical(row)
    &&& forall|p: int|
        0 <= p < mat.values@.len() ==> (#[trigger] mat.values@[p])@.len() == row.len()
            && all_ext_canonical(mat.values@[p]@)
}

/// An opening fits its batch: there is a row for each matrix, each row
/// fits the claims about its matrix, and the path is as long as the tallest
/// codeword of the batch is high.
pub open spec fn batch_input_shape(
    round: TwoAdicPcsRoundVariable,
    opening: BatchOpeningVariable,
    log_blowup: nat,
    log_max_height: nat,
) -> bool {
    let mats = round.domains_points_and_opens@;
    &&& opening.opened_values@.len() == mats.len()
    &&& all_canonical(round.batch_commit@)
    &&& all_rows_canonical(digests_view(opening.opening_proof@))
    &&& forall|m: int|
        0 <= m < mats.len() ==> mat_shape(
            #[trigger] mats[m],
            opening.opened_values@[m]@,
            log_blowup,
            log_max_height,
        )
    &&& forall|m: int|
        0 <= m < mats.len() ==> (#[trigger] mats[m]).domain.log_n + log_blowup
            <= opening.opening_proof@.len()
    &&& any_at(batch_log_heights(mats, log_blowup), opening.opening_proof@.len() as int)
}

/// The openings of a query fit the committed batches: one for each, in
/// order.
pub open spec fn input_shape(
    rounds: Seq<TwoAdicPcsRoundVariable>,
    input_proof: Seq<BatchOpeningVariable>,
    log_blowup: nat,
    log_max_height: nat,
) -> bool {
    &&& input_proof.len() == rounds.len()
    &&& forall|b: int|
        0 <= b < rounds.len() ==> batch_input_shape(
            #[trigger] rounds[b],
            input_proof[b],
            log_blowup,
            log_max_height,
        )
}

/// Whether every entry is canonical.
fn exts_canonical(values: &Vec<Ext>) -> (ok: bool)
    ensures
        ok == all_ext_canonical(values@),
{
    let mut i: usize = 0;
    while i < values.len()
        invariant
            i <= values@.len(),
            forall|k: int| 0 <= k < i ==> ext_canonical(#[trigger] values@[k]),
        decreases values@.len() - i,
    {
        if !crate::field::is_ext_canonical(&values[i]) {
            return false;
        }
        i += 1;
    }
    true
}

/// Whether the claims about a matrix fit the row opened of it.
fn check_mat_shape(
    mat: &TwoAdicPcsMatsVariable,
    row: &Vec<Felt>,
    log_blowup: usize,
    log_max_height: usize,
) -> (ok: bool)
    requires
        log_blowup <= log_max_height,
    ensures
        ok == mat_shape(*mat, row@, log_blowup as nat, log_max_height as nat),
{
    if mat.domain.log_n > log_max_height - log_blowup || mat.values.len() != mat.points.len()
        || !exts_canonical(&mat.points) || !crate::field::is_all_canonical(row.as_slice()) {
        return false;
    }
    let n = mat.values.len();
    let mut p: usize = 0;
    while p < n
        invariant
            p <= n,
            n == mat.values@.len(),
            forall|k: int|
                0 <= k < p ==> (#[trigger] mat.values@[k])@.len() == row@.len()
                    && all_ext_canonical(mat.values@[k]@),
        decreases n - p,
    {
        if mat.values[p].len() != row.len() || !exts_canonical(&mat.values[p]) {
            return false;
        }
        p += 1;
    }
    true
}

/// Whether every digest is canonical.
fn path_canonical(digests: &Vec<crate::hash::Digest>) -> (ok: bool)
    ensures
        ok == all_rows_canonical(digests_view(digests@)),
{
    let mut i: usize = 0;
    while i < digests.len()
        invariant
            i <= digests@.len(),
            forall|k: int| 0 <= k < i ==> all_canonical(#[trigger] digests_view(digests@)[k]),
        decreases digests@.len() - i,
    {
        if !crate::field::is_all_canonical(digests[i].as_slice()) {
            assert(!all_canonical(digests_view(digests@)[i as int]));
            return false;
        }
        assert(digests_view(digests@)[i as int] == digests@[i as int]@);
        i += 1;
    }
    true
}

/// Whether an opening fits its batch.
pub fn check_batch_input_shape(
    round: &TwoAdicPcsRoundVariable,
    opening: &BatchOpeningVariable,
    log_blowup: usize,
    log_max_height: usize,
) -> (ok: bool)
    requires
        log_blowup <= log_max_height,
    ensures
        ok == batch_input_shape(*round, *opening, log_blowup as nat, log_max_height as nat),
{
    let mats = &round.domains_points_and_opens;
    let n = mats.len();
    let depth = opening.opening_proof.len();
    if opening.opened_values.len() != n || !crate::field::is_all_canonical(
        round.batch_commit.as_slice(),
    ) || !path_canonical(&opening.opening_proof) {
        return false;
    }
    let ghost heights = batch_log_heights(mats@, log_blowup as nat);
    let mut tallest = false;
    let mut m: usize = 0;
    while m < n
        invariant
            m <= n,
            n == mats@.len(),
            *mats == round.domains_points_and_opens,
            n == opening.opened_values@.len(),
            log_blowup <= log_max_height,
            depth == opening.opening_proof@.len(),
            heights == batch_log_heights(mats@, log_blowup as nat),
            forall|k: int|
                0 <= k < m ==> mat_shape(
                    #[trigger] mats@[k],
                    opening.opened_values@[k]@,
                    log_blowup as nat,
                    log_max_height as nat,
                ),
            forall|k: int| 0 <= k < m ==> (#[trigger] mats@[k]).domain.log_n + log_blowup <= depth,
            tallest == any_at(heights.take(m as int), depth as int),
        decreases n - m,
    {
        let ghost mat = round.domains_points_and_opens@[m as int];
        if !check_mat_shape(&mats[m], &opening.opened_values[m], log_blowup, log_max_height) {
            assert(!mat_shape(
                mat,
                opening.opened_values@[m as int]@,
                log_blowup as nat,
                log_max_height as nat,
            ));
            return false;
        }
        let height = mats[m].domain.log_n + log_blowup;
        if height > depth {
            assert(mat.domain.log_n + log_blowup > opening.opening_proof@.len());
            return false;
        }
        proof {
            let now = heights.take(m + 1);
            let before = heights.take(m as int);
            assert(now[m as int] == height);
            if tallest {
                let k = choose|k: int| 0 <= k < before.len() && #[trigger] before[k] == depth;
                assert(now[k] == depth);
            }
            if any_at(now, depth as int) && height != depth {
                let k = choose|k: int| 0 <= k < now.len() && #[trigger] now[k] == depth;
                assert(before[k] == depth);
            }
        }
        if height == depth {
            tallest = true;
        }
        m += 1;
    }
    assert(heights.take(n as int) =~= heights);
    tallest
}

/// Whether the openings of a query fit the committed batches.
pub fn check_input_shape(
    rounds: &Vec<TwoAdicPcsRoundVariable>,
    input_proof: &Vec<BatchOpeningVariable>,
    log_blowup: usize,
    log_max_height: usize,
) -> (ok: bool)
    requires
        log_blowup <= log_max_height,
    ensures
        ok == input_shape(rounds@, input_proof@, log_blowup as nat, log_max_height as nat),
{
    if input_proof.len() != rounds.len() {
        return false;
    }
    let n = rounds.len();
    let mut b: usize = 0;
    while b < n
        invariant
            b <= n,
            n == rounds@.len(),
            n == input_proof@.len(),
            log_blowup <= log_max_height,
            forall|k: int|
                0 <= k < b ==> batch_input_shape(
                    #[trigger] rounds@[k],
                    input_proof@[k],
                    log_blowup as nat,
                    log_max_height as nat,
                ),
        decreases n - b,
    {
        if !check_batch_input_shape(&rounds[b], &input_proof[b], log_blowup, log_max_height) {
            return false;
        }
        b += 1;
    }
    true
}

/// The sum and the power of `alpha` after the first `n` columns of a row:
/// each column adds the power times the difference between the value
/// claimed at the point and the value opened, and multiplies the power by
/// `alpha`.
#[verifier::opaque]
pub open spec fn columns_acc(
    alpha: Ext,
    row: Seq<Felt>,
    values: Seq<Ext>,
    start: (Ext, Ext),
    n: nat,
) -> (Ext, Ext)
    decreases n,
{
    if n == 0 {
        start
    } else {
        let (acc, power) = columns_acc(alpha, row, values, start, (n - 1) as nat);
        (
            ext_add(acc, ext_mul(power, ext_sub_base(values[n - 1], row[n - 1]))),
            ext_mul(power, alpha),
        )
    }
}

/// How the sum over the columns starts and goes on.
pub proof fn lemma_columns_acc_unfold(
    alpha: Ext,
    row: Seq<Felt>,
    values: Seq<Ext>,
    start: (Ext, Ext),
    n: nat,
)
    ensures
        columns_acc(alpha, row, values, start, 0) == start,
        columns_acc(alpha, row, values, start, n + 1) == ({
            let (acc, power) = columns_acc(alpha, row, values, start, n);
            (
                ext_add(acc, ext_mul(power, ext_sub_base(values[n as int], row[n as int]))),
                ext_mul(power, alpha),
            )
        }),
{
    reveal_with_fuel(columns_acc, 2);
}

/// The reduced opening and the power of `alpha` after the first `n` points
/// of a matrix: each point adds the sum over the columns, divided by the
/// difference between the point and `x`. There is no result where a point
/// is `x`.
#[verifier::opaque]
pub open spec fn points_acc(
    alpha: Ext,
    x: Felt,
    row: Seq<Felt>,
    points: Seq<Ext>,
    values: Seq<Vec<Ext>>,
    start: (Ext, Ext),
    n: nat,
) -> Option<(Ext, Ext)>
    decreases n,
{
    if n == 0 {
        Some(start)
    } else {
        match points_acc(alpha, x, row, points, values, start, (n - 1) as nat) {
            None => None,
            Some((reduced, power)) => {
                let distance = ext_sub_base(points[n - 1], x);
                if distance == ext_zero() {
                    None
                } else {
                    let (acc, next) = columns_acc(
                        alpha,
                        row,
                        values[n - 1]@,
                        (ext_zero(), power),
                        row.len(),
                    );
                    Some((ext_add(reduced, ext_mul(acc, ext_inv(distance))), next))
                }
            },
        }
    }
}

/// How the reduction over the points starts and goes on.
pub proof fn lemma_points_acc_unfold(
    alpha: Ext,
    x: Felt,
    row: Seq<Felt>,
    points: Seq<Ext>,
    values: Seq<Vec<Ext>>,
    start: (Ext, Ext),
    n: nat,
)
    ensures
        points_acc(alpha, x, row, points, values, start, 0) == Some(start),
        points_acc(alpha, x, row, points, values, start, n + 1) == (match points_acc(
            alpha,
            x,
            row,
            points,
            values,
            start,
            n,
        ) {
            None => None,
            Some((reduced, power)) => {
                let distance = ext_sub_base(points[n as int], x);
                if distance == ext_zero() {
                    None
                } else {
                    let (acc, next) = columns_acc(
                        alpha,
                        row,
                        values[n as int]@,
                        (ext_zero(), power),
                        row.len(),
                    );
                    Some((ext_add(reduced, ext_mul(acc, ext_inv(distance))), next))
                }
            },
        }),
{
    reveal_with_fuel(points_acc, 2);
}

/// The reduced openings and the powers of `alpha`, one of each for every
/// height.
pub struct OpeningState {
    pub reduced: Seq<Ext>,
    pub alpha_pows: Seq<Ext>,
}

/// The point of a codeword of height `2^log_height` that a position
/// stands for: the field's generator, by which every codeword's domain is
/// shifted, times the generator of order `2^log_height` raised to the
/// position's highest `log_height` bits read in reverse.
pub open spec fn matrix_point(index_bits: Seq<bool>, log_height: nat) -> Felt {
    felt_mul(
        spec_generator(),
        felt_pow(
            spec_two_adic_generator(log_height),
            reversed_index_value(index_bits.skip(index_bits.len() - log_height)),
        ),
    )
}

/// The state after the first `n` matrices of a batch: each matrix goes
/// into the reduced opening of its codeword's height.
#[verifier::opaque]
pub open spec fn mats_acc(
    alpha: Ext,
    index_bits: Seq<bool>,
    log_blowup: nat,
    mats: Seq<TwoAdicPcsMatsVariable>,
    opened: Seq<Vec<Felt>>,
    start: OpeningState,
    n: nat,
) -> Option<OpeningState>
    decreases n,
{
    if n == 0 {
        Some(start)
    } else {
        match mats_acc(alpha, index_bits, log_blowup, mats, opened, start, (n - 1) as nat) {
            None => None,
            Some(state) => mat_step(alpha, index_bits, log_blowup, mats[n - 1], opened[n - 1]@, state),
        }
    }
}

/// What one matrix makes of the state.
pub open spec fn mat_step(
    alpha: Ext,
    index_bits: Seq<bool>,
    log_blowup: nat,
    mat: TwoAdicPcsMatsVariable,
    row: Seq<Felt>,
    state: OpeningState,
) -> Option<OpeningState> {
    let h = (mat.domain.log_n + log_blowup) as int;
    match points_acc(
        alpha,
        matrix_point(index_bits, h as nat),
        row,
        mat.points@,
        mat.values@,
        (state.reduced[h], state.alpha_pows[h]),
        mat.points@.len(),
    ) {
        None => None,
        Some((reduced, power)) => Some(
            OpeningState {
                reduced: state.reduced.update(h, reduced),
                alpha_pows: state.alpha_pows.update(h, power),
            },
        ),
    }
}

/// How the reduction over the matrices starts and goes on.
pub proof fn lemma_mats_acc_unfold(
    alpha: Ext,
    index_bits: Seq<bool>,
    log_blowup: nat,
    mats: Seq<TwoAdicPcsMatsVariable>,
    opened: Seq<Vec<Felt>>,
    start: OpeningState,
    n: nat,
)
    ensures
        mats_acc(alpha, index_bits, log_blowup, mats, opened, start, 0) == Some(start),
        mats_acc(alpha, index_bits, log_blowup, mats, opened, start, n + 1) == (match mats_acc(
            alpha,
            index_bits,
            log_blowup,
            mats,
            opened,
            start,
            n,
        ) {
            None => None,
            Some(state) => mat_step(
                alpha,
                index_bits,
                log_blowup,
                mats[n as int],
                opened[n as int]@,
                state,
            ),
        }),
{
    reveal_with_fuel(mats_acc, 2);
}

/// The rows opened of a batch lead to the batch's commitment, at the
/// position's highest bits: as many as the path is long.
pub open spec fn input_opens<H: Permutation>(
    perm: H,
    round: TwoAdicPcsRoundVariable,
    opening: BatchOpeningVariable,
    index_bits: Seq<bool>,
    log_blowup: nat,
) -> bool {
    batch_opens(
        perm,
        round.batch_commit@,
        batch_log_heights(round.domains_points_and_opens@, log_blowup),
        rows_view(opening.opened_values@),
        index_bits.skip(index_bits.len() - opening.opening_proof@.len()),
        digests_view(opening.opening_proof@),
    )
}

/// The state after the first `n` batches. There is no result where the
/// rows of a batch do not lead to its commitment, or a point is in a
/// domain.
#[verifier::opaque]
pub open spec fn batches_acc<H: Permutation>(
    perm: H,
    alpha: Ext,
    index_bits: Seq<bool>,
    log_blowup: nat,
    rounds: Seq<TwoAdicPcsRoundVariable>,
    input_proof: Seq<BatchOpeningVariable>,
    start: OpeningState,
    n: nat,
) -> Option<OpeningState>
    decreases n,
{
    if n == 0 {
        Some(start)
    } else {
        match batches_acc(
            perm,
            alpha,
            index_bits,
            log_blowup,
            rounds,
            input_proof,
            start,
            (n - 1) as nat,
        ) {
            None => None,
            Some(state) => batch_step(
                perm,
                alpha,
                index_bits,
                log_blowup,
                rounds[n - 1],
                input_proof[n - 1],
                state,
            ),
        }
    }
}

/// What one batch makes of the state.
pub open spec fn batch_step<H: Permutation>(
    perm: H,
    alpha: Ext,
    index_bits: Seq<bool>,
    log_blowup: nat,
    round: TwoAdicPcsRoundVariable,
    opening: BatchOpeningVariable,
    state: OpeningState,
) -> Option<OpeningState> {
    if input_opens(perm, round, opening, index_bits, log_blowup) {
        mats_acc(
            alpha,
            index_bits,
            log_blowup,
            round.domains_points_and_opens@,
            opening.opened_values@,
            state,
            round.domains_points_and_opens@.len(),
        )
    } else {
        None
    }
}

/// How the reduction over the batches starts and goes on.
pub proof fn lemma_batches_acc_unfold<H: Permutation>(
    perm: H,
    alpha: Ext,
    index_bits: Seq<bool>,
    log_blowup: nat,
    rounds: Seq<TwoAdicPcsRoundVariable>,
    input_proof: Seq<BatchOpeningVariable>,
    start: OpeningState,
    n: nat,
)
    ensures
        batches_acc(perm, alpha, index_bits, log_blowup, rounds, input_proof, start, 0) == Some(
            start,
        ),
        batches_acc(perm, alpha, index_bits, log_blowup, rounds, input_proof, start, n + 1) == (
        match batches_acc(perm, alpha, index_bits, log_blowup, rounds, input_proof, start, n) {
            None => None,
            Some(state) => batch_step(
                perm,
                alpha,
                index_bits,
                log_blowup,
                rounds[n as int],
                input_proof[n as int],
                state,
            ),
        }),
{
    reveal_with_fuel(batches_acc, 2);
}

/// The state that a query starts from: every reduced opening zero, every
/// power of `alpha` one.
pub open spec fn opening_start(log_max_height: nat) -> OpeningState {
    OpeningState {
        reduced: Seq::new(log_max_height + 1, |i: int| ext_zero()),
        alpha_pows: Seq::new(log_max_height + 1, |i: int| ext_one()),
    }
}

/// The reduced openings of a query, one for each height, if its rows lead
/// to the commitments.
pub open spec fn reduced_openings<H: Permutation>(
    perm: H,
    alpha: Ext,
    index_bits: Seq<bool>,
    log_blowup: nat,
    rounds: Seq<TwoAdicPcsRoundVariable>,
    input_proof: Seq<BatchOpeningVariable>,
) -> Option<Seq<Ext>> {
    match batches_acc(
        perm,
        alpha,
        index_bits,
        log_blowup,
        rounds,
        input_proof,
        opening_start(index_bits.len()),
        rounds.len(),
    ) {
        None => None,
        Some(state) => Some(state.reduced),
    }
}

/// Sums a row's columns at one point.
fn reduce_columns(alpha: Ext, row: &Vec<Felt>, values: &Vec<Ext>, power: Ext) -> (r: (Ext, Ext))
    requires
        ext_canonical(alpha),
        ext_canonical(power),
        all_canonical(row@),
        all_ext_canonical(values@),
        values@.len() == row@.len(),
    ensures
        r == columns_acc(alpha, row@, values@, (ext_zero(), power), row@.len()),
        ext_canonical(r.0),
        ext_canonical(r.1),
{
    let n = row.len();
    let mut acc = Ext { c0: 0, c1: 0, c2: 0, c3: 0 };
    let mut current = power;
    let ghost start = (ext_zero(), power);
    let mut i: usize = 0;
    proof {
        lemma_columns_acc_unfold(alpha, row@, values@, start, 0);
    }
    while i < n
        invariant
            i <= n,
            n == row@.len(),
            n == values@.len(),
            ext_canonical(alpha),
            ext_canonical(acc),
            ext_canonical(current),
            all_canonical(row@),
            all_ext_canonical(values@),
            (acc, current) == columns_acc(alpha, row@, values@, start, i as nat),
        decreases n - i,
    {
        proof {
            lemma_columns_acc_unfold(alpha, row@, values@, start, i as nat);
        }
        acc = add_ext(acc, mul_ext(current, sub_base(values[i], row[i])));
        current = mul_ext(current, alpha);
        i += 1;
    }
    (acc, current)
}

/// Reduces the claims about one matrix at one position.
fn reduce_points(
    alpha: Ext,
    x: Felt,
    row: &Vec<Felt>,
    mat: &TwoAdicPcsMatsVariable,
    reduced: Ext,
    power: Ext,
) -> (r: Option<(Ext, Ext)>)
    requires
        ext_canonical(alpha),
        is_canonical(x),
        ext_canonical(reduced),
        ext_canonical(power),
        all_canonical(row@),
        all_ext_canonical(mat.points@),
        mat.values@.len() == mat.points@.len(),
        forall|p: int|
            0 <= p < mat.values@.len() ==> (#[trigger] mat.values@[p])@.len() == row@.len()
                && all_ext_canonical(mat.values@[p]@),
    ensures
        r == points_acc(
            alpha,
            x,
            row@,
            mat.points@,
            mat.values@,
            (reduced, power),
            mat.points@.len(),
        ),
        r matches Some(pair) ==> ext_canonical(pair.0) && ext_canonical(pair.1),
{
    let n = mat.points.len();
    let mut total = reduced;
    let mut current = power;
    let ghost start = (reduced, power);
    let mut p: usize = 0;
    proof {
        lemma_points_acc_unfold(alpha, x, row@, mat.points@, mat.values@, start, 0);
    }
    while p < n
        invariant
            p <= n,
            n == mat.points@.len(),
            n == mat.values@.len(),
            start == (reduced, power),
            ext_canonical(alpha),
            is_canonical(x),
            ext_canonical(total),
            ext_canonical(current),
            all_canonical(row@),
            all_ext_canonical(mat.points@),
            forall|k: int|
                0 <= k < mat.values@.len() ==> (#[trigger] mat.values@[k])@.len() == row@.len()
                    && all_ext_canonical(mat.values@[k]@),
            points_acc(alpha, x, row@, mat.points@, mat.values@, start, p as nat) == Some(
                (total, current),
            ),
        decreases n - p,
    {
        proof {
            lemma_points_acc_unfold(alpha, x, row@, mat.points@, mat.values@, start, p as nat);
        }
        let distance = sub_base(mat.points[p], x);
        let found = try_inverse_ext(distance);
        if found.is_none() {
            proof {
                assert(points_acc(
                    alpha,
                    x,
                    row@,
                    mat.points@,
                    mat.values@,
                    start,
                    (p + 1) as nat,
                ) is None);
                lemma_points_acc_none(
                    alpha,
                    x,
                    row@,
                    mat.points@,
                    mat.values@,
                    start,
                    (p + 1) as nat,
                    n as nat,
                );
            }
            return None;
        }
        let inv = found.unwrap();
        let columns = reduce_columns(alpha, row, &mat.values[p], current);
        total = add_ext(total, mul_ext(columns.0, inv));
        current = columns.1;
        p += 1;
    }
    Some((total, current))
}

/// Once the reduction over the points has no result, it has none later.
pub proof fn lemma_points_acc_none(
    alpha: Ext,
    x: Felt,
    row: Seq<Felt>,
    points: Seq<Ext>,
    values: Seq<Vec<Ext>>,
    start: (Ext, Ext),
    k: nat,
    n: nat,
)
    requires
        k <= n,
        points_acc(alpha, x, row, points, values, start, k) is None,
    ensures
        points_acc(alpha, x, row, points, values, start, n) is None,
    decreases n - k,
{
    if k < n {
        lemma_points_acc_none(alpha, x, row, points, values, start, k, (n - 1) as nat);
        lemma_points_acc_unfold(alpha, x, row, points, values, start, (n - 1) as nat);
    }
}

/// Once the reduction over the matrices has no result, it has none later.
pub proof fn lemma_mats_acc_none(
    alpha: Ext,
    index_bits: Seq<bool>,
    log_blowup: nat,
    mats: Seq<TwoAdicPcsMatsVariable>,
    opened: Seq<Vec<Felt>>,
    start: OpeningState,
    k: nat,
    n: nat,
)
    requires
        k <= n,
        mats_acc(alpha, index_bits, log_blowup, mats, opened, start, k) is None,
    ensures
        mats_acc(alpha, index_bits, log_blowup, mats, opened, start, n) is None,
    decreases n - k,
{
    if k < n {
        lemma_mats_acc_none(alpha, index_bits, log_blowup, mats, opened, start, k, (n - 1) as nat);
        lemma_mats_acc_unfold(alpha, index_bits, log_blowup, mats, opened, start, (n - 1) as nat);
    }
}

/// Once the reduction over the batches has no result, it has none later.
pub proof fn lemma_batches_acc_none<H: Permutation>(
    perm: H,
    alpha: Ext,
    index_bits: Seq<bool>,
    log_blowup: nat,
    rounds: Seq<TwoAdicPcsRoundVariable>,
    input_proof: Seq<BatchOpeningVariable>,
    start: OpeningState,
    k: nat,
    n: nat,
)
    requires
        k <= n,
        batches_acc(perm, alpha, index_bits, log_blowup, rounds, input_proof, start, k) is None,
    ensures
        batches_acc(perm, alpha, index_bits, log_blowup, rounds, input_proof, start, n) is None,
    decreases n - k,
{
    if k < n {
        lemma_batches_acc_none(
            perm,
            alpha,
            index_bits,
            log_blowup,
            rounds,
            input_proof,
            start,
            k,
            (n - 1) as nat,
        );
        lemma_batches_acc_unfold(
            perm,
            alpha,
            index_bits,
            log_blowup,
            rounds,
            input_proof,
            start,
            (n - 1) as nat,
        );
    }
}

/// Reduces the claims about the matrices of one batch at one position.
fn reduce_mats(
    alpha: Ext,
    index_bits: &Vec<bool>,
    log_blowup: usize,
    mats: &Vec<TwoAdicPcsMatsVariable>,
    opened: &Vec<Vec<Felt>>,
    reduced: &mut Vec<Ext>,
    alpha_pows: &mut Vec<Ext>,
) -> (ok: bool)
    requires
        ext_canonical(alpha),
        index_bits@.len() <= TWO_ADICITY,
        old(reduced)@.len() == index_bits@.len() + 1,
        old(alpha_pows)@.len() == index_bits@.len() + 1,
        all_ext_canonical(old(reduced)@),
        all_ext_canonical(old(alpha_pows)@),
        opened@.len() == mats@.len(),
        forall|m: int|
            0 <= m < mats@.len() ==> mat_shape(
                #[trigger] mats@[m],
                opened@[m]@,
                log_blowup as nat,
                index_bits@.len(),
            ),
    ensures
        final(reduced)@.len() == index_bits@.len() + 1,
        final(alpha_pows)@.len() == index_bits@.len() + 1,
        all_ext_canonical(final(reduced)@),
        all_ext_canonical(final(alpha_pows)@),
        match mats_acc(
            alpha,
            index_bits@,
            log_blowup as nat,
            mats@,
            opened@,
            OpeningState { reduced: old(reduced)@, alpha_pows: old(alpha_pows)@ },
            mats@.len(),
        ) {
            Some(state) => ok && final(reduced)@ == state.reduced && final(alpha_pows)@
                == state.alpha_pows,
            None => !ok,
        },
{
    let n = mats.len();
    let height = index_bits.len();
    let ghost start = OpeningState { reduced: reduced@, alpha_pows: alpha_pows@ };
    let mut m: usize = 0;
    proof {
        lemma_mats_acc_unfold(alpha, index_bits@, log_blowup as nat, mats@, opened@, start, 0);
    }
    while m < n
        invariant
            m <= n,
            n == mats@.len(),
            n == opened@.len(),
            height == index_bits@.len(),
            height <= TWO_ADICITY,
            ext_canonical(alpha),
            reduced@.len() == height + 1,
            alpha_pows@.len() == height + 1,
            all_ext_canonical(reduced@),
            all_ext_canonical(alpha_pows@),
            start == (OpeningState { reduced: old(reduced)@, alpha_pows: old(alpha_pows)@ }),
            forall|k: int|
                0 <= k < mats@.len() ==> mat_shape(
                    #[trigger] mats@[k],
                    opened@[k]@,
                    log_blowup as nat,
                    index_bits@.len(),
                ),
            mats_acc(alpha, index_bits@, log_blowup as nat, mats@, opened@, start, m as nat)
                == Some(OpeningState { reduced: reduced@, alpha_pows: alpha_pows@ }),
        decreases n - m,
    {
        let mat = &mats[m];
        assert(mat_shape(mats@[m as int], opened@[m as int]@, log_blowup as nat, height as nat));
        let h = mat.domain.log_n + log_blowup;
        let bits = vstd::slice::slice_subrange(index_bits.as_slice(), height - h, height);
        assert(bits@ =~= index_bits@.skip(height - h));
        let x = mul_felt(
            crate::field::generator(),
            exp_reverse_bits(two_adic_generator(h), bits),
        );
        let ghost before = OpeningState { reduced: reduced@, alpha_pows: alpha_pows@ };
        proof {
            lemma_mats_acc_unfold(
                alpha,
                index_bits@,
                log_blowup as nat,
                mats@,
                opened@,
                start,
                m as nat,
            );
            assert(ext_canonical(reduced@[h as int]));
            assert(ext_canonical(alpha_pows@[h as int]));
        }
        let folded = reduce_points(alpha, x, &opened[m], mat, reduced[h], alpha_pows[h]);
        match folded {
            None => {
                proof {
                    lemma_mats_acc_none(
                        alpha,
                        index_bits@,
                        log_blowup as nat,
                        mats@,
                        opened@,
                        start,
                        (m + 1) as nat,
                        n as nat,
                    );
                }
                return false;
            },
            Some(pair) => {
                reduced.set(h, pair.0);
                alpha_pows.set(h, pair.1);
                proof {
                    assert(reduced@ =~= before.reduced.update(h as int, pair.0));
                    assert(alpha_pows@ =~= before.alpha_pows.update(h as int, pair.1));
                }
            },
        }
        m += 1;
    }
    true
}

/// The heights of the codewords of a batch.
fn log_heights_of(mats: &Vec<TwoAdicPcsMatsVariable>, log_blowup: usize, bound: usize) -> (heights:
    Vec<usize>)
    requires
        forall|m: int| 0 <= m < mats@.len() ==> (#[trigger] mats@[m]).domain.log_n + log_blowup <= bound,
    ensures
        heights@ == batch_log_heights(mats@, log_blowup as nat),
{
    let mut heights: Vec<usize> = Vec::new();
    let n = mats.len();
    let mut m: usize = 0;
    while m < n
        invariant
            m <= n,
            n == mats@.len(),
            forall|k: int|
                0 <= k < mats@.len() ==> (#[trigger] mats@[k]).domain.log_n + log_blowup <= bound,
            heights@ == batch_log_heights(mats@, log_blowup as nat).take(m as int),
        decreases n - m,
    {
        assert(mats@[m as int].domain.log_n + log_blowup <= bound);
        heights.push(mats[m].domain.log_n + log_blowup);
        assert(heights@ =~= batch_log_heights(mats@, log_blowup as nat).take(m + 1));
        m += 1;
    }
    assert(batch_log_heights(mats@, log_blowup as nat).take(n as int) =~= batch_log_heights(
        mats@,
        log_blowup as nat,
    ));
    heights
}

/// As many copies of `value` as there are heights.
fn filled(value: Ext, log_max_height: usize) -> (v: Vec<Ext>)
    requires
        log_max_height <= TWO_ADICITY,
    ensures
        v@ == Seq::new((log_max_height + 1) as nat, |i: int| value),
{
    let mut v: Vec<Ext> = Vec::new();
    let mut i: usize = 0;
    while i <= log_max_height
        invariant
            i <= log_max_height + 1,
            log_max_height <= TWO_ADICITY,
            v@ == Seq::new(i as nat, |k: int| value),
        decreases log_max_height + 1 - i,
    {
        v.push(value);
        assert(v@ =~= Seq::new((i + 1) as nat, |k: int| value));
        i += 1;
    }
    v
}

/// Checks the rows that a query opens of the committed batches against
/// the batches' commitments, and reduces them with the claimed values to
/// one value for each height. There is no result where some rows do not
/// lead to their commitment, or a claimed point lies in a domain.
pub fn open_input<H: Permutation>(
    builder: &H,
    alpha: Ext,
    index_bits: &Vec<bool>,
    log_blowup: usize,
    rounds: &Vec<TwoAdicPcsRoundVariable>,
    input_proof: &Vec<BatchOpeningVariable>,
) -> (opened: Option<Vec<Ext>>)
    requires
        builder.wf(),
        ext_canonical(alpha),
        index_bits@.len() <= TWO_ADICITY,
        input_shape(rounds@, input_proof@, log_blowup as nat, index_bits@.len()),
    ensures
        match reduced_openings(
            *builder,
            alpha,
            index_bits@,
            log_blowup as nat,
            rounds@,
            input_proof@,
        ) {
            Some(values) => opened matches Some(v) && v@ == values && all_ext_canonical(v@)
                && v@.len() == index_bits@.len() + 1,
            None => opened is None,
        },
{
    let height = index_bits.len();
    let mut reduced = filled(Ext { c0: 0, c1: 0, c2: 0, c3: 0 }, height);
    let mut alpha_pows = filled(Ext { c0: 1, c1: 0, c2: 0, c3: 0 }, height);
    let ghost start = opening_start(height as nat);
    assert(reduced@ =~= start.reduced);
    assert(alpha_pows@ =~= start.alpha_pows);
    let n = rounds.len();
    let mut b: usize = 0;
    proof {
        lemma_batches_acc_unfold(
            *builder,
            alpha,
            index_bits@,
            log_blowup as nat,
            rounds@,
            input_proof@,
            start,
            0,
        );
    }
    while b < n
        invariant
            b <= n,
            n == rounds@.len(),
            height == index_bits@.len(),
            height <= TWO_ADICITY,
            builder.wf(),
            ext_canonical(alpha),
            start == opening_start(height as nat),
            input_shape(rounds@, input_proof@, log_blowup as nat, index_bits@.len()),
            reduced@.len() == height + 1,
            alpha_pows@.len() == height + 1,
            all_ext_canonical(reduced@),
            all_ext_canonical(alpha_pows@),
            batches_acc(
                *builder,
                alpha,
                index_bits@,
                log_blowup as nat,
                rounds@,
                input_proof@,
                start,
                b as nat,
            ) == Some(OpeningState { reduced: reduced@, alpha_pows: alpha_pows@ }),
        decreases n - b,
    {
        let round = &rounds[b];
        let opening = &input_proof[b];
        let mats = &round.domains_points_and_opens;
        let depth = opening.opening_proof.len();
        proof {
            lemma_batches_acc_unfold(
                *builder,
                alpha,
                index_bits@,
                log_blowup as nat,
                rounds@,
                input_proof@,
                start,
                b as nat,
            );
            assert(batch_input_shape(
                rounds@[b as int],
                input_proof@[b as int],
                log_blowup as nat,
                height as nat,
            ));
            let heights = batch_log_heights(mats@, log_blowup as nat);
            let k = choose|k: int| 0 <= k < heights.len() && #[trigger] heights[k] == depth;
            assert(mat_shape(mats@[k], opening.opened_values@[k]@, log_blowup as nat, height as nat));
            assert(depth <= height);
            assert forall|i: int| 0 <= i < heights.len() implies #[trigger] heights[i] <= depth by {
                assert(mats@[i].domain.log_n + log_blowup <= depth);
            }
            assert(all_rows_canonical(rows_view(opening.opened_values@))) by {
                assert forall|i: int| 0 <= i < opening.opened_values@.len() implies all_canonical(
                    #[trigger] rows_view(opening.opened_values@)[i],
                ) by {
                    assert(mat_shape(
                        mats@[i],
                        opening.opened_values@[i]@,
                        log_blowup as nat,
                        height as nat,
                    ));
                }
            }
        }
        let heights = log_heights_of(mats, log_blowup, depth);
        let bits = vstd::slice::slice_subrange(index_bits.as_slice(), height - depth, height);
        assert(bits@ =~= index_bits@.skip(height - depth));
        let ok = verify_batch(
            builder,
            &round.batch_commit,
            &heights,
            bits,
            &opening.opened_values,
            &opening.opening_proof,
        );
        let reduced_ok = ok && reduce_mats(
            alpha,
            index_bits,
            log_blowup,
            mats,
            &opening.opened_values,
            &mut reduced,
            &mut alpha_pows,
        );
        if !reduced_ok {
            proof {
                lemma_batches_acc_none(
                    *builder,
                    alpha,
                    index_bits@,
                    log_blowup as nat,
                    rounds@,
                    input_proof@,
                    start,
                    (b + 1) as nat,
                    n as nat,
                );
            }
            return None;
        }
        b += 1;
    }
    Some(reduced)
}

/// A proof and the committed batches have the shape that the parameters
/// ask for: the proof has, and every query's openings fit the batches.
pub open spec fn pcs_shape(
    config: FriConfig,
    proof: FriProofVariable,
    rounds: Seq<TwoAdicPcsRoundVariable>,
) -> bool {
    &&& proof_shape(config, proof)
    &&& forall|q: int|
        0 <= q < proof.query_proofs@.len() ==> input_shape(
            rounds,
            (#[trigger] proof.query_proofs@[q]).input_proof@,
            config.log_blowup as nat,
            log_max_height(config, proof),
        )
}

/// The folding challenges of the rounds of the commit phase.
pub open spec fn spec_betas<H: Permutation>(
    perm: H,
    s: DuplexState,
    proof: FriProofVariable,
) -> Seq<Ext> {
    Seq::new(
        proof.commit_phase_commits@.len(),
        |j: int| beta(perm, s, proof.commit_phase_commits@, j as nat),
    )
}

/// Query `q` is accepted: at the position drawn for it, the rows opened of
/// the batches lead to the commitments, the rounds of the commit phase
/// open, and the reduced openings fold down to the proof's final value.
pub open spec fn pcs_query_accepts<H: Permutation>(
    perm: H,
    config: FriConfig,
    s: DuplexState,
    alpha: Ext,
    proof: FriProofVariable,
    rounds: Seq<TwoAdicPcsRoundVariable>,
    q: nat,
) -> bool {
    let index_bits = query_index(perm, config, s, proof, q);
    match reduced_openings(
        perm,
        alpha,
        index_bits,
        config.log_blowup as nat,
        rounds,
        proof.query_proofs@[q as int].input_proof@,
    ) {
        None => false,
        Some(values) => query_accepts(
            perm,
            proof.commit_phase_commits@,
            index_bits,
            proof.query_proofs@[q as int].commit_phase_openings@,
            spec_betas(perm, s, proof),
            values,
            log_max_height(config, proof),
            proof.final_poly,
        ),
    }
}

/// The proof is accepted from the transcript `s`: with the batching
/// challenge drawn first, the proof of work is good and every query is
/// accepted.
pub open spec fn pcs_accepts<H: Permutation>(
    perm: H,
    config: FriConfig,
    s: DuplexState,
    proof: FriProofVariable,
    rounds: Seq<TwoAdicPcsRoundVariable>,
) -> bool {
    let alpha = sampled_ext(perm, s);
    let after = after_samples(perm, s, 4);
    &&& pow_ok(perm, config, after, proof)
    &&& forall|q: int|
        0 <= q < config.num_queries ==> #[trigger] pcs_query_accepts(
            perm,
            config,
            after,
            alpha,
            proof,
            rounds,
            q as nat,
        )
}

/// The transcript that an accepted proof leaves behind: the batching
/// challenge, the folding challenges, the proof-of-work challenge and the
/// positions of all queries have been drawn from it.
pub open spec fn transcript_after_queries<H: Permutation>(
    perm: H,
    config: FriConfig,
    s: DuplexState,
    proof: FriProofVariable,
) -> DuplexState {
    after_samples(
        perm,
        crate::challenger::after_sample(
            perm,
            crate::fri::pow_transcript(perm, after_samples(perm, s, 4), proof),
        ),
        config.num_queries as nat,
    )
}

/// Whether a proof and the committed batches have the shape that the
/// parameters ask for.
pub fn verify_pcs_shape(
    config: &FriConfig,
    proof: &FriProofVariable,
    rounds: &Vec<TwoAdicPcsRoundVariable>,
) -> (ok: bool)
    ensures
        ok == pcs_shape(*config, *proof, rounds@),
{
    if !verify_shape(config, proof) {
        return false;
    }
    let height = proof.commit_phase_commits.len() + config.log_blowup;
    let n = proof.query_proofs.len();
    let mut q: usize = 0;
    while q < n
        invariant
            q <= n,
            n == proof.query_proofs@.len(),
            proof_shape(*config, *proof),
            height == log_max_height(*config, *proof),
            forall|k: int|
                0 <= k < q ==> input_shape(
                    rounds@,
                    (#[trigger] proof.query_proofs@[k]).input_proof@,
                    config.log_blowup as nat,
                    height as nat,
                ),
        decreases n - q,
    {
        if !check_input_shape(rounds, &proof.query_proofs[q].input_proof, config.log_blowup, height) {
            return false;
        }
        q += 1;
    }
    true
}

/// Verifies the openings of the committed batches: checks the shape of
/// everything, draws the challenges from the transcript, and checks every
/// query. Where the shape is wrong the transcript is not touched and nothing
/// is computed. Any other failure is a rejection, and which check failed is
/// not told.
pub fn verify_two_adic_pcs<H: Permutation>(
    builder: &H,
    config: &FriConfig,
    proof: &FriProofVariable,
    challenger: &mut DuplexChallenger,
    rounds: &Vec<TwoAdicPcsRoundVariable>,
) -> (outcome: Result<(), FriError>)
    requires
        builder.wf(),
        old(challenger).wf(),
    ensures
        final(challenger).wf(),
        match outcome {
            Ok(()) => pcs_shape(*config, *proof, rounds@) && pcs_accepts(
                *builder,
                *config,
                old(challenger)@,
                *proof,
                rounds@,
            ) && final(challenger)@ == transcript_after_queries(
                *builder,
                *config,
                old(challenger)@,
                *proof,
            ),
            Err(FriError::InvalidProofShape) => !pcs_shape(*config, *proof, rounds@)
                && final(challenger)@ == old(challenger)@,
            Err(FriError::Rejected) => pcs_shape(*config, *proof, rounds@) && !pcs_accepts(
                *builder,
                *config,
                old(challenger)@,
                *proof,
                rounds@,
            ),
        },
{
    if !verify_pcs_shape(config, proof, rounds) {
        return Err(FriError::InvalidProofShape);
    }
    let ghost start = challenger@;
    let alpha = challenger.sample_ext(builder);
    let ghost after = challenger@;
    let drawn = verify_shape_and_sample_challenges(builder, config, proof, challenger);
    let challenges = match drawn {
        Ok(challenges) => challenges,
        Err(_) => {
            return Err(FriError::Rejected);
        },
    };
    let height = proof.commit_phase_commits.len() + config.log_blowup;
    let n = config.num_queries;
    let mut openings: Vec<Vec<Ext>> = Vec::new();
    let mut q: usize = 0;
    proof {
        assert(challenges.betas@ =~= spec_betas(*builder, after, *proof));
    }
    while q < n
        invariant
            q <= n,
            n == config.num_queries,
            builder.wf(),
            challenger.wf(),
            start == old(challenger)@,
            challenger@ == transcript_after_queries(*builder, *config, start, *proof),
            ext_canonical(alpha),
            alpha == sampled_ext(*builder, start),
            after == after_samples(*builder, start, 4),
            height == log_max_height(*config, *proof),
            pcs_shape(*config, *proof, rounds@),
            challenges_drawn(*builder, *config, after, *proof, challenges),
            openings@.len() == q,
            forall|k: int|
                0 <= k < q ==> reduced_openings(
                    *builder,
                    alpha,
                    query_index(*builder, *config, after, *proof, k as nat),
                    config.log_blowup as nat,
                    rounds@,
                    proof.query_proofs@[k].input_proof@,
                ) == Some((#[trigger] openings@[k])@) && openings@[k]@.len() == height + 1
                    && all_ext_canonical(openings@[k]@),
        decreases n - q,
    {
        let index_bits = &challenges.query_indices[q];
        proof {
            let value = crate::challenger::sampled_value(
                *builder,
                after_samples(
                    *builder,
                    crate::challenger::after_sample(
                        *builder,
                        crate::fri::pow_transcript(*builder, after, *proof),
                    ),
                    q as nat,
                ),
            );
            lemma_index_truncation(value as nat, height as nat, height as nat);
            assert(index_bits@ == query_index(*builder, *config, after, *proof, q as nat));
            assert(input_shape(
                rounds@,
                proof.query_proofs@[q as int].input_proof@,
                config.log_blowup as nat,
                height as nat,
            ));
        }
        let opened = open_input(
            builder,
            alpha,
            index_bits,
            config.log_blowup,
            rounds,
            &proof.query_proofs[q].input_proof,
        );
        match opened {
            None => {
                proof {
                    let k: int = q as int;
                    assert(!pcs_query_accepts(
                        *builder,
                        *config,
                        after,
                        alpha,
                        *proof,
                        rounds@,
                        k as nat,
                    ));
                }
                return Err(FriError::Rejected);
            },
            Some(values) => {
                openings.push(values);
            },
        }
        q += 1;
    }
    proof {
        assert forall|k: int| 0 <= k < config.num_queries implies (
        #[trigger] challenges.query_indices@[k])@.len() == log_max_height(*config, *proof) by {
            let value = crate::challenger::sampled_value(
                *builder,
                after_samples(
                    *builder,
                    crate::challenger::after_sample(
                        *builder,
                        crate::fri::pow_transcript(*builder, after, *proof),
                    ),
                    k as nat,
                ),
            );
            lemma_index_truncation(value as nat, height as nat, height as nat);
        }
        assert(challenges_shape(*config, *proof, challenges, openings@));
    }
    let outcome = verify_challenges(builder, config, proof, &challenges, &openings);
    proof {
        if outcome is Ok {
            assert forall|k: int| 0 <= k < config.num_queries implies #[trigger] pcs_query_accepts(
                *builder,
                *config,
                after,
                alpha,
                *proof,
                rounds@,
                k as nat,
            ) by {
                assert(challenges.query_indices@[k]@ == query_index(
                    *builder,
                    *config,
                    after,
                    *proof,
                    k as nat,
                ));
            }
        } else {
            let k = choose|k: int|
                0 <= k < config.num_queries && !query_accepts(
                    *builder,
                    proof.commit_phase_commits@,
                    (#[trigger] challenges.query_indices@[k])@,
                    proof.query_proofs@[k].commit_phase_openings@,
                    challenges.betas@,
                    openings@[k]@,
                    log_max_height(*config, *proof),
                    proof.final_poly,
                );
            assert(challenges.query_indices@[k]@ == query_index(
                *builder,
                *config,
                after,
                *proof,
                k as nat,
            ));
            assert(!pcs_query_accepts(*builder, *config, after, alpha, *proof, rounds@, k as nat));
        }
    }
    outcome
}

} // verus!
