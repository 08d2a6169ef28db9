use p3_commit::Mmcs;
use p3_field::{AbstractField, Field, PrimeField32};
use p3_koala_bear::{DiffusionMatrixKoalaBear, KoalaBear};
use p3_matrix::dense::RowMajorMatrix;
use p3_merkle_tree::FieldMerkleTreeMmcs;
use p3_poseidon2::{Poseidon2 as P3Poseidon2, Poseidon2ExternalMatrixGeneral};
use p3_symmetric::{PaddingFreeSponge, TruncatedPermutation};
use recursion_verifier::challenger::DuplexChallenger;
use recursion_verifier::field::{
    add_ext, add_felt, inverse, mul_ext, mul_felt, pow, scale, sub_base, sub_ext, sub_felt,
    try_inverse_ext, two_adic_generator, Ext, P,
};
use recursion_verifier::fri::{
    exp_reverse_bits, verify_challenges, verify_query, verify_shape,
    verify_shape_and_sample_challenges, FriConfig, FriError,
};
use recursion_verifier::hash::Poseidon2;
use recursion_verifier::two_adic_pcs::{open_input, verify_pcs_shape, verify_two_adic_pcs};
use recursion_verifier::types::{
    BatchOpeningVariable, FriCommitPhaseProofStepVariable, FriProofVariable,
    FriQueryProofVariable, TwoAdicMultiplicativeCoset, TwoAdicPcsMatsVariable,
    TwoAdicPcsRoundVariable,
};

type Perm = P3Poseidon2<KoalaBear, Poseidon2ExternalMatrixGeneral, DiffusionMatrixKoalaBear, 16, 3>;
type Sponge = PaddingFreeSponge<Perm, 16, 8, 8>;
type Compress = TruncatedPermutation<Perm, 2, 8, 16>;
type Tree = FieldMerkleTreeMmcs<<KoalaBear as Field>::Packing, <KoalaBear as Field>::Packing, Sponge, Compress, 8>;

const ZERO: Ext = Ext { c0: 0, c1: 0, c2: 0, c3: 0 };
const ONE: Ext = Ext { c0: 1, c1: 0, c2: 0, c3: 0 };
const LOG_MAX_HEIGHT: usize = 3;

fn kb(x: u32) -> KoalaBear {
    KoalaBear::from_canonical_u32(x)
}

fn stream(seed: u64, n: usize) -> Vec<u32> {
    let mut x = seed;
    let mut out = Vec::new();
    for _ in 0..n {
        x = (x * 6364136223846793005 + 1442695040888963407) % (1 << 63);
        out.push((x >> 20) as u32 % P);
    }
    out
}

fn permutations() -> (Poseidon2, Perm) {
    let ext = stream(1, 8 * 16);
    let int = stream(2, 20);
    let mut rows: Vec<[u32; 16]> = Vec::new();
    for r in 0..8 {
        let mut row = [0u32; 16];
        row.copy_from_slice(&ext[r * 16..(r + 1) * 16]);
        rows.push(row);
    }
    let ours = Poseidon2 { external_constants: rows.clone(), internal_constants: int.clone() };
    let theirs = Perm::new(
        8,
        rows.iter().map(|r| r.map(kb)).collect(),
        Poseidon2ExternalMatrixGeneral,
        20,
        int.iter().map(|x| kb(*x)).collect(),
        DiffusionMatrixKoalaBear::default(),
    );
    (ours, theirs)
}

fn digest_of(d: [KoalaBear; 8]) -> [u32; 8] {
    d.map(|x| x.as_canonical_u32())
}

fn reverse_bits(i: usize, bits: usize) -> usize {
    let mut r = 0;
    for b in 0..bits {
        if (i >> b) & 1 == 1 {
            r |= 1 << (bits - 1 - b);
        }
    }
    r
}

fn eval_base(coeffs: &[u32], x: u32) -> u32 {
    let mut acc = 0;
    for c in coeffs.iter().rev() {
        acc = add_felt(mul_felt(acc, x), *c);
    }
    acc
}

fn eval_ext(coeffs: &[u32], z: Ext) -> Ext {
    let mut acc = ZERO;
    for c in coeffs.iter().rev() {
        acc = mul_ext(acc, z);
        acc.c0 = add_felt(acc.c0, *c);
    }
    acc
}

fn fold_pair(e0: Ext, e1: Ext, x0: u32, beta: Ext) -> Ext {
    let x1 = sub_felt(0, x0);
    let slope = scale(sub_ext(e1, e0), inverse(sub_felt(x1, x0)));
    add_ext(e0, mul_ext(sub_base(beta, x0), slope))
}

fn flatten(a: Ext, b: Ext) -> [KoalaBear; 8] {
    [a.c0, a.c1, a.c2, a.c3, b.c0, b.c1, b.c2, b.c3].map(kb)
}

fn copy_of(c: &DuplexChallenger) -> DuplexChallenger {
    DuplexChallenger {
        sponge_state: c.sponge_state,
        input_buffer: c.input_buffer.clone(),
        output_buffer: c.output_buffer.clone(),
    }
}

fn index_of(bits: &[bool]) -> usize {
    bits.iter().enumerate().map(|(i, b)| (*b as usize) << i).sum()
}

struct Instance {
    perm: Poseidon2,
    config: FriConfig,
    transcript: DuplexChallenger,
    proof: FriProofVariable,
    rounds: Vec<TwoAdicPcsRoundVariable>,
    indices: Vec<usize>,
}

/// Two committed matrices (four rows of two columns, two rows of one
/// column), opened at one point each, and an honest proof for them.
fn honest(degree_excess: bool) -> Instance {
    honest_with(degree_excess, 17)
}

fn honest_with(degree_excess: bool, salt: u32) -> Instance {
    let (perm, theirs) = permutations();
    let mmcs = Tree::new(Sponge::new(theirs.clone()), Compress::new(theirs));
    let config = FriConfig { log_blowup: 1, num_queries: 5, proof_of_work_bits: 2 };

    let mut poly_a0 = vec![5, 7, 11, 13];
    if degree_excess {
        poly_a0.push(1);
        poly_a0.push(2);
    }
    let poly_a1 = vec![salt, 19, 23, 29];
    let poly_b = vec![31, 37];
    let point_a = Ext { c0: 1001, c1: 1002, c2: 1003, c3: 1004 };
    let point_b = Ext { c0: 2001, c1: 0, c2: 2003, c3: 0 };

    let w8 = two_adic_generator(3);
    let w4 = two_adic_generator(2);
    let xs_a: Vec<u32> = (0..8).map(|i| mul_felt(3, pow(w8, reverse_bits(i, 3) as u32))).collect();
    let xs_b: Vec<u32> = (0..4).map(|i| mul_felt(3, pow(w4, reverse_bits(i, 2) as u32))).collect();
    let rows_a: Vec<[u32; 2]> =
        xs_a.iter().map(|x| [eval_base(&poly_a0, *x), eval_base(&poly_a1, *x)]).collect();
    let rows_b: Vec<u32> = xs_b.iter().map(|x| eval_base(&poly_b, *x)).collect();

    let mat_a = RowMajorMatrix::new(rows_a.iter().flatten().map(|x| kb(*x)).collect(), 2);
    let mat_b = RowMajorMatrix::new(rows_b.iter().map(|x| kb(*x)).collect(), 1);
    let (input_commit, input_data) = mmcs.commit(vec![mat_a, mat_b]);
    let input_commit: [KoalaBear; 8] = input_commit.into();
    let input_commit = digest_of(input_commit);

    let values_a = vec![eval_ext(&poly_a0, point_a), eval_ext(&poly_a1, point_a)];
    let values_b = vec![eval_ext(&poly_b, point_b)];
    let rounds = vec![TwoAdicPcsRoundVariable {
        batch_commit: input_commit,
        domains_points_and_opens: vec![
            TwoAdicPcsMatsVariable {
                domain: TwoAdicMultiplicativeCoset { log_n: 2, shift: 1 },
                points: vec![point_a],
                values: vec![values_a.clone()],
            },
            TwoAdicPcsMatsVariable {
                domain: TwoAdicMultiplicativeCoset { log_n: 1, shift: 1 },
                points: vec![point_b],
                values: vec![values_b.clone()],
            },
        ],
    }];

    let mut transcript = DuplexChallenger::new();
    transcript.observe_digest(&perm, &input_commit);
    let start = copy_of(&transcript);

    let alpha = transcript.sample_ext(&perm);
    let reduced_a: Vec<Ext> = (0..8)
        .map(|i| {
            let d0 = sub_base(values_a[0], rows_a[i][0]);
            let d1 = sub_base(values_a[1], rows_a[i][1]);
            let acc = add_ext(mul_ext(ONE, d0), mul_ext(alpha, d1));
            mul_ext(acc, try_inverse_ext(sub_base(point_a, xs_a[i])).unwrap())
        })
        .collect();
    let reduced_b: Vec<Ext> = (0..4)
        .map(|i| {
            let acc = mul_ext(ONE, sub_base(values_b[0], rows_b[i]));
            mul_ext(acc, try_inverse_ext(sub_base(point_b, xs_b[i])).unwrap())
        })
        .collect();

    let layer0 = reduced_a.clone();
    let mat0 = RowMajorMatrix::new(
        (0..4).flat_map(|k| flatten(layer0[2 * k], layer0[2 * k + 1])).collect(),
        8,
    );
    let (commit0, data0) = mmcs.commit(vec![mat0]);
    let commit0: [KoalaBear; 8] = commit0.into();
    let commit0 = digest_of(commit0);
    transcript.observe_digest(&perm, &commit0);
    let beta0 = transcript.sample_ext(&perm);
    let layer1: Vec<Ext> = (0..4)
        .map(|k| {
            let x0 = pow(w8, reverse_bits(2 * k, 3) as u32);
            add_ext(fold_pair(layer0[2 * k], layer0[2 * k + 1], x0, beta0), reduced_b[k])
        })
        .collect();
    let mat1 = RowMajorMatrix::new(
        (0..2).flat_map(|k| flatten(layer1[2 * k], layer1[2 * k + 1])).collect(),
        8,
    );
    let (commit1, data1) = mmcs.commit(vec![mat1]);
    let commit1: [KoalaBear; 8] = commit1.into();
    let commit1 = digest_of(commit1);
    transcript.observe_digest(&perm, &commit1);
    let beta1 = transcript.sample_ext(&perm);
    let layer2: Vec<Ext> = (0..2)
        .map(|k| {
            let x0 = pow(w4, reverse_bits(2 * k, 2) as u32);
            fold_pair(layer1[2 * k], layer1[2 * k + 1], x0, beta1)
        })
        .collect();
    if !degree_excess {
        assert_eq!(layer2[0], layer2[1]);
    }
    let final_poly = layer2[0];

    let mut pow_witness = 0;
    loop {
        let mut trial = copy_of(&transcript);
        if trial.check_witness(&perm, config.proof_of_work_bits, pow_witness) {
            break;
        }
        pow_witness += 1;
    }
    assert!(transcript.check_witness(&perm, config.proof_of_work_bits, pow_witness));

    let mut indices = Vec::new();
    let mut query_proofs = Vec::new();
    for _ in 0..config.num_queries {
        let index = index_of(&transcript.sample_bits(&perm, LOG_MAX_HEIGHT));
        indices.push(index);
        let (opened, path) = mmcs.open_batch(index, &input_data);
        let input_proof = vec![BatchOpeningVariable {
            opened_values: opened
                .iter()
                .map(|row| row.iter().map(|x| x.as_canonical_u32()).collect())
                .collect(),
            opening_proof: path.iter().map(|d| digest_of(*d)).collect(),
        }];
        let (_, path0) = mmcs.open_batch(index >> 1, &data0);
        let (_, path1) = mmcs.open_batch(index >> 2, &data1);
        let commit_phase_openings = vec![
            FriCommitPhaseProofStepVariable {
                sibling_value: layer0[index ^ 1],
                opening_proof: path0.iter().map(|d| digest_of(*d)).collect(),
            },
            FriCommitPhaseProofStepVariable {
                sibling_value: layer1[(index >> 1) ^ 1],
                opening_proof: path1.iter().map(|d| digest_of(*d)).collect(),
            },
        ];
        query_proofs.push(FriQueryProofVariable { input_proof, commit_phase_openings });
    }

    let proof = FriProofVariable {
        commit_phase_commits: vec![commit0, commit1],
        query_proofs,
        final_poly,
        pow_witness,
    };
    Instance { perm, config, transcript: start, proof, rounds, indices }
}

fn verdict(instance: &Instance) -> Result<(), FriError> {
    let mut transcript = copy_of(&instance.transcript);
    verify_two_adic_pcs(
        &instance.perm,
        &instance.config,
        &instance.proof,
        &mut transcript,
        &instance.rounds,
    )
}

fn bump(x: &mut u32) {
    *x = (*x + 1) % P;
}

#[test]
fn honest_proof_is_accepted() {
    let instance = honest(false);
    assert!(verify_shape(&instance.config, &instance.proof));
    assert!(verify_pcs_shape(&instance.config, &instance.proof, &instance.rounds));
    assert_eq!(verdict(&instance), Ok(()));
}

#[test]
fn polynomial_of_too_high_degree_is_rejected() {
    let mut caught = 0;
    for salt in 0..12 {
        let instance = honest_with(true, salt);
        assert!(verify_pcs_shape(&instance.config, &instance.proof, &instance.rounds));
        if instance.indices.iter().any(|i| i >> 2 == 1) {
            assert_eq!(verdict(&instance), Err(FriError::Rejected));
            caught += 1;
        } else {
            assert_eq!(verdict(&instance), Ok(()));
        }
        assert_eq!(verdict(&honest_with(false, salt)), Ok(()));
    }
    assert!(caught >= 6);
}

#[test]
fn changed_final_value_is_rejected() {
    for k in 0..4 {
        let mut instance = honest(false);
        let f = &mut instance.proof.final_poly;
        bump([&mut f.c0, &mut f.c1, &mut f.c2, &mut f.c3][k]);
        assert_eq!(verdict(&instance), Err(FriError::Rejected));
    }
}

#[test]
fn changed_sibling_value_is_rejected() {
    for q in 0..5 {
        for round in 0..2 {
            let mut instance = honest(false);
            bump(&mut instance.proof.query_proofs[q].commit_phase_openings[round].sibling_value.c2);
            assert_eq!(verdict(&instance), Err(FriError::Rejected));
        }
    }
}

#[test]
fn changed_path_entry_is_rejected() {
    for q in 0..5 {
        let mut instance = honest(false);
        bump(&mut instance.proof.query_proofs[q].commit_phase_openings[0].opening_proof[1][5]);
        assert_eq!(verdict(&instance), Err(FriError::Rejected));
        let mut instance = honest(false);
        bump(&mut instance.proof.query_proofs[q].commit_phase_openings[1].opening_proof[0][0]);
        assert_eq!(verdict(&instance), Err(FriError::Rejected));
        let mut instance = honest(false);
        bump(&mut instance.proof.query_proofs[q].input_proof[0].opening_proof[2][7]);
        assert_eq!(verdict(&instance), Err(FriError::Rejected));
    }
}

#[test]
fn changed_opened_or_claimed_value_is_rejected() {
    let mut instance = honest(false);
    bump(&mut instance.proof.query_proofs[3].input_proof[0].opened_values[0][1]);
    assert_eq!(verdict(&instance), Err(FriError::Rejected));
    let mut instance = honest(false);
    bump(&mut instance.proof.query_proofs[0].input_proof[0].opened_values[1][0]);
    assert_eq!(verdict(&instance), Err(FriError::Rejected));
    let mut instance = honest(false);
    bump(&mut instance.rounds[0].domains_points_and_opens[0].values[0][1].c3);
    assert_eq!(verdict(&instance), Err(FriError::Rejected));
    let mut instance = honest(false);
    bump(&mut instance.rounds[0].domains_points_and_opens[1].points[0].c0);
    assert_eq!(verdict(&instance), Err(FriError::Rejected));
    let mut instance = honest(false);
    bump(&mut instance.rounds[0].batch_commit[0]);
    assert_eq!(verdict(&instance), Err(FriError::Rejected));
    let mut instance = honest(false);
    bump(&mut instance.proof.commit_phase_commits[1][4]);
    assert_eq!(verdict(&instance), Err(FriError::Rejected));
}

#[test]
fn wrong_proof_of_work_is_rejected() {
    let good = honest(false);
    let mut rejected = 0;
    for w in 0..16 {
        let mut instance = honest(false);
        instance.proof.pow_witness = w;
        let outcome = verdict(&instance);
        if w == good.proof.pow_witness {
            assert_eq!(outcome, Ok(()));
        } else {
            assert_eq!(outcome, Err(FriError::Rejected));
            rejected += 1;
        }
    }
    assert!(rejected >= 15);
}

#[test]
fn point_inside_a_domain_is_rejected() {
    let mut instance = honest(false);
    let index = instance.indices[0];
    let x = mul_felt(3, pow(two_adic_generator(3), reverse_bits(index, 3) as u32));
    instance.rounds[0].domains_points_and_opens[0].points[0] = Ext { c0: x, c1: 0, c2: 0, c3: 0 };
    assert!(verify_pcs_shape(&instance.config, &instance.proof, &instance.rounds));
    assert_eq!(verdict(&instance), Err(FriError::Rejected));
}

fn assert_refused_untouched(instance: &Instance) {
    let mut transcript = copy_of(&instance.transcript);
    let outcome = verify_two_adic_pcs(
        &instance.perm,
        &instance.config,
        &instance.proof,
        &mut transcript,
        &instance.rounds,
    );
    assert_eq!(outcome, Err(FriError::InvalidProofShape));
    assert_eq!(transcript.sponge_state, instance.transcript.sponge_state);
    assert_eq!(transcript.input_buffer, instance.transcript.input_buffer);
    assert_eq!(transcript.output_buffer, instance.transcript.output_buffer);
}

#[test]
fn query_that_opens_too_few_rounds_is_refused_for_its_shape() {
    for q in 0..5 {
        let mut instance = honest(false);
        instance.proof.query_proofs[q].commit_phase_openings.pop();
        assert!(!verify_shape(&instance.config, &instance.proof));
        assert_refused_untouched(&instance);

        let mut transcript = copy_of(&instance.transcript);
        let drawn = verify_shape_and_sample_challenges(
            &instance.perm,
            &instance.config,
            &instance.proof,
            &mut transcript,
        );
        assert!(matches!(drawn, Err(FriError::InvalidProofShape)));
        assert_eq!(transcript.sponge_state, instance.transcript.sponge_state);
        assert_eq!(transcript.input_buffer, instance.transcript.input_buffer);
    }
    let mut instance = honest(false);
    let extra = FriCommitPhaseProofStepVariable { sibling_value: ZERO, opening_proof: vec![] };
    instance.proof.query_proofs[2].commit_phase_openings.push(extra);
    assert_refused_untouched(&instance);
}

#[test]
fn other_shapes_are_refused_too() {
    let mut instance = honest(false);
    instance.proof.query_proofs.pop();
    assert_refused_untouched(&instance);

    let mut instance = honest(false);
    instance.config.num_queries = 6;
    assert_refused_untouched(&instance);

    let mut instance = honest(false);
    instance.config.log_blowup = 23;
    assert_refused_untouched(&instance);

    let mut instance = honest(false);
    instance.config.proof_of_work_bits = 32;
    assert_refused_untouched(&instance);

    let mut instance = honest(false);
    instance.proof.query_proofs[1].commit_phase_openings[0].opening_proof.pop();
    assert_refused_untouched(&instance);

    let mut instance = honest(false);
    instance.proof.final_poly.c1 = P;
    assert_refused_untouched(&instance);

    let mut instance = honest(false);
    instance.proof.query_proofs[4].input_proof[0].opened_values[0].pop();
    assert!(verify_shape(&instance.config, &instance.proof));
    assert!(!verify_pcs_shape(&instance.config, &instance.proof, &instance.rounds));
    assert_refused_untouched(&instance);

    let mut instance = honest(false);
    instance.proof.query_proofs[4].input_proof[0].opened_values.pop();
    assert_refused_untouched(&instance);

    let mut instance = honest(false);
    instance.proof.query_proofs[0].input_proof.clear();
    assert_refused_untouched(&instance);

    let mut instance = honest(false);
    instance.rounds[0].domains_points_and_opens[1].values.clear();
    assert_refused_untouched(&instance);

    let mut instance = honest(false);
    instance.rounds[0].domains_points_and_opens[0].domain.log_n = 3;
    assert_refused_untouched(&instance);

    let mut instance = honest(false);
    instance.proof.query_proofs[0].input_proof[0].opening_proof.pop();
    assert_refused_untouched(&instance);

    let mut instance = honest(false);
    instance.proof.query_proofs[0].input_proof[0].opened_values[1][0] = P;
    assert_refused_untouched(&instance);
}

#[test]
fn challenges_are_drawn_in_the_order_of_the_protocol() {
    let instance = honest(false);
    let perm = &instance.perm;
    let mut transcript = copy_of(&instance.transcript);
    let _alpha = transcript.sample_ext(perm);
    let mut by_hand = copy_of(&transcript);
    let challenges = verify_shape_and_sample_challenges(
        perm,
        &instance.config,
        &instance.proof,
        &mut transcript,
    )
    .ok()
    .unwrap();

    let mut betas = Vec::new();
    for commit in &instance.proof.commit_phase_commits {
        by_hand.observe_digest(perm, commit);
        betas.push(by_hand.sample_ext(perm));
    }
    assert_eq!(challenges.betas, betas);
    assert_eq!(
        challenges.betas_squared,
        betas.iter().map(|b| mul_ext(*b, *b)).collect::<Vec<_>>()
    );
    assert!(by_hand.check_witness(perm, 2, instance.proof.pow_witness));
    for q in 0..5 {
        let bits = by_hand.sample_bits(perm, 3);
        assert_eq!(challenges.query_indices[q], bits);
        assert_eq!(index_of(&bits), instance.indices[q]);
    }
    assert_eq!(transcript.sponge_state, by_hand.sponge_state);
    assert_eq!(transcript.output_buffer, by_hand.output_buffer);
}

#[test]
fn queries_fold_down_to_the_final_value() {
    let instance = honest(false);
    let perm = &instance.perm;
    let mut transcript = copy_of(&instance.transcript);
    let alpha = transcript.sample_ext(perm);
    let challenges = verify_shape_and_sample_challenges(
        perm,
        &instance.config,
        &instance.proof,
        &mut transcript,
    )
    .ok()
    .unwrap();
    let mut all = Vec::new();
    for q in 0..5 {
        let reduced = open_input(
            perm,
            alpha,
            &challenges.query_indices[q],
            1,
            &instance.rounds,
            &instance.proof.query_proofs[q].input_proof,
        )
        .unwrap();
        assert_eq!(reduced.len(), 4);
        assert_eq!(reduced[0], ZERO);
        assert_eq!(reduced[1], ZERO);
        assert_ne!(reduced[2], ZERO);
        assert_ne!(reduced[3], ZERO);
        let folded = verify_query(
            perm,
            &instance.proof.commit_phase_commits,
            &challenges.query_indices[q],
            &instance.proof.query_proofs[q].commit_phase_openings,
            &challenges.betas,
            &reduced,
            3,
        );
        assert_eq!(folded, Some(instance.proof.final_poly));
        all.push(reduced);
    }
    assert_eq!(
        verify_challenges(perm, &instance.config, &instance.proof, &challenges, &all),
        Ok(())
    );
    all[2][3] = add_ext(all[2][3], ONE);
    assert_eq!(
        verify_challenges(perm, &instance.config, &instance.proof, &challenges, &all),
        Err(FriError::Rejected)
    );
}

#[test]
fn power_with_reversed_bits() {
    let g = two_adic_generator(3);
    assert_eq!(exp_reverse_bits(g, &[]), 1);
    assert_eq!(exp_reverse_bits(g, &[true]), g);
    assert_eq!(exp_reverse_bits(g, &[true, false, false]), pow(g, 4));
    assert_eq!(exp_reverse_bits(g, &[false, false, true]), g);
    assert_eq!(exp_reverse_bits(g, &[true, true, false]), pow(g, 6));
    for i in 0..8usize {
        let bits: Vec<bool> = (0..3).map(|b| (i >> b) & 1 == 1).collect();
        assert_eq!(exp_reverse_bits(g, &bits), pow(g, reverse_bits(i, 3) as u32));
    }
}
