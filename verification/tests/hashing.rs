use p3_challenger::{CanObserve, CanSample, CanSampleBits, DuplexChallenger as P3Challenger, GrindingChallenger};
use p3_commit::Mmcs;
use p3_field::{AbstractField, Field, PrimeField32};
use p3_koala_bear::{DiffusionMatrixKoalaBear, KoalaBear};
use p3_matrix::dense::RowMajorMatrix;
use p3_merkle_tree::FieldMerkleTreeMmcs;
use p3_poseidon2::{Poseidon2 as P3Poseidon2, Poseidon2ExternalMatrixGeneral};
use p3_symmetric::{CryptographicHasher, PaddingFreeSponge, Permutation as P3Permutation, PseudoCompressionFunction, TruncatedPermutation};
use recursion_verifier::challenger::{no_bit_set, num2bits, DuplexChallenger};
use recursion_verifier::field::P;
use recursion_verifier::hash::{compress, hash, Permutation, Poseidon2};
use recursion_verifier::merkle_tree::{same_digest, verify_batch};

type Perm = P3Poseidon2<KoalaBear, Poseidon2ExternalMatrixGeneral, DiffusionMatrixKoalaBear, 16, 3>;
type Sponge = PaddingFreeSponge<Perm, 16, 8, 8>;
type Compress = TruncatedPermutation<Perm, 2, 8, 16>;
type Tree = FieldMerkleTreeMmcs<<KoalaBear as Field>::Packing, <KoalaBear as Field>::Packing, Sponge, Compress, 8>;

fn kb(x: u32) -> KoalaBear {
    KoalaBear::from_canonical_u32(x)
}

fn stream(seed: u64, n: usize) -> Vec<u32> {
    let mut x = seed;
    let mut out = Vec::new();
    for _ in 0..n {
        x = (x * 6364136223846793005 + 1442695040888963407) % (1 << 63);
        out.push((x >> 20) as u32 % P);
    }
    out
}

fn permutations() -> (Poseidon2, Perm) {
    let ext = stream(1, 8 * 16);
    let int = stream(2, 20);
    let mut rows: Vec<[u32; 16]> = Vec::new();
    for r in 0..8 {
        let mut row = [0u32; 16];
        row.copy_from_slice(&ext[r * 16..(r + 1) * 16]);
        rows.push(row);
    }
    let ours = Poseidon2 { external_constants: rows.clone(), internal_constants: int.clone() };
    let theirs = Perm::new(
        8,
        rows.iter().map(|r| r.map(kb)).collect(),
        Poseidon2ExternalMatrixGeneral,
        20,
        int.iter().map(|x| kb(*x)).collect(),
        DiffusionMatrixKoalaBear::default(),
    );
    (ours, theirs)
}

fn digest_of(d: [KoalaBear; 8]) -> [u32; 8] {
    d.map(|x| x.as_canonical_u32())
}

#[test]
fn permutation_is_poseidon2_with_the_given_constants() {
    let (ours, theirs) = permutations();
    for seed in 10..15 {
        let s = stream(seed, 16);
        let mut state = [0u32; 16];
        state.copy_from_slice(&s);
        let out = ours.permute(&state);
        assert_ne!(out, state);
        assert_eq!(out, theirs.permute(state.map(kb)).map(|x| x.as_canonical_u32()));
        assert!(out.iter().all(|x| *x < P));
    }
    let other = Poseidon2 { external_constants: ours.external_constants.clone(), internal_constants: stream(3, 20) };
    let state = [7u32; 16];
    assert_ne!(ours.permute(&state), other.permute(&state));
}

#[test]
fn hash_is_the_padding_free_sponge() {
    let (ours, theirs) = permutations();
    let sponge = Sponge::new(theirs);
    for n in [0usize, 1, 7, 8, 9, 15, 16, 17, 27, 64] {
        let input = stream(100 + n as u64, n);
        let expected = digest_of(sponge.hash_iter(input.iter().map(|x| kb(*x))));
        assert_eq!(hash(&ours, &input), expected, "input of {} elements", n);
    }
    assert_eq!(hash(&ours, &vec![]), [0u32; 8]);
    assert_ne!(hash(&ours, &vec![1, 2]), hash(&ours, &vec![2, 1]));
    assert_eq!(hash(&ours, &vec![1]), hash(&ours, &vec![1, 0]));
    assert_ne!(hash(&ours, &vec![1]), hash(&ours, &vec![1, 0, 0, 0, 0, 0, 0, 0, 0]));
}

#[test]
fn compress_is_the_truncated_permutation() {
    let (ours, theirs) = permutations();
    let compressor = Compress::new(theirs);
    let a = stream(5, 8);
    let b = stream(6, 8);
    let mut left = [0u32; 8];
    let mut right = [0u32; 8];
    left.copy_from_slice(&a);
    right.copy_from_slice(&b);
    let expected = digest_of(compressor.compress([left.map(kb), right.map(kb)]));
    assert_eq!(compress(&ours, &left, &right), expected);
    assert_ne!(compress(&ours, &left, &right), compress(&ours, &right, &left));
}

#[test]
fn transcript_is_the_duplex_challenger() {
    let (ours, theirs) = permutations();
    let mut mine = DuplexChallenger::new();
    let mut reference = P3Challenger::<KoalaBear, Perm, 16, 8>::new(theirs);
    let values = stream(42, 40);
    let mut next = 0;
    for step in 0..60 {
        match step % 5 {
            0 | 1 | 3 => {
                let v = values[next % values.len()];
                next += 1;
                mine.observe(&ours, v);
                reference.observe(kb(v));
            }
            2 => {
                let a = mine.sample(&ours);
                let b: KoalaBear = reference.sample();
                assert_eq!(a, b.as_canonical_u32());
            }
            _ => {
                let bits = mine.sample_bits(&ours, 10);
                let index = reference.sample_bits(10);
                assert_eq!(bits.len(), 10);
                let value: usize = bits.iter().enumerate().map(|(i, b)| (*b as usize) << i).sum();
                assert_eq!(value, index);
            }
        }
    }
    mine.observe_slice(&ours, &values[..19]);
    reference.observe_slice(&values[..19].iter().map(|x| kb(*x)).collect::<Vec<_>>());
    let digest = [1u32, 2, 3, 4, 5, 6, 7, 8];
    mine.observe_digest(&ours, &digest);
    reference.observe_slice(&digest.map(kb));
    let e = mine.sample_ext(&ours);
    let c0: KoalaBear = reference.sample();
    let c1: KoalaBear = reference.sample();
    let c2: KoalaBear = reference.sample();
    let c3: KoalaBear = reference.sample();
    assert_eq!(
        [e.c0, e.c1, e.c2, e.c3],
        [c0, c1, c2, c3].map(|x| x.as_canonical_u32())
    );
}

#[test]
fn proof_of_work_is_checked_as_by_the_duplex_challenger() {
    let (ours, theirs) = permutations();
    let mut accepted = 0;
    for witness in 0..64u32 {
        let mut mine = DuplexChallenger::new();
        let mut reference = P3Challenger::<KoalaBear, Perm, 16, 8>::new(theirs.clone());
        mine.observe(&ours, 99);
        reference.observe(kb(99));
        let a = mine.check_witness(&ours, 3, witness);
        let b = reference.check_witness(3, kb(witness));
        assert_eq!(a, b);
        if a {
            accepted += 1;
        }
        assert_eq!(mine.sample(&ours), CanSample::<KoalaBear>::sample(&mut reference).as_canonical_u32());
    }
    assert!(accepted > 0 && accepted < 64);
    let mut mine = DuplexChallenger::new();
    assert!(mine.check_witness(&ours, 0, 5));
}

#[test]
fn bits_are_taken_lowest_first() {
    assert_eq!(num2bits(0b1011, 4), vec![true, true, false, true]);
    assert_eq!(num2bits(0b1011, 2), vec![true, true]);
    assert_eq!(num2bits(0b1011, 0), Vec::<bool>::new());
    assert_eq!(num2bits(6, 5), vec![false, true, true, false, false]);
    let full = num2bits(P - 1, 31);
    assert_eq!(full.len(), 31);
    let value: u64 = full.iter().enumerate().map(|(i, b)| (*b as u64) << i).sum();
    assert_eq!(value, (P - 1) as u64);
    let wide = num2bits(0x1234_5678, 9);
    let narrow = num2bits(0x1234_5678, 8);
    assert_eq!(&wide[..8], &narrow[..]);
    assert!(no_bit_set(&vec![false, false]));
    assert!(no_bit_set(&vec![]));
    assert!(!no_bit_set(&vec![false, true]));
}

fn commit_and_check(heights: &[usize], widths: &[usize]) {
    let (ours, theirs) = permutations();
    let mmcs = Tree::new(Sponge::new(theirs.clone()), Compress::new(theirs));
    let mats: Vec<RowMajorMatrix<KoalaBear>> = heights
        .iter()
        .zip(widths)
        .enumerate()
        .map(|(i, (h, w))| {
            RowMajorMatrix::new(stream(7 + i as u64, h * w).into_iter().map(kb).collect(), *w)
        })
        .collect();
    let max_height = *heights.iter().max().unwrap();
    let depth = max_height.trailing_zeros() as usize;
    let log_heights: Vec<usize> = heights.iter().map(|h| h.trailing_zeros() as usize).collect();
    let (commit, data) = mmcs.commit(mats);
    let commit: [KoalaBear; 8] = commit.into();
    let commit = digest_of(commit);
    for index in 0..max_height {
        let (opened, proof) = mmcs.open_batch(index, &data);
        let opened: Vec<Vec<u32>> =
            opened.iter().map(|row| row.iter().map(|x| x.as_canonical_u32()).collect()).collect();
        let proof: Vec<[u32; 8]> = proof.iter().map(|d| digest_of(*d)).collect();
        assert_eq!(proof.len(), depth);
        let bits = num2bits(index as u32, depth);
        assert!(verify_batch(&ours, &commit, &log_heights, &bits, &opened, &proof));

        let mut wrong_value = opened.clone();
        wrong_value[0][0] = (wrong_value[0][0] + 1) % P;
        assert!(!verify_batch(&ours, &commit, &log_heights, &bits, &wrong_value, &proof));
        let last = opened.len() - 1;
        let mut wrong_tail = opened.clone();
        let w = wrong_tail[last].len() - 1;
        wrong_tail[last][w] = (wrong_tail[last][w] + 1) % P;
        assert!(!verify_batch(&ours, &commit, &log_heights, &bits, &wrong_tail, &proof));
        if depth > 0 {
            for level in 0..depth {
                let mut wrong_path = proof.clone();
                wrong_path[level][3] = (wrong_path[level][3] + 1) % P;
                assert!(!verify_batch(&ours, &commit, &log_heights, &bits, &opened, &wrong_path));
            }
            let mut wrong_bits = bits.clone();
            wrong_bits[0] = !wrong_bits[0];
            assert!(!verify_batch(&ours, &commit, &log_heights, &wrong_bits, &opened, &proof));
        }
        let mut wrong_commit = commit;
        wrong_commit[7] = (wrong_commit[7] + 1) % P;
        assert!(!verify_batch(&ours, &wrong_commit, &log_heights, &bits, &opened, &proof));
    }
}

#[test]
fn openings_of_one_matrix_lead_to_its_commitment() {
    commit_and_check(&[8], &[3]);
    commit_and_check(&[1], &[5]);
    commit_and_check(&[16], &[9]);
}

#[test]
fn openings_of_matrices_of_several_heights_lead_to_their_commitment() {
    commit_and_check(&[8, 8, 4], &[2, 3, 1]);
    commit_and_check(&[2, 16, 4, 16, 1], &[1, 2, 3, 4, 5]);
    commit_and_check(&[4, 1], &[10, 17]);
}

#[test]
fn digests_are_compared_element_by_element() {
    let a = [1u32, 2, 3, 4, 5, 6, 7, 8];
    let mut b = a;
    assert!(same_digest(&a, &b));
    b[7] = 9;
    assert!(!same_digest(&a, &b));
}

#[test]
fn round_constants_and_transcripts_are_checked_for_canonical_form() {
    let (ours, _) = permutations();
    assert!(ours.is_wf());
    let mut bad = Poseidon2 {
        external_constants: ours.external_constants.clone(),
        internal_constants: ours.internal_constants.clone(),
    };
    bad.external_constants[3][15] = P;
    assert!(!bad.is_wf());
    bad.external_constants[3][15] = 0;
    assert!(bad.is_wf());
    bad.internal_constants[0] = u32::MAX;
    assert!(!bad.is_wf());

    let mut transcript = DuplexChallenger::new();
    assert!(transcript.is_wf());
    transcript.observe(&ours, 5);
    assert!(transcript.is_wf());
    transcript.sample(&ours);
    assert!(transcript.is_wf());
    assert_eq!(transcript.output_buffer.len(), 15);
    transcript.sponge_state[0] = P;
    assert!(!transcript.is_wf());
    transcript.sponge_state[0] = 0;
    transcript.input_buffer = vec![0; 8];
    assert!(!transcript.is_wf());
}
