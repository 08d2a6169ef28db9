use recursion_verifier::challenger::DuplexChallenger;
use recursion_verifier::field::{two_adic_generator, P};
use recursion_verifier::hash::{hash, Poseidon2};
use recursion_verifier::types::{
    ChipOrdering, Dimensions, SepticCurve, SepticDigest, SepticExtension, StructuralError,
    TwoAdicMultiplicativeCoset, VerifyingKeyVariable,
};

fn stream(seed: u64, n: usize) -> Vec<u32> {
    let mut x = seed;
    let mut out = Vec::new();
    for _ in 0..n {
        x = (x * 6364136223846793005 + 1442695040888963407) % (1 << 63);
        out.push((x >> 20) as u32 % P);
    }
    out
}

fn permutation() -> Poseidon2 {
    let ext = stream(1, 8 * 16);
    let mut rows: Vec<[u32; 16]> = Vec::new();
    for r in 0..8 {
        let mut row = [0u32; 16];
        row.copy_from_slice(&ext[r * 16..(r + 1) * 16]);
        rows.push(row);
    }
    Poseidon2 { external_constants: rows, internal_constants: stream(2, 20) }
}

fn ordering(entries: &[(&str, usize)]) -> ChipOrdering {
    let mut table = ChipOrdering::new();
    for (name, index) in entries {
        table.insert(name.to_string(), *index);
    }
    table
}

fn chip(name: &str, log_n: usize, shift: u32) -> (String, TwoAdicMultiplicativeCoset, Dimensions) {
    (
        name.to_string(),
        TwoAdicMultiplicativeCoset { log_n, shift },
        Dimensions { width: 4, height: 1 << log_n },
    )
}

fn key(
    chips: Vec<(String, TwoAdicMultiplicativeCoset, Dimensions)>,
    table: ChipOrdering,
) -> VerifyingKeyVariable {
    VerifyingKeyVariable {
        commitment: [11, 12, 13, 14, 15, 16, 17, 18],
        pc_start: 0x0040_0000,
        initial_global_cumulative_sum: SepticDigest(SepticCurve {
            x: SepticExtension([21, 22, 23, 24, 25, 26, 27]),
            y: SepticExtension([31, 32, 33, 34, 35, 36, 37]),
        }),
        chip_information: chips,
        chip_ordering: table,
    }
}

fn head() -> Vec<u32> {
    vec![
        11, 12, 13, 14, 15, 16, 17, 18, 0x0040_0000, 21, 22, 23, 24, 25, 26, 27, 31, 32, 33, 34,
        35, 36, 37,
    ]
}

#[test]
fn digest_depends_on_the_order_of_the_chips_and_not_on_the_table() {
    let perm = permutation();
    let g = 3;
    let vk = key(
        vec![chip("cpu", 10, g), chip("memory", 8, g)],
        ordering(&[("cpu", 0), ("memory", 1)]),
    );
    assert_eq!(vk.validate(), Ok(()));
    let digest = vk.hash(&perm);

    let swapped_table = key(
        vec![chip("cpu", 10, g), chip("memory", 8, g)],
        ordering(&[("cpu", 1), ("memory", 0)]),
    );
    assert_eq!(swapped_table.validate(), Ok(()));
    assert_eq!(swapped_table.hash(&perm), digest);

    let swapped_chips = key(
        vec![chip("memory", 8, g), chip("cpu", 10, g)],
        ordering(&[("cpu", 0), ("memory", 1)]),
    );
    assert_eq!(swapped_chips.validate(), Ok(()));
    assert_ne!(swapped_chips.hash(&perm), digest);
}

#[test]
fn digest_is_the_hash_of_the_key_and_its_domains() {
    let perm = permutation();
    let vk = key(
        vec![chip("cpu", 10, 3), chip("memory", 8, 5)],
        ordering(&[("cpu", 0), ("memory", 1)]),
    );
    let mut inputs = head();
    inputs.extend([10, 1024, 3, 0x334d48c7, 8, 256, 5, 0x17668b8a]);
    assert_eq!(two_adic_generator(10), 0x334d48c7);
    assert_eq!(two_adic_generator(8), 0x17668b8a);
    assert_eq!(vk.hash(&perm), hash(&perm, &inputs));
    assert_ne!(vk.hash(&perm), hash(&perm, &head()));
}

#[test]
fn digest_is_the_same_every_time() {
    let perm = permutation();
    let vk = key(vec![chip("cpu", 3, 3)], ordering(&[("cpu", 0)]));
    let first = vk.hash(&perm);
    assert_eq!(vk.hash(&perm), first);
    let again = key(vec![chip("other name", 3, 3)], ordering(&[("other name", 0)]));
    assert_eq!(again.hash(&perm), first);
}

#[test]
fn domain_of_one_point_gives_all_four_elements() {
    let perm = permutation();
    let vk = key(vec![chip("tiny", 0, 9)], ordering(&[("tiny", 0)]));
    assert_eq!(vk.validate(), Ok(()));
    let mut inputs = head();
    inputs.extend([0, 1, 9, 1]);
    assert_eq!(vk.hash(&perm), hash(&perm, &inputs));
}

#[test]
fn key_without_chips_is_hashed_from_its_own_elements() {
    let perm = permutation();
    let vk = key(vec![], ordering(&[]));
    assert_eq!(vk.validate(), Ok(()));
    assert_eq!(vk.hash(&perm), hash(&perm, &head()));
}

#[test]
fn largest_domain_is_hashed() {
    let perm = permutation();
    let vk = key(vec![chip("big", 24, 3)], ordering(&[("big", 0)]));
    assert_eq!(vk.validate(), Ok(()));
    let mut inputs = head();
    inputs.extend([24, 1 << 24, 3, 0x6ac49f88]);
    assert_eq!(vk.hash(&perm), hash(&perm, &inputs));
    assert_eq!(TwoAdicMultiplicativeCoset { log_n: 24, shift: 3 }.size(), 1 << 24);
    assert_eq!(TwoAdicMultiplicativeCoset { log_n: 0, shift: 3 }.size(), 1);
}

#[test]
fn key_is_observed_in_a_fixed_order_with_one_zero_at_the_end() {
    let perm = permutation();
    let vk = key(vec![chip("cpu", 10, 3)], ordering(&[("cpu", 0)]));
    let mut by_key = DuplexChallenger::new();
    vk.observe_into(&perm, &mut by_key);

    let mut by_hand = DuplexChallenger::new();
    let mut elements = head();
    elements.push(0);
    for e in &elements {
        by_hand.observe(&perm, *e);
    }
    assert_eq!(by_key.sponge_state, by_hand.sponge_state);
    assert_eq!(by_key.input_buffer, by_hand.input_buffer);
    assert_eq!(by_key.output_buffer, by_hand.output_buffer);
    assert_eq!(by_key.input_buffer.len(), 0);
    assert_eq!(by_key.sample(&perm), by_hand.sample(&perm));

    let mut without_pad = DuplexChallenger::new();
    for e in &head() {
        without_pad.observe(&perm, *e);
    }
    let mut with_pad = DuplexChallenger::new();
    vk.observe_into(&perm, &mut with_pad);
    assert_ne!(with_pad.sample(&perm), without_pad.sample(&perm));

    let mut reordered = DuplexChallenger::new();
    let mut other = head();
    other.swap(0, 8);
    other.push(0);
    for e in &other {
        reordered.observe(&perm, *e);
    }
    let mut fresh = DuplexChallenger::new();
    vk.observe_into(&perm, &mut fresh);
    assert_ne!(fresh.sample(&perm), reordered.sample(&perm));
}

#[test]
fn elements_that_are_not_canonical_are_refused() {
    let mut vk = key(vec![chip("cpu", 10, 3)], ordering(&[("cpu", 0)]));
    vk.pc_start = P;
    assert_eq!(vk.validate(), Err(StructuralError::NonCanonicalElement));
    let mut vk = key(vec![chip("cpu", 10, 3)], ordering(&[("cpu", 0)]));
    vk.commitment[7] = u32::MAX;
    assert_eq!(vk.validate(), Err(StructuralError::NonCanonicalElement));
    let mut vk = key(vec![chip("cpu", 30, 0)], ordering(&[]));
    vk.initial_global_cumulative_sum.0.y.0[6] = P + 1;
    assert_eq!(vk.validate(), Err(StructuralError::NonCanonicalElement));
}

#[test]
fn domains_that_the_field_has_no_room_for_are_refused() {
    let vk = key(vec![chip("cpu", 10, 3), chip("huge", 25, 3)], ordering(&[("cpu", 0), ("huge", 1)]));
    assert_eq!(vk.validate(), Err(StructuralError::InvalidDomain));
    let vk = key(vec![chip("cpu", 10, 0)], ordering(&[("cpu", 0)]));
    assert_eq!(vk.validate(), Err(StructuralError::InvalidDomain));
    let vk = key(vec![chip("cpu", 10, P)], ordering(&[("cpu", 0)]));
    assert_eq!(vk.validate(), Err(StructuralError::InvalidDomain));
    assert!(TwoAdicMultiplicativeCoset { log_n: 24, shift: 1 }.is_wf());
    assert!(!TwoAdicMultiplicativeCoset { log_n: 25, shift: 1 }.is_wf());
}

#[test]
fn tables_that_do_not_order_the_chips_are_refused() {
    let chips = || vec![chip("cpu", 10, 3), chip("memory", 8, 3)];
    let vk = key(chips(), ordering(&[("cpu", 0)]));
    assert_eq!(vk.validate(), Err(StructuralError::InconsistentChipOrdering));
    let vk = key(chips(), ordering(&[("cpu", 0), ("memory", 2)]));
    assert_eq!(vk.validate(), Err(StructuralError::InconsistentChipOrdering));
    let vk = key(chips(), ordering(&[("cpu", 1), ("memory", 1)]));
    assert_eq!(vk.validate(), Err(StructuralError::InconsistentChipOrdering));
    let vk = key(chips(), ordering(&[("cpu", 0), ("memory", 1), ("alu", 2)]));
    assert_eq!(vk.validate(), Err(StructuralError::InconsistentChipOrdering));
    let vk = key(chips(), ordering(&[("cpu", 1), ("memory", 0)]));
    assert_eq!(vk.validate(), Ok(()));
}

#[test]
fn table_of_chip_positions_is_a_map() {
    let mut table = ChipOrdering::new();
    assert_eq!(table.get("cpu"), None);
    assert!(table.is_consistent(0));
    assert!(!table.is_consistent(1));
    assert_eq!(table.insert("cpu".to_string(), 3), None);
    assert_eq!(table.get("cpu"), Some(3));
    assert_eq!(table.insert("cpu".to_string(), 0), Some(3));
    assert_eq!(table.get("cpu"), Some(0));
    assert_eq!(table.get("memory"), None);
    assert!(table.is_consistent(1));
    assert_eq!(table.insert("memory".to_string(), 2), None);
    assert!(!table.is_consistent(2));
    assert_eq!(table.insert("alu".to_string(), 1), None);
    assert!(table.is_consistent(3));
    assert!(!table.is_consistent(4));
}
