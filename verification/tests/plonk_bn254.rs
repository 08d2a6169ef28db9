use recursion_verifier::plonk_bn254::{replace, PlonkBn254Proof, PlonkBn254Prover, VerifyError};

fn sample_proof(hash: [u8; 32]) -> PlonkBn254Proof {
    PlonkBn254Proof {
        public_inputs: ["1".to_string(), "2".to_string()],
        encoded_proof: "abcd".to_string(),
        raw_proof: "0011".to_string(),
        plonk_vkey_hash: hash,
    }
}

#[test]
fn vkey_hash_is_sha256_of_the_key_file() {
    let hash = PlonkBn254Prover::get_vkey_hash(b"abc");
    assert_eq!(
        hex::encode(hash),
        "ba7816bf8f01cfea414140de5dae2223b00361a396177a9cb410ff61f20015ad"
    );
    let empty = PlonkBn254Prover::get_vkey_hash(b"");
    assert_eq!(
        hex::encode(empty),
        "e3b0c44298fc1c149afbf4c8996fb92427ae41e4649b934ca495991b7852b855"
    );
}

#[test]
fn verify_rejects_a_proof_of_another_circuit() {
    let prover = PlonkBn254Prover::new();
    let vk = b"verifying key of the build directory".to_vec();
    let mut other = PlonkBn254Prover::get_vkey_hash(&vk);
    other[0] ^= 1;
    let proof = sample_proof(other);
    match prover.verify(&proof, &[1], &[2], &vk) {
        Err(VerifyError::VkeyHashMismatch { expected, actual }) => {
            assert_eq!(expected, PlonkBn254Prover::get_vkey_hash(&vk));
            assert_eq!(actual, other);
        }
        _ => panic!("a proof of another circuit was handed on"),
    }
}

#[test]
fn verify_hands_decimal_numbers_to_the_backend() {
    let prover = PlonkBn254Prover::new();
    let vk = b"vk".to_vec();
    let proof = prover.prove(sample_proof([0u8; 32]), &vk);
    assert_eq!(proof.plonk_vkey_hash, PlonkBn254Prover::get_vkey_hash(&vk));
    let request = match prover.verify(&proof, &[0x01, 0x00], &[], &vk) {
        Ok(request) => request,
        Err(_) => panic!("the proof carries the hash of this circuit"),
    };
    assert_eq!(request.raw_proof, "0011");
    assert_eq!(request.vkey_hash, "256");
    assert_eq!(request.committed_values_digest, "0");
    let big = prover.verify(&proof, &[0xff; 9], &[0, 0, 7], &vk).ok().unwrap();
    assert_eq!(big.vkey_hash, "4722366482869645213695");
    assert_eq!(big.committed_values_digest, "7");
}

#[test]
fn backend_answer_decides_the_rest() {
    let prover = PlonkBn254Prover::default();
    assert!(prover.finish_verify(Ok(())).is_ok());
    match prover.finish_verify(Err("pairing check failed".to_string())) {
        Err(e) => assert_eq!(e.message(), "failed to verify proof: pairing check failed"),
        Ok(()) => panic!("a rejected proof was accepted"),
    }
    let mismatch = VerifyError::VkeyHashMismatch { expected: [0; 32], actual: [1; 32] };
    assert_eq!(
        mismatch.message(),
        "Proof vkey hash does not match circuit vkey hash, it was generated with a different circuit."
    );
}

#[test]
fn verifier_contract_is_made_from_the_template() {
    let template = b"// version {ZKM_CIRCUIT_VERSION}\nbytes32 hash = {VERIFIER_HASH}; // {PROOF_SYSTEM} {PROOF_SYSTEM}\n";
    let mut hash = [0u8; 32];
    for (i, b) in hash.iter_mut().enumerate() {
        *b = (i as u8) * 8 + 1;
    }
    let source = PlonkBn254Prover::build(template, b"v1.2.3", &hash);
    let expected = format!(
        "// version v1.2.3\nbytes32 hash = 0x{}; // Plonk Plonk\n",
        hex::encode(hash)
    );
    assert_eq!(String::from_utf8(source).unwrap(), expected);
    assert!(expected.contains("0x0109111921293139"));
    assert!(expected.contains("f1f9"));
}

#[test]
fn template_without_placeholders_is_left_alone() {
    let template = b"contract Verifier {} // {VERIFIER_HASH";
    assert_eq!(PlonkBn254Prover::build(template, b"v", &[0xab; 32]), template.to_vec());
    assert_eq!(PlonkBn254Prover::build(b"", b"v", &[0; 32]), Vec::<u8>::new());
}

#[test]
fn placeholder_in_the_version_is_replaced_in_turn() {
    let source = PlonkBn254Prover::build(b"{ZKM_CIRCUIT_VERSION}", b"{PROOF_SYSTEM}", &[0; 32]);
    assert_eq!(source, b"Plonk".to_vec());
}

#[test]
fn backend_verifier_is_moved_to_the_next_compiler() {
    let content = b"// SPDX\npragma solidity ^0.8.19;\ncontract PlonkVerifier {}\npragma solidity ^0.8.19;";
    let modified = PlonkBn254Prover::modify_plonk_verifier(content);
    assert_eq!(
        String::from_utf8(modified).unwrap(),
        "// SPDX\npragma solidity ^0.8.20;\ncontract PlonkVerifier {}\npragma solidity ^0.8.20;"
    );
    let other = b"pragma solidity ^0.8.18;";
    assert_eq!(PlonkBn254Prover::modify_plonk_verifier(other), other.to_vec());
}

#[test]
fn replace_takes_occurrences_from_the_left() {
    assert_eq!(replace(b"aaaa", b"aa", b"b"), b"bb".to_vec());
    assert_eq!(replace(b"aaa", b"aa", b"b"), b"ba".to_vec());
    assert_eq!(replace(b"abcabc", b"bc", b""), b"aa".to_vec());
    assert_eq!(replace(b"abc", b"abcd", b"x"), b"abc".to_vec());
    assert_eq!(replace(b"abc", b"c", b"cc"), b"abcc".to_vec());
    assert_eq!(replace(b"", b"c", b"cc"), b"".to_vec());
    let text = "x{A}y{A}{A}z";
    assert_eq!(
        String::from_utf8(replace(text.as_bytes(), b"{A}", b"--")).unwrap(),
        text.replace("{A}", "--")
    );
}
