//! The bridge to the PLONK backend over BN254, as far as it decides or
//! computes: which circuit a proof belongs to, what is handed to the backend,
//! and what is made of its answer. Reading and writing the build directory
//! and calling the backend are left to the caller.

use num_bigint::BigUint;
use sha2::Digest;
use sha2::Sha256;
use vstd::prelude::*;
use vstd::string::StringExecFns;
use vstd::string::StringSliceAdditionalSpecFns;

verus! {

/// The SHA-256 digest of a byte string, as `sha2::Sha256` computes it.
pub uninterp spec fn sha256(data: Seq<u8>) -> Seq<u8>;

/// Calls `Sha256::digest` of `sha2` on `data`. The contract names the 32
/// bytes that come back.
#[verifier::external_body]
fn sha256_digest(data: &[u8]) -> (digest: [u8; 32])
    ensures
        digest@ == sha256(data@),
{
    Sha256::digest(data).into()
}

/// The number that `bytes` spell in base 256, most significant byte first.
pub open spec fn be_value(bytes: Seq<u8>) -> nat
    decreases bytes.len(),
{
    if bytes.len() == 0 {
        0
    } else {
        be_value(bytes.drop_last()) * 256 + bytes.last() as nat
    }
}

/// The character of a decimal digit.
pub open spec fn digit_char(d: nat) -> char {
    seq!['0', '1', '2', '3', '4', '5', '6', '7', '8', '9'][d as int]
}

/// `n` in decimal, without leading zeros; `"0"` for zero.
pub open spec fn decimal_digits(n: nat) -> Seq<char>
    decreases n,
{
    if n < 10 {
        seq![digit_char(n)]
    } else {
        decimal_digits(n / 10).push(digit_char(n % 10))
    }
}

/// Reads `bytes` with `BigUint::from_bytes_be` of `num_bigint` and writes
/// the number out with its `to_string`, which gives the decimal digits
/// without leading zeros.
#[verifier::external_body]
fn decimal_string(bytes: &[u8]) -> (text: String)
    ensures
        text@ == decimal_digits(be_value(bytes@)),
{
    BigUint::from_bytes_be(bytes).to_string()
}

/// The character of a hexadecimal digit, in lower case, as a byte.
pub open spec fn hex_digit(n: u8) -> u8 {
    if n < 10 {
        (48 + n) as u8
    } else {
        (87 + n) as u8
    }
}

/// `data` in hexadecimal: two lower-case digits for each byte, the high
/// one first.
pub open spec fn hex_lower(data: Seq<u8>) -> Seq<u8>
    decreases data.len(),
{
    if data.len() == 0 {
        Seq::empty()
    } else {
        hex_lower(data.drop_last()) + seq![
            hex_digit(data.last() / 16),
            hex_digit(data.last() % 16),
        ]
    }
}

/// Calls `hex::encode` on `data`, which writes each byte as two lower-case
/// hexadecimal digits, and hands the text back as bytes.
#[verifier::external_body]
fn hex_encode(data: &[u8]) -> (text: Vec<u8>)
    ensures
        text@ == hex_lower(data@),
{
    hex::encode(data).into_bytes()
}

/// `text` with every occurrence of `from` replaced by `to`, the
/// occurrences taken from the left and not overlapping.
pub open spec fn spec_replace(text: Seq<u8>, from: Seq<u8>, to: Seq<u8>) -> Seq<u8>
    decreases text.len(),
{
    if from.len() == 0 || text.len() < from.len() {
        text
    } else if text.take(from.len() as int) == from {
        to + spec_replace(text.skip(from.len() as int), from, to)
    } else {
        seq![text[0]] + spec_replace(text.skip(1), from, to)
    }
}

/// Whether `pattern` stands in `text` at position `at`.
fn matches_at(text: &[u8], at: usize, pattern: &[u8]) -> (found: bool)
    requires
        at <= text@.len(),
    ensures
        found == (pattern@.len() <= text@.len() - at && text@.skip(at as int).take(
            pattern@.len() as int,
        ) == pattern@),
{
    let m = pattern.len();
    let n = text.len();
    if n - at < m {
        return false;
    }
    let ghost window = text@.skip(at as int).take(m as int);
    let mut k: usize = 0;
    while k < m
        invariant
            k <= m,
            m == pattern@.len(),
            n == text@.len(),
            at + m <= n,
            window == text@.skip(at as int).take(m as int),
            forall|j: int| 0 <= j < k ==> window[j] == pattern@[j],
        decreases m - k,
    {
        if text[at + k] != pattern[k] {
            assert(window[k as int] != pattern@[k as int]);
            return false;
        }
        k += 1;
    }
    assert(window =~= pattern@);
    true
}

/// Appends `bytes` to `target`.
fn append(target: &mut Vec<u8>, bytes: &[u8])
    ensures
        final(target)@ == old(target)@ + bytes@,
{
    let n = bytes.len();
    let mut i: usize = 0;
    while i < n
        invariant
            n == bytes@.len(),
            i <= n,
            target@ == old(target)@ + bytes@.take(i as int),
        decreases n - i,
    {
        target.push(bytes[i]);
        assert(target@ =~= old(target)@ + bytes@.take(i + 1));
        i += 1;
    }
    assert(bytes@.take(n as int) =~= bytes@);
}

/// Replaces every occurrence of `from` in `text` by `to`.
pub fn replace(text: &[u8], from: &[u8], to: &[u8]) -> (out: Vec<u8>)
    requires
        from@.len() > 0,
    ensures
        out@ == spec_replace(text@, from@, to@),
{
    let mut out: Vec<u8> = Vec::new();
    let n = text.len();
    let m = from.len();
    let mut i: usize = 0;
    assert(text@.skip(0) =~= text@);
    while i < n
        invariant
            n == text@.len(),
            m == from@.len(),
            m > 0,
            i <= n,
            out@ + spec_replace(text@.skip(i as int), from@, to@) == spec_replace(
                text@,
                from@,
                to@,
            ),
        decreases n - i,
    {
        let ghost rest = text@.skip(i as int);
        let ghost done = out@;
        if matches_at(text, i, from) {
            append(&mut out, to);
            proof {
                assert(rest.skip(m as int) =~= text@.skip(i + m));
                assert(done + (to@ + spec_replace(rest.skip(m as int), from@, to@)) =~= (done
                    + to@) + spec_replace(rest.skip(m as int), from@, to@));
            }
            i += m;
        } else {
            out.push(text[i]);
            proof {
                assert(rest.skip(1) =~= text@.skip(i + 1));
                if rest.len() < m {
                    assert(spec_replace(rest.skip(1), from@, to@) == rest.skip(1));
                    assert(rest =~= seq![rest[0]] + rest.skip(1));
                }
                assert(spec_replace(rest, from@, to@) == seq![rest[0]] + spec_replace(
                    rest.skip(1),
                    from@,
                    to@,
                ));
                assert(done + (seq![rest[0]] + spec_replace(rest.skip(1), from@, to@)) =~= done.push(
                    rest[0],
                ) + spec_replace(rest.skip(1), from@, to@));
            }
            i += 1;
        }
    }
    assert(text@.skip(n as int) =~= Seq::<u8>::empty());
    assert(out@ + Seq::<u8>::empty() =~= out@);
    out
}

/// The source of the verifier contract, made from `template`: the
/// placeholder of the circuit version gives way to `circuit_version`, that
/// of the verifier hash to `0x` and the hash in hexadecimal, and that of
/// the proof system to `Plonk`, in this order.
pub open spec fn spec_verifier_source(
    template: Seq<u8>,
    circuit_version: Seq<u8>,
    vkey_hash: Seq<u8>,
) -> Seq<u8> {
    spec_replace(
        spec_replace(
            spec_replace(template, "{ZKM_CIRCUIT_VERSION}".spec_bytes(), circuit_version),
            "{VERIFIER_HASH}".spec_bytes(),
            "0x".spec_bytes() + hex_lower(vkey_hash),
        ),
        "{PROOF_SYSTEM}".spec_bytes(),
        "Plonk".spec_bytes(),
    )
}

/// A proof as the backend returns it, together with the hash of the
/// verifying key of the circuit it was made for.
pub struct PlonkBn254Proof {
    pub public_inputs: [String; 2],
    pub encoded_proof: String,
    pub raw_proof: String,
    pub plonk_vkey_hash: [u8; 32],
}

/// What the backend's verification routine is called with.
pub struct VerifyRequest {
    /// The proof, as the backend encoded it.
    pub raw_proof: String,
    /// The hash of the program's verifying key, in decimal.
    pub vkey_hash: String,
    /// The digest of the committed values, in decimal.
    pub committed_values_digest: String,
}

/// Why a proof was not accepted.
pub enum VerifyError {
    /// The proof was made for a circuit other than the one in the build
    /// directory.
    VkeyHashMismatch {
        /// The hash of the build directory's verifying key.
        expected: [u8; 32],
        /// The hash the proof carries.
        actual: [u8; 32],
    },
    /// The backend rejected the proof, with its reason.
    Backend(String),
}

/// Whether two hashes are the same.
fn same_hash(a: &[u8; 32], b: &[u8; 32]) -> (same: bool)
    ensures
        same == (a@ == b@),
{
    let mut i: usize = 0;
    while i < 32
        invariant
            i <= 32,
            forall|j: int| 0 <= j < i ==> a@[j] == b@[j],
        decreases 32 - i,
    {
        if a[i] != b[i] {
            return false;
        }
        i += 1;
    }
    assert(a@ =~= b@);
    true
}

/// A prover that generates proofs with the PLONK protocol.
#[derive(Debug, Clone)]
pub struct PlonkBn254Prover;

impl PlonkBn254Prover {
    /// Creates a new prover.
    pub fn new() -> (prover: Self)
        ensures
            prover == PlonkBn254Prover,
    {
        PlonkBn254Prover
    }

    /// The hash that identifies a circuit: the SHA-256 digest of the
    /// contents of its verifying-key file.
    pub fn get_vkey_hash(vk_bin_bytes: &[u8]) -> (hash: [u8; 32])
        ensures
            hash@ == sha256(vk_bin_bytes@),
    {
        sha256_digest(vk_bin_bytes)
    }

    /// The source of the verifier contract that goes with a circuit, made
    /// from a template and the hash of the circuit's verifying key.
    pub fn build(template: &[u8], circuit_version: &[u8], vkey_hash: &[u8; 32]) -> (source: Vec<u8>)
        ensures
            source@ == spec_verifier_source(template@, circuit_version@, vkey_hash@),
    {
        let version_mark = "{ZKM_CIRCUIT_VERSION}";
        let hash_mark = "{VERIFIER_HASH}";
        let system_mark = "{PROOF_SYSTEM}";
        let prefix = "0x";
        proof {
            reveal_strlit("{ZKM_CIRCUIT_VERSION}");
            reveal_strlit("{VERIFIER_HASH}");
            reveal_strlit("{PROOF_SYSTEM}");
            vstd::string::is_ascii_spec_bytes(version_mark);
            vstd::string::is_ascii_spec_bytes(hash_mark);
            vstd::string::is_ascii_spec_bytes(system_mark);
        }
        let mut hash_text: Vec<u8> = Vec::new();
        append(&mut hash_text, prefix.as_bytes());
        let digits = hex_encode(vkey_hash.as_slice());
        append(&mut hash_text, digits.as_slice());
        let versioned = replace(template, version_mark.as_bytes(), circuit_version);
        let hashed = replace(versioned.as_slice(), hash_mark.as_bytes(), hash_text.as_slice());
        replace(hashed.as_slice(), system_mark.as_bytes(), "Plonk".as_bytes())
    }

    /// The backend's verifier contract, made to fit the contract that
    /// `build` writes: it is compiled with the next compiler version.
    pub fn modify_plonk_verifier(content: &[u8]) -> (modified: Vec<u8>)
        ensures
            modified@ == spec_replace(
                content@,
                "pragma solidity ^0.8.19;".spec_bytes(),
                "pragma solidity ^0.8.20;".spec_bytes(),
            ),
    {
        let old_pragma = "pragma solidity ^0.8.19;";
        proof {
            reveal_strlit("pragma solidity ^0.8.19;");
            vstd::string::is_ascii_spec_bytes(old_pragma);
        }
        replace(content, old_pragma.as_bytes(), "pragma solidity ^0.8.20;".as_bytes())
    }

    /// Completes a proof that the backend returned by recording the circuit
    /// it was made for.
    pub fn prove(&self, proof: PlonkBn254Proof, vk_bin_bytes: &[u8]) -> (stamped: PlonkBn254Proof)
        ensures
            stamped.plonk_vkey_hash@ == sha256(vk_bin_bytes@),
            stamped.public_inputs == proof.public_inputs,
            stamped.encoded_proof == proof.encoded_proof,
            stamped.raw_proof == proof.raw_proof,
    {
        let mut stamped = proof;
        stamped.plonk_vkey_hash = Self::get_vkey_hash(vk_bin_bytes);
        stamped
    }

    /// Decides whether `proof` may be handed to the backend. A proof whose
    /// recorded hash differs from the hash of the build directory's
    /// verifying key is rejected here, whatever the backend would say;
    /// otherwise the result is what the backend is to be called with, the
    /// two numbers (given most significant byte first) written in decimal.
    pub fn verify(
        &self,
        proof: &PlonkBn254Proof,
        vkey_hash: &[u8],
        committed_values_digest: &[u8],
        vk_bin_bytes: &[u8],
    ) -> (step: Result<VerifyRequest, VerifyError>)
        ensures
            proof.plonk_vkey_hash@ == sha256(vk_bin_bytes@) ==> (step matches Ok(request)
                && request.raw_proof@ == proof.raw_proof@
                && request.vkey_hash@ == decimal_digits(be_value(vkey_hash@))
                && request.committed_values_digest@ == decimal_digits(
                be_value(committed_values_digest@),
            )),
            proof.plonk_vkey_hash@ != sha256(vk_bin_bytes@) ==> (step matches Err(
                VerifyError::VkeyHashMismatch { expected, actual },
            ) && expected@ == sha256(vk_bin_bytes@) && actual == proof.plonk_vkey_hash),
    {
        let expected = Self::get_vkey_hash(vk_bin_bytes);
        if !same_hash(&proof.plonk_vkey_hash, &expected) {
            return Err(VerifyError::VkeyHashMismatch { expected, actual: proof.plonk_vkey_hash });
        }
        Ok(
            VerifyRequest {
                raw_proof: proof.raw_proof.clone(),
                vkey_hash: decimal_string(vkey_hash),
                committed_values_digest: decimal_string(committed_values_digest),
            },
        )
    }

    /// What a verification ends in, given the backend's answer to the
    /// request that `verify` made: success, or the backend's reason.
    pub fn finish_verify(&self, answer: Result<(), String>) -> (outcome: Result<(), VerifyError>)
        ensures
            answer is Ok ==> outcome is Ok,
            answer matches Err(reason) ==> outcome matches Err(VerifyError::Backend(kept))
                && kept@ == reason@,
    {
        match answer {
            Ok(()) => Ok(()),
            Err(reason) => Err(VerifyError::Backend(reason)),
        }
    }
}

impl Default for PlonkBn254Prover {
    fn default() -> (prover: Self)
        ensures
            prover == PlonkBn254Prover,
    {
        Self::new()
    }
}

impl VerifyError {
    /// The error in words.
    pub fn message(&self) -> (text: String)
        ensures
            self is VkeyHashMismatch ==> text@
                == "Proof vkey hash does not match circuit vkey hash, it was generated with a different circuit."@,
            self matches VerifyError::Backend(reason) ==> text@ == "failed to verify proof: "@
                + reason@,
    {
        match self {
            VerifyError::VkeyHashMismatch { .. } => String::from_str(
                "Proof vkey hash does not match circuit vkey hash, it was generated with a different circuit.",
            ),
            VerifyError::Backend(reason) => String::from_str("failed to verify proof: ").concat(
                reason.as_str(),
            ),
        }
    }
}

} // verus!
