//! Verification core of a recursive STARK verifier over the KoalaBear field:
//! the verifying-key record and its binding digest, the Fiat-Shamir
//! transcript, and the checks a FRI proof has to pass.

pub mod field;
pub mod fri;
pub mod challenger;
pub mod hash;
pub mod merkle_tree;
pub mod plonk_bn254;
pub mod programs;
pub mod two_adic_pcs;
pub mod types;
