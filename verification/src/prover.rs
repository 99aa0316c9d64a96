//! What the engine tells the external prover and hears from it.

use vstd::prelude::*;
use crate::hexfmt::{hex_chars, hex_prefixed};

verus! {

/// Errors of witness assembly and of the prover.
#[derive(Debug)]
pub enum ProverError {
    /// Witness generation failed.
    WitnessGeneration(String),
    /// Proof generation failed.
    ProofGeneration(String),
    /// Proof verification failed.
    ProofVerification(String),
    /// Invalid input provided.
    InvalidInput(String),
    /// Circuit not found.
    CircuitNotFound(String),
    /// Command execution failed.
    CommandFailed(String),
    /// Insufficient balance.
    InsufficientBalance { have: u128, need: u128 },
    /// Invalid Merkle proof.
    InvalidMerkleProof,
    /// Circuit compilation required.
    CircuitNotCompiled,
}

/// Circuit types supported by the prover.
#[derive(Debug, Clone, Copy, PartialEq, Eq, Structural)]
pub enum CircuitType {
    Deposit,
    Withdraw,
    Transfer,
}

impl CircuitType {
    /// Get the circuit name for file paths.
    pub fn name(&self) -> (s: &'static str)
        ensures
            s@ == match *self {
                CircuitType::Deposit => "deposit"@,
                CircuitType::Withdraw => "withdraw"@,
                CircuitType::Transfer => "transfer"@,
            },
    {
        match self {
            CircuitType::Deposit => "deposit",
            CircuitType::Withdraw => "withdraw",
            CircuitType::Transfer => "transfer",
        }
    }
}

/// A proof with its public inputs.
#[derive(Debug, Clone)]
pub struct Proof {
    /// The raw proof bytes.
    pub proof: Vec<u8>,
    /// Public inputs.
    pub public_inputs: Vec<String>,
    /// Circuit type.
    pub circuit_type: String,
}

impl Proof {
    /// Create a new proof.
    pub fn new(proof: Vec<u8>, public_inputs: Vec<String>, circuit_type: CircuitType) -> (p: Self)
        ensures
            p.proof == proof,
            p.public_inputs == public_inputs,
            p.circuit_type@ == match circuit_type {
                CircuitType::Deposit => "deposit"@,
                CircuitType::Withdraw => "withdraw"@,
                CircuitType::Transfer => "transfer"@,
            },
    {
        Proof { proof, public_inputs, circuit_type: String::from_str(circuit_type.name()) }
    }

    /// Get proof as hex string.
    pub fn proof_hex(&self) -> (s: String)
        ensures
            s@ == seq!['0', 'x'] + hex_chars(self.proof@),
    {
        hex_prefixed(self.proof.as_slice())
    }
}

} // verus!
