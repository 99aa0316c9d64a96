//! Short forms of addresses and hashes, and the names of the stages of a
//! proof, for whoever shows them.

use vstd::prelude::*;
use crate::decimal::{decimal_digits, u128_to_decimal};

verus! {

/// The short form of an address: of more than 16 characters, the first ten
/// and the last six with three dots between them.
pub open spec fn short_address(s: Seq<char>) -> Seq<char> {
    if s.len() > 16 {
        s.subrange(0, 10) + "..."@ + s.subrange(s.len() - 6, s.len() as int)
    } else {
        s
    }
}

/// The short form of a hash: of more than 20 characters, the first sixteen
/// and three dots.
pub open spec fn short_hash(s: Seq<char>) -> Seq<char> {
    if s.len() > 20 {
        s.subrange(0, 16) + "..."@
    } else {
        s
    }
}

/// A numbered step: the number, a dot, a blank and the text.
pub fn step(number: u8, text: &str) -> (s: String)
    ensures
        s@ == decimal_digits(number as nat) + ". "@ + text@,
{
    u128_to_decimal(number as u128).concat(". ").concat(text)
}

/// Format an address for display (shortened).
pub fn format_address(addr: &str) -> (s: String)
    ensures
        s@ == short_address(addr@),
{
    let n = addr.unicode_len();
    if n > 16 {
        let head = addr.substring_char(0, 10);
        let tail = addr.substring_char(n - 6, n);
        String::from_str(head).concat("...").concat(tail)
    } else {
        String::from_str(addr)
    }
}

/// Format a hash for display (shortened).
pub fn format_hash(hash: &str) -> (s: String)
    ensures
        s@ == short_hash(hash@),
{
    let n = hash.unicode_len();
    if n > 20 {
        String::from_str(hash.substring_char(0, 16)).concat("...")
    } else {
        String::from_str(hash)
    }
}

/// How long ago a moment lies, in the largest unit that it fills: seconds,
/// minutes, hours or days. A moment that lies ahead is `just now`.
pub open spec fn time_ago(timestamp: u64, now: u64) -> Seq<char> {
    if now < timestamp {
        "just now"@
    } else {
        let secs = (now - timestamp) as nat;
        if secs < 60 {
            decimal_digits(secs) + "s ago"@
        } else if secs < 3600 {
            decimal_digits(secs / 60) + "m ago"@
        } else if secs < 86400 {
            decimal_digits(secs / 3600) + "h ago"@
        } else {
            decimal_digits(secs / 86400) + "d ago"@
        }
    }
}

/// Format the time of a journal entry relative to `now`, both in seconds
/// since the epoch.
pub fn format_timestamp(timestamp: u64, now: u64) -> (s: String)
    ensures
        s@ == time_ago(timestamp, now),
{
    if now < timestamp {
        String::from_str("just now")
    } else {
        let secs = now - timestamp;
        if secs < 60 {
            u128_to_decimal(secs as u128).concat("s ago")
        } else if secs < 3600 {
            u128_to_decimal((secs / 60) as u128).concat("m ago")
        } else if secs < 86400 {
            u128_to_decimal((secs / 3600) as u128).concat("h ago")
        } else {
            u128_to_decimal((secs / 86400) as u128).concat("d ago")
        }
    }
}

/// The stages of generating a proof, as they are shown.
#[derive(Debug, Clone, Copy, PartialEq, Eq, Structural)]
pub enum ZkStage {
    WitnessGeneration,
    ConstraintSatisfaction,
    PolynomialCommitment,
    ProofComputation,
    Verification,
}

impl ZkStage {
    pub fn name(&self) -> (s: &'static str)
        ensures
            s@ == match *self {
                ZkStage::WitnessGeneration => "Witness Generation"@,
                ZkStage::ConstraintSatisfaction => "Constraint Satisfaction"@,
                ZkStage::PolynomialCommitment => "Polynomial Commitment"@,
                ZkStage::ProofComputation => "Proof Computation"@,
                ZkStage::Verification => "Local Verification"@,
            },
    {
        match self {
            ZkStage::WitnessGeneration => "Witness Generation",
            ZkStage::ConstraintSatisfaction => "Constraint Satisfaction",
            ZkStage::PolynomialCommitment => "Polynomial Commitment",
            ZkStage::ProofComputation => "Proof Computation",
            ZkStage::Verification => "Local Verification",
        }
    }

    pub fn description(&self) -> (s: &'static str)
        ensures
            s@ == match *self {
                ZkStage::WitnessGeneration => "Computing private inputs and public outputs"@,
                ZkStage::ConstraintSatisfaction => "Validating circuit constraints are satisfied"@,
                ZkStage::PolynomialCommitment => "Generating KZG polynomial commitments"@,
                ZkStage::ProofComputation => "Computing UltraPlonk proof using Barretenberg"@,
                ZkStage::Verification => "Verifying proof integrity locally"@,
            },
    {
        match self {
            ZkStage::WitnessGeneration => "Computing private inputs and public outputs",
            ZkStage::ConstraintSatisfaction => "Validating circuit constraints are satisfied",
            ZkStage::PolynomialCommitment => "Generating KZG polynomial commitments",
            ZkStage::ProofComputation => "Computing UltraPlonk proof using Barretenberg",
            ZkStage::Verification => "Verifying proof integrity locally",
        }
    }

    pub fn icon(&self) -> (s: &'static str)
        ensures
            s@ == match *self {
                ZkStage::WitnessGeneration => "◈"@,
                ZkStage::ConstraintSatisfaction => "◇"@,
                ZkStage::PolynomialCommitment => "◆"@,
                ZkStage::ProofComputation => "▣"@,
                ZkStage::Verification => "✓"@,
            },
    {
        match self {
            ZkStage::WitnessGeneration => "◈",
            ZkStage::ConstraintSatisfaction => "◇",
            ZkStage::PolynomialCommitment => "◆",
            ZkStage::ProofComputation => "▣",
            ZkStage::Verification => "✓",
        }
    }
}

} // verus!
