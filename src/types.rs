use vstd::prelude::*;

verus! {

/// Identity of an oracle or of the administrator: an opaque account key.
pub type AccountId = u64;

/// Per-oracle accuracy history and the trust derived from it.
#[derive(Clone, Copy, Debug, PartialEq, Eq, Structural)]
pub struct OracleReputation {
    pub total_submissions: u32,
    pub accurate_submissions: u32,
    /// Running average absolute deviation from consensus, in basis points.
    pub avg_deviation: i128,
    /// Score in 0..=100, recomputed every round.
    pub reputation_score: u32,
    /// Trust multiplier in {0, 1, 2, 5, 10}, derived from `reputation_score`.
    pub weight: u32,
    /// Ledger timestamp of the most recent penalty.
    pub last_slash: u64,
}

/// One price reported by one oracle in the current round.
#[derive(Clone, Copy, Debug, PartialEq, Eq, Structural)]
pub struct PriceSubmission {
    pub oracle: AccountId,
    pub price: i128,
    pub timestamp: u64,
}

/// The price accepted by the most recent successful round.
#[derive(Clone, Copy, Debug, PartialEq, Eq, Structural)]
pub struct ConsensusPriceData {
    pub price: i128,
    pub timestamp: u64,
    pub num_oracles: u32,
}

/// Why an oracle is penalised.
#[derive(Clone, Copy, Debug, PartialEq, Eq, Structural)]
pub enum SlashReason {
    MajorDeviation,
    SignatureFailure,
}

/// Errors returned by the oracle engine.
#[derive(Clone, Copy, Debug, PartialEq, Eq, Structural)]
pub enum OracleError {
    AlreadyInitialized,
    Unauthorized,
    OracleAlreadyExists,
    OracleNotFound,
    InvalidPrice,
    LowReputation,
    InsufficientOracles,
    NoOracleData,
    Overflow,
}

/// Notifications produced by the engine, in the order in which they occurred.
#[derive(Clone, Copy, Debug, PartialEq, Eq, Structural)]
pub enum OracleEvent {
    PriceSubmitted { oracle: AccountId, price: i128 },
    ConsensusReached { price: i128, num_oracles: u32 },
    WeightAdjusted { oracle: AccountId, old_weight: u32, new_weight: u32, reputation: u32 },
    OracleSlashed { oracle: AccountId, reason: SlashReason, penalty: u32 },
    OracleRemoved { oracle: AccountId },
}

/// A price observation from the externally signed feed. `signature_valid` holds the
/// outcome of checking the observation's signature against `oracle`.
#[derive(Clone, Copy, Debug, PartialEq, Eq, Structural)]
pub struct ExternalPrice {
    pub oracle: AccountId,
    pub price: i128,
    pub timestamp: u64,
    pub round_id: u64,
    pub signature_valid: bool,
}

} // verus!
