//! Client-side state engine of a shielded-value protocol over the BN254
//! scalar field: field elements and Poseidon hashing, an incremental Merkle
//! tree, the note model, the state manager and the chain synchronisation
//! rules.

pub mod error;
pub mod decimal;
pub mod hexfmt;
pub mod poseidon;
pub mod merkle;
pub mod account;
pub mod storage;
pub mod state;
pub mod events;
pub mod sync;
pub mod transaction;
pub mod anchor;
pub mod prover;
pub mod witness;
pub mod config;
pub mod display;
pub mod spend;
pub mod snapshot;
pub mod journal;
pub mod indexer;
pub mod password;
pub mod transition;

pub use account::PrivateAccount;
pub use error::CoreError;
pub use merkle::MerkleTree;
pub use poseidon::PoseidonHasher;
pub use state::StateManager;
