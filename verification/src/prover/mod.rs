//! The prover: substitutions, proof steps, the search context and the search.

pub mod leaf_proofs;
pub mod operations;
pub mod finished_proof;
pub mod proof_context;
pub mod proof_stats;
pub mod proof_step;
pub mod resolution_prover;
pub mod search;
pub mod search_config;
pub mod search_soundness;
pub mod search_model;
pub mod search_views;
pub mod similarity;
pub mod similarity_cache;
pub mod substitutions;

pub use finished_proof::Proof;
pub use proof_context::LocalProofContext;
pub use proof_context::SharedProofContext;
pub use proof_stats::FrozenProofStats;
pub use proof_stats::ProofStats;
pub use proof_step::ProofStep;
pub use proof_step::ProofStepNode;
pub use resolution_prover::ResolutionProverBackend;
pub use substitutions::SubstitutionsMap;
