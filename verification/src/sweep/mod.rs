//! Weighted atom sweeps: engines that sample atoms from snapshots, and the candidates they offer.
pub mod af_topk;
pub mod cpq;
pub mod laws;
pub mod operation;
pub mod random_walk;
pub mod registry;
pub mod sti;
pub mod sti_laws;
pub mod strategy;
pub mod traversal;
pub mod weights;
