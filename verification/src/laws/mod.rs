//! What the operations do, said of their arguments and results.
pub mod answers;
pub mod beginnings;
pub mod details;
pub mod logs;
pub mod sessions;
pub mod stores;
pub mod sweeps;
pub mod texts;
pub mod transactions;
