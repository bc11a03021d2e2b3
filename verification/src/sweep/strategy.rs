//! The traversal strategies by key.
use vstd::prelude::*;

use crate::text::str_eq;

verus! {

/// Error returned when traversal fails.
#[derive(Debug)]
pub struct TraversalError {
    pub message: String,
}

impl TraversalError {
    /// The error as messages show it.
    pub fn to_text(&self) -> (r: String)
        ensures
            r@ == "traversal error: "@ + self.message@,
    {
        crate::text::concat("traversal error: ", self.message.as_str())
    }
}

/// A way of choosing the next atom of a snapshot.
#[derive(Clone, Copy, Debug, PartialEq, Eq, Structural)]
pub enum Strategy {
    /// Weighted random walk.
    RandomWalk,
    /// Chunked priority queue.
    Cpq,
    /// The attentional focus, in order.
    EcanAfTopK,
}

/// The strategy of a key.
pub open spec fn strategy_of(key: Seq<char>) -> Option<Strategy> {
    if key == "random_walk"@ {
        Some(Strategy::RandomWalk)
    } else if key == "cpq"@ {
        Some(Strategy::Cpq)
    } else if key == "ecan_af_topk"@ {
        Some(Strategy::EcanAfTopK)
    } else {
        None
    }
}

/// The name of a strategy's engine.
pub open spec fn strategy_name(s: Strategy) -> Seq<char> {
    match s {
        Strategy::RandomWalk => "random_walk"@,
        Strategy::Cpq => "pq"@,
        Strategy::EcanAfTopK => "ecan_af_topk"@,
    }
}

/// The depth of the chunks that a `cpq` engine serves.
pub const CHUNK_DEPTH: usize = 4;

/// Finds a strategy by its key: `random_walk`, `cpq` or `ecan_af_topk`.
pub fn build_strategy(key: &str) -> (r: Option<Strategy>)
    ensures
        r == strategy_of(key@),
{
    if str_eq(key, "random_walk") {
        Some(Strategy::RandomWalk)
    } else if str_eq(key, "cpq") {
        Some(Strategy::Cpq)
    } else if str_eq(key, "ecan_af_topk") {
        Some(Strategy::EcanAfTopK)
    } else {
        None
    }
}

impl Strategy {
    /// The name of the engine.
    pub fn name(&self) -> (r: &'static str)
        ensures
            r@ == strategy_name(*self),
    {
        match self {
            Strategy::RandomWalk => "random_walk",
            Strategy::Cpq => "pq",
            Strategy::EcanAfTopK => "ecan_af_topk",
        }
    }
}

} // verus!
