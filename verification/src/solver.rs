//! Training configuration for the counterfactual-regret solver.
use vstd::prelude::*;

verus! {

/// Configuration for regret-minimisation training.
#[derive(Debug, Clone)]
pub struct McfrConfig {
    /// Maximum depth (decision points) before falling back to heuristic
    /// evaluation; 0 means unlimited (the full game tree).
    pub max_depth: u32,
    /// Maximum actions before declaring a draw (prevents endless games).
    pub max_actions: u32,
}

impl Default for McfrConfig {
    /// Unlimited depth and at most ten thousand actions.
    fn default() -> (r: McfrConfig)
        ensures
            r.max_depth == 0,
            r.max_actions == 10_000,
    {
        McfrConfig { max_depth: 0, max_actions: 10_000 }
    }
}

/// How a position at the depth limit is evaluated.
#[derive(Debug)]
pub enum RolloutMode {
    /// The static heuristic (life and board presence).
    Heuristic,
    /// Play the game out with the rollout strategies for up to this many
    /// actions.
    Strategy { max_rollout_actions: u32 },
}

} // verus!
