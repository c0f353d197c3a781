//! Learning-loop configuration.

use vstd::prelude::*;

verus! {

/// Learning-loop configuration: the counter-triggered background self-review
/// that persists memory entries and skill updates after working sessions.
#[derive(Debug, Clone, Copy, PartialEq, Eq, Structural)]
pub struct LearningConfig {
    /// Master switch for the background self-review fork.
    pub enabled: bool,
    /// Completed turns without a memory write before a memory review fires.
    /// `0` disables memory reviews.
    pub memory_review_interval: u32,
    /// Tool-loop iterations without a skill write before a skill review
    /// fires. `0` disables skill reviews.
    pub skill_review_interval: u32,
    /// Iteration cap for one review run.
    pub max_review_iterations: usize,
}

pub fn default_learning_enabled() -> (enabled: bool)
    ensures
        enabled,
{
    true
}

pub fn default_memory_review_interval() -> (interval: u32)
    ensures
        interval == 10,
{
    10
}

pub fn default_skill_review_interval() -> (interval: u32)
    ensures
        interval == 10,
{
    10
}

pub fn default_max_review_iterations() -> (iterations: usize)
    ensures
        iterations == 16,
{
    16
}

impl Default for LearningConfig {
    fn default() -> (config: LearningConfig)
        ensures
            config == (LearningConfig {
                enabled: true,
                memory_review_interval: 10,
                skill_review_interval: 10,
                max_review_iterations: 16,
            }),
    {
        LearningConfig {
            enabled: default_learning_enabled(),
            memory_review_interval: default_memory_review_interval(),
            skill_review_interval: default_skill_review_interval(),
            max_review_iterations: default_max_review_iterations(),
        }
    }
}

} // verus!
