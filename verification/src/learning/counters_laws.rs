//! What holds of the review counters over many turns.

use vstd::prelude::*;

use crate::learning::counters::{LearningCounters, ReviewKind};

verus! {

/// What a completed turn reports to the counters.
pub struct Turn {
    pub tool_iterations: u32,
    pub wrote_memory: bool,
    pub wrote_skill: bool,
}

/// The counters after a run of turns.
pub open spec fn after_turns(counters: LearningCounters, turns: Seq<Turn>) -> LearningCounters
    decreases turns.len(),
{
    if turns.len() == 0 {
        counters
    } else {
        after_turns(counters, turns.drop_last()).after_turn(
            turns.last().tool_iterations,
            turns.last().wrote_memory,
            turns.last().wrote_skill,
        )
    }
}

/// The tool iterations of a run of turns.
pub open spec fn iterations_of(turns: Seq<Turn>) -> int
    decreases turns.len(),
{
    if turns.len() == 0 {
        0
    } else {
        iterations_of(turns.drop_last()) + turns.last().tool_iterations
    }
}

/// The smaller of a count and the largest count that a counter holds.
pub open spec fn capped(count: int) -> int {
    if count > u32::MAX {
        u32::MAX as int
    } else {
        count
    }
}

/// The memory counter counts the turns since the last memory write: over a
/// run of turns that write no memory it grows by their number, up to the
/// largest count.
pub proof fn memory_counter_counts_turns(counters: LearningCounters, turns: Seq<Turn>)
    requires
        forall|i: int| 0 <= i < turns.len() ==> !(#[trigger] turns[i]).wrote_memory,
    ensures
        after_turns(counters, turns).turns_since_memory_write == capped(
            counters.turns_since_memory_write + turns.len(),
        ),
    decreases turns.len(),
{
    if turns.len() > 0 {
        let before = turns.drop_last();
        assert forall|i: int| 0 <= i < before.len() implies !(#[trigger] before[i]).wrote_memory by {
            assert(before[i] == turns[i]);
        }
        assert(!turns[turns.len() - 1].wrote_memory);
        memory_counter_counts_turns(counters, before);
    }
}

/// The skill counter counts the tool iterations since the last skill write:
/// over a run of turns that write no skill it grows by their iterations, up to
/// the largest count.
pub proof fn skill_counter_counts_iterations(counters: LearningCounters, turns: Seq<Turn>)
    requires
        forall|i: int| 0 <= i < turns.len() ==> !(#[trigger] turns[i]).wrote_skill,
    ensures
        after_turns(counters, turns).iters_since_skill_write == capped(
            counters.iters_since_skill_write + iterations_of(turns),
        ),
        iterations_of(turns) >= 0,
    decreases turns.len(),
{
    if turns.len() > 0 {
        let before = turns.drop_last();
        assert forall|i: int| 0 <= i < before.len() implies !(#[trigger] before[i]).wrote_skill by {
            assert(before[i] == turns[i]);
        }
        assert(!turns[turns.len() - 1].wrote_skill);
        skill_counter_counts_iterations(counters, before);
    }
}

/// A memory review fires only after a stretch without memory writes: right
/// after a write or a review that covers memory, it takes as many turns
/// without a write as the interval, and no fewer.
pub proof fn memory_review_needs_a_stretch(
    counters: LearningCounters,
    turns: Seq<Turn>,
    memory_interval: u32,
)
    requires
        counters.turns_since_memory_write == 0,
        forall|i: int| 0 <= i < turns.len() ==> !(#[trigger] turns[i]).wrote_memory,
    ensures
        after_turns(counters, turns).memory_due(memory_interval) <==> 0 < memory_interval
            <= turns.len(),
{
    memory_counter_counts_turns(counters, turns);
}

/// A skill review fires only after a stretch without skill writes: right
/// after a write or a review that covers skills, it takes as many tool
/// iterations without a write as the interval, and no fewer.
pub proof fn skill_review_needs_a_stretch(
    counters: LearningCounters,
    turns: Seq<Turn>,
    skill_interval: u32,
)
    requires
        counters.iters_since_skill_write == 0,
        forall|i: int| 0 <= i < turns.len() ==> !(#[trigger] turns[i]).wrote_skill,
    ensures
        after_turns(counters, turns).skills_due(skill_interval) <==> 0 < skill_interval
            <= iterations_of(turns),
{
    skill_counter_counts_iterations(counters, turns);
}

/// A foreground write takes the place of a review: after a turn that wrote to
/// a store, the review of that store is not due, whatever came before.
pub proof fn foreground_write_resets(
    counters: LearningCounters,
    tool_iterations: u32,
    wrote_memory: bool,
    wrote_skill: bool,
    memory_interval: u32,
    skill_interval: u32,
)
    ensures
        ({
            let after = counters.after_turn(tool_iterations, wrote_memory, wrote_skill);
            &&& wrote_memory ==> !after.memory_due(memory_interval)
            &&& wrote_skill ==> !after.skills_due(skill_interval)
        }),
{
}

/// A review that was due and has been spawned is not due again right away,
/// and neither is another one.
pub proof fn spawned_review_is_not_due_again(
    counters: LearningCounters,
    memory_interval: u32,
    skill_interval: u32,
)
    requires
        counters.review_due(memory_interval, skill_interval) is Some,
    ensures
        counters.after_review(
            counters.review_due(memory_interval, skill_interval)->0,
        ).review_due(memory_interval, skill_interval) is None,
{
}

/// An interval of zero disables its review, whatever the counters.
pub proof fn zero_interval_disables(counters: LearningCounters, other_interval: u32)
    ensures
        counters.review_due(0, other_interval) matches Some(kind) ==> !kind.covers_memory(),
        counters.review_due(other_interval, 0) matches Some(kind) ==> !kind.covers_skills(),
{
}

/// A turn changes each counter by itself: a memory write clears the memory
/// counter and any other turn adds one to it; a skill write clears the skill
/// counter and any other turn adds its iterations to it, as far as they can be
/// counted.
pub proof fn turn_changes_each_counter_by_itself(
    counters: LearningCounters,
    tool_iterations: u32,
    wrote_memory: bool,
    wrote_skill: bool,
)
    ensures
        ({
            let after = counters.after_turn(tool_iterations, wrote_memory, wrote_skill);
            &&& wrote_memory ==> after.turns_since_memory_write == 0
            &&& !wrote_memory ==> after.turns_since_memory_write == capped(
                counters.turns_since_memory_write + 1,
            )
            &&& wrote_skill ==> after.iters_since_skill_write == 0
            &&& !wrote_skill ==> after.iters_since_skill_write == capped(
                counters.iters_since_skill_write + tool_iterations,
            )
        }),
{
}

/// A review is due by the counters alone: of memory where its counter has
/// reached a positive interval, of skills likewise, of both where both have.
pub proof fn review_is_due_by_the_counters(
    counters: LearningCounters,
    memory_interval: u32,
    skill_interval: u32,
)
    ensures
        ({
            let memory = 0 < memory_interval <= counters.turns_since_memory_write;
            let skills = 0 < skill_interval <= counters.iters_since_skill_write;
            let due = counters.review_due(memory_interval, skill_interval);
            &&& due == Some(ReviewKind::Combined) <==> memory && skills
            &&& due == Some(ReviewKind::Memory) <==> memory && !skills
            &&& due == Some(ReviewKind::Skills) <==> !memory && skills
            &&& due is None <==> !memory && !skills
        }),
{
}

/// A review clears the counters of what it covers and no others.
pub proof fn review_clears_what_it_covers(counters: LearningCounters, kind: ReviewKind)
    ensures
        ({
            let after = counters.after_review(kind);
            &&& kind == ReviewKind::Skills ==> after.turns_since_memory_write
                == counters.turns_since_memory_write
            &&& kind != ReviewKind::Skills ==> after.turns_since_memory_write == 0
            &&& kind == ReviewKind::Memory ==> after.iters_since_skill_write
                == counters.iters_since_skill_write
            &&& kind != ReviewKind::Memory ==> after.iters_since_skill_write == 0
            &&& kind.covers_memory() <==> kind == ReviewKind::Memory || kind
                == ReviewKind::Combined
            &&& kind.covers_skills() <==> kind == ReviewKind::Skills || kind
                == ReviewKind::Combined
        }),
{
}

} // verus!
