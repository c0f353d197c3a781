//! Deterministic triggers for the background self-review fork.
//!
//! Plain counters decide when a review is due, which keeps learning cost
//! predictable. A counter accumulates while the agent works and resets
//! whenever the corresponding durable state is written (either by the
//! foreground agent or by a completed review), so reviews fire only after a
//! stretch of activity that produced no persisted learning.

use vstd::prelude::*;

use crate::text;

verus! {

/// Tools whose use counts as a foreground memory write.
pub open spec fn memory_write_tool(name: Seq<char>) -> bool {
    ||| name == "memory_save"@
    ||| name == "memory_delete"@
    ||| name == "memory_forget"@
}

/// Tools whose use counts as a foreground skill write.
pub open spec fn skill_write_tool(name: Seq<char>) -> bool {
    ||| name == "create_skill"@
    ||| name == "update_skill"@
    ||| name == "patch_skill"@
    ||| name == "write_skill_files"@
    ||| name == "delete_skill"@
}

/// The names of the tools that write memory.
pub open spec fn memory_write_names() -> Seq<Seq<char>> {
    seq!["memory_save"@, "memory_delete"@, "memory_forget"@]
}

/// The names of the tools that write skills.
pub open spec fn skill_write_names() -> Seq<Seq<char>> {
    seq![
        "create_skill"@,
        "update_skill"@,
        "patch_skill"@,
        "write_skill_files"@,
        "delete_skill"@,
    ]
}

/// The tools whose use counts as a foreground memory write.
pub fn memory_write_tools() -> (tools: Vec<String>)
    ensures
        text::views(tools@) == memory_write_names(),
{
    let mut tools: Vec<String> = Vec::new();
    tools.push("memory_save".to_owned());
    tools.push("memory_delete".to_owned());
    tools.push("memory_forget".to_owned());
    assert(text::views(tools@) =~= memory_write_names());
    tools
}

/// The tools whose use counts as a foreground skill write.
pub fn skill_write_tools() -> (tools: Vec<String>)
    ensures
        text::views(tools@) == skill_write_names(),
{
    let mut tools: Vec<String> = Vec::new();
    tools.push("create_skill".to_owned());
    tools.push("update_skill".to_owned());
    tools.push("patch_skill".to_owned());
    tools.push("write_skill_files".to_owned());
    tools.push("delete_skill".to_owned());
    assert(text::views(tools@) =~= skill_write_names());
    tools
}

/// The lists of write tools hold exactly the tools that count as writes.
pub proof fn write_tools_are_listed(name: Seq<char>)
    ensures
        memory_write_names().contains(name) <==> memory_write_tool(name),
        skill_write_names().contains(name) <==> skill_write_tool(name),
{
    let memory = memory_write_names();
    let skills = skill_write_names();
    assert(memory[0] == "memory_save"@ && memory[1] == "memory_delete"@ && memory[2]
        == "memory_forget"@);
    assert(skills[0] == "create_skill"@ && skills[1] == "update_skill"@ && skills[2]
        == "patch_skill"@ && skills[3] == "write_skill_files"@ && skills[4] == "delete_skill"@);
}

pub fn is_memory_write_tool(name: &str) -> (answer: bool)
    ensures
        answer == memory_write_tool(name@),
{
    text::same_text(name, "memory_save") || text::same_text(name, "memory_delete")
        || text::same_text(name, "memory_forget")
}

pub fn is_skill_write_tool(name: &str) -> (answer: bool)
    ensures
        answer == skill_write_tool(name@),
{
    text::same_text(name, "create_skill") || text::same_text(name, "update_skill")
        || text::same_text(name, "patch_skill") || text::same_text(name, "write_skill_files")
        || text::same_text(name, "delete_skill")
}

/// Which review the fork should run.
#[derive(Debug, Clone, Copy, PartialEq, Eq, Structural)]
pub enum ReviewKind {
    Memory,
    Skills,
    Combined,
}

impl ReviewKind {
    /// The review covers memory.
    pub open spec fn covers_memory(self) -> bool {
        self != ReviewKind::Skills
    }

    /// The review covers skills.
    pub open spec fn covers_skills(self) -> bool {
        self != ReviewKind::Memory
    }
}

/// Per-session review counters, persisted across turns (and process restarts)
/// by the caller.
#[derive(Debug, Clone, Copy, PartialEq, Eq, Structural)]
pub struct LearningCounters {
    /// Completed turns since a memory write (foreground or review).
    pub turns_since_memory_write: u32,
    /// Tool-loop iterations since a skill write (foreground or review).
    pub iters_since_skill_write: u32,
}

impl Default for LearningCounters {
    fn default() -> (counters: LearningCounters)
        ensures
            counters == (LearningCounters {
                turns_since_memory_write: 0,
                iters_since_skill_write: 0,
            }),
    {
        LearningCounters { turns_since_memory_write: 0, iters_since_skill_write: 0 }
    }
}

impl LearningCounters {
    /// The counters after one more completed turn.
    pub open spec fn after_turn(
        self,
        tool_iterations: u32,
        wrote_memory: bool,
        wrote_skill: bool,
    ) -> LearningCounters {
        LearningCounters {
            turns_since_memory_write: if wrote_memory {
                0
            } else {
                self.turns_since_memory_write.saturating_add(1)
            },
            iters_since_skill_write: if wrote_skill {
                0
            } else {
                self.iters_since_skill_write.saturating_add(tool_iterations)
            },
        }
    }

    /// A memory review is due.
    pub open spec fn memory_due(self, memory_interval: u32) -> bool {
        memory_interval > 0 && self.turns_since_memory_write >= memory_interval
    }

    /// A skill review is due.
    pub open spec fn skills_due(self, skill_interval: u32) -> bool {
        skill_interval > 0 && self.iters_since_skill_write >= skill_interval
    }

    /// The review that is due, if any.
    pub open spec fn review_due(self, memory_interval: u32, skill_interval: u32) -> Option<
        ReviewKind,
    > {
        if self.memory_due(memory_interval) {
            if self.skills_due(skill_interval) {
                Some(ReviewKind::Combined)
            } else {
                Some(ReviewKind::Memory)
            }
        } else if self.skills_due(skill_interval) {
            Some(ReviewKind::Skills)
        } else {
            None
        }
    }

    /// The counters once a review has been spawned.
    pub open spec fn after_review(self, kind: ReviewKind) -> LearningCounters {
        LearningCounters {
            turns_since_memory_write: if kind.covers_memory() {
                0
            } else {
                self.turns_since_memory_write
            },
            iters_since_skill_write: if kind.covers_skills() {
                0
            } else {
                self.iters_since_skill_write
            },
        }
    }

    /// Record one completed turn.
    ///
    /// `tool_iterations` is the number of tool-loop iterations the turn ran;
    /// `wrote_memory` / `wrote_skill` report foreground writes, which reset
    /// the corresponding counter (the agent already persisted its learning, so
    /// no review is needed yet).
    pub fn record_turn(&mut self, tool_iterations: u32, wrote_memory: bool, wrote_skill: bool)
        ensures
            *final(self) == old(self).after_turn(tool_iterations, wrote_memory, wrote_skill),
    {
        if wrote_memory {
            self.turns_since_memory_write = 0;
        } else {
            self.turns_since_memory_write = self.turns_since_memory_write.saturating_add(1);
        }
        if wrote_skill {
            self.iters_since_skill_write = 0;
        } else {
            self.iters_since_skill_write = self.iters_since_skill_write.saturating_add(tool_iterations);
        }
    }

    /// Which review (if any) is due. An interval of `0` disables that review.
    pub fn due(&self, memory_interval: u32, skill_interval: u32) -> (kind: Option<ReviewKind>)
        ensures
            kind == self.review_due(memory_interval, skill_interval),
    {
        let memory_due = memory_interval > 0 && self.turns_since_memory_write >= memory_interval;
        let skills_due = skill_interval > 0 && self.iters_since_skill_write >= skill_interval;
        match (memory_due, skills_due) {
            (true, true) => Some(ReviewKind::Combined),
            (true, false) => Some(ReviewKind::Memory),
            (false, true) => Some(ReviewKind::Skills),
            (false, false) => None,
        }
    }

    /// Reset the counters covered by a completed (spawned) review.
    pub fn reset_for(&mut self, kind: ReviewKind)
        ensures
            *final(self) == old(self).after_review(kind),
    {
        match kind {
            ReviewKind::Memory => {
                self.turns_since_memory_write = 0;
            },
            ReviewKind::Skills => {
                self.iters_since_skill_write = 0;
            },
            ReviewKind::Combined => {
                *self = LearningCounters::default();
            },
        }
    }
}

} // verus!
