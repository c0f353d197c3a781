//! Post-turn learning decisions.
//!
//! After each successful, persisted turn either the counter-triggered
//! self-review fork runs (learning enabled, the default) or the interval-based
//! silent memory extraction (learning disabled).

use vstd::prelude::*;

use crate::json::Json;
use crate::learning::config::LearningConfig;
use crate::learning::counters;
use crate::learning::counters::{LearningCounters, ReviewKind};
use crate::learning::review;
use crate::text;

verus! {

/// Conversation snapshot size handed to the review fork.
pub const REVIEW_WINDOW_MESSAGES: usize = 40;

/// What happens after a turn.
#[derive(Debug, Clone, Copy, PartialEq, Eq, Structural)]
pub enum LearningPath {
    /// The counter-triggered self-review.
    ReviewFork,
    /// The interval-based memory extraction.
    PeriodicExtract,
}

/// Which post-turn learning path is configured.
pub fn learning_path(config: &LearningConfig) -> (path: LearningPath)
    ensures
        path == if config.enabled {
            LearningPath::ReviewFork
        } else {
            LearningPath::PeriodicExtract
        },
{
    if config.enabled {
        LearningPath::ReviewFork
    } else {
        LearningPath::PeriodicExtract
    }
}

/// A transcript line that holds the result of a tool.
pub open spec fn tool_line(line: Json) -> bool {
    line.text_member("role"@) == Some("tool"@) || line.text_member("role"@) == Some(
        "tool_result"@,
    )
}

/// A transcript line of the assistant.
pub open spec fn assistant_line(line: Json) -> bool {
    line.text_member("role"@) == Some("assistant"@)
}

/// The calls that a transcript line lists.
pub open spec fn listed_calls(line: Json) -> Seq<Json> {
    match line.member("tool_calls"@) {
        Some(calls) => match calls.elements() {
            Some(calls) => calls,
            None => Seq::empty(),
        },
        None => Seq::empty(),
    }
}

/// The function that a call names, if it names one.
pub open spec fn called_function(call: Json) -> Option<Seq<char>> {
    match call.member("function"@) {
        Some(function) => function.text_member("name"@),
        None => None,
    }
}

/// Whether a transcript line names the tool `name`: as the one whose result it
/// holds, or as one that the assistant calls.
pub open spec fn names_tool(line: Json, name: Seq<char>) -> bool {
    ||| tool_line(line) && line.text_member("tool_name"@) == Some(name)
    ||| assistant_line(line) && exists|i: int|
        0 <= i < listed_calls(line).len() && called_function(#[trigger] listed_calls(line)[i])
            == Some(name)
}

/// Whether a transcript line names a tool that writes memory.
pub open spec fn writes_memory(line: Json) -> bool {
    exists|name: Seq<char>| #[trigger]
        names_tool(line, name) && counters::memory_write_tool(name)
}

/// Whether a transcript line names a tool that writes skills.
pub open spec fn writes_skill(line: Json) -> bool {
    exists|name: Seq<char>| #[trigger] names_tool(line, name) && counters::skill_write_tool(name)
}

/// The number of tool results among `lines`.
pub open spec fn tool_results(lines: Seq<Json>) -> int
    decreases lines.len(),
{
    if lines.len() == 0 {
        0
    } else {
        tool_results(lines.drop_last()) + if tool_line(lines.last()) {
            1int
        } else {
            0
        }
    }
}

/// The lines of a turn: those from its first one on.
pub open spec fn turn_lines(lines: Seq<Json>, from_index: usize) -> Seq<Json> {
    if from_index <= lines.len() {
        lines.skip(from_index as int)
    } else {
        Seq::empty()
    }
}

/// Tool activity in a turn.
#[derive(Debug, Clone, Copy, PartialEq, Eq, Structural)]
pub struct ToolUsage {
    pub iterations: u32,
    pub wrote_memory: bool,
    pub wrote_skill: bool,
}

impl ToolUsage {
    /// This is the tool activity of `lines`: the tool results, as many as can
    /// be counted, and whether any line names a tool that writes.
    pub open spec fn describes(self, lines: Seq<Json>) -> bool {
        &&& self.iterations == if tool_results(lines) > u32::MAX {
            u32::MAX as int
        } else {
            tool_results(lines)
        }
        &&& self.wrote_memory <==> exists|i: int|
            0 <= i < lines.len() && writes_memory(#[trigger] lines[i])
        &&& self.wrote_skill <==> exists|i: int|
            0 <= i < lines.len() && writes_skill(#[trigger] lines[i])
    }
}

/// Which stores one line writes to, as (memory, skills).
fn line_writes(line: &Json) -> (writes: (bool, bool))
    ensures
        writes.0 == writes_memory(*line),
        writes.1 == writes_skill(*line),
{
    let role = match line.get_str("role") {
        Some(role) => role,
        None => {
            assert(!tool_line(*line) && !assistant_line(*line));
            return (false, false);
        },
    };
    proof {
        reveal_strlit("tool");
        reveal_strlit("tool_result");
        reveal_strlit("assistant");
        assert("tool"@.len() != "assistant"@.len());
        assert("tool_result"@.len() != "assistant"@.len());
    }
    if text::same_text(role, "tool") || text::same_text(role, "tool_result") {
        match line.get_str("tool_name") {
            Some(name) => {
                assert(names_tool(*line, name@));
                assert(forall|other: Seq<char>|
                    #[trigger] names_tool(*line, other) ==> other == name@);
                (counters::is_memory_write_tool(name), counters::is_skill_write_tool(name))
            },
            None => {
                assert(forall|other: Seq<char>| !names_tool(*line, other));
                (false, false)
            },
        }
    } else if text::same_text(role, "assistant") {
        let calls = match line.get("tool_calls") {
            Some(calls) => match calls.as_array() {
                Some(calls) => calls,
                None => {
                    assert(forall|other: Seq<char>| !names_tool(*line, other));
                    return (false, false);
                },
            },
            None => {
                assert(forall|other: Seq<char>| !names_tool(*line, other));
                return (false, false);
            },
        };
        let mut memory = false;
        let mut skills = false;
        for i in 0..calls.len()
            invariant
                assistant_line(*line),
                !tool_line(*line),
                calls@ == listed_calls(*line),
                memory <==> exists|j: int|
                    0 <= j < i && (called_function(#[trigger] calls@[j]) matches Some(name)
                        && counters::memory_write_tool(name)),
                skills <==> exists|j: int|
                    0 <= j < i && (called_function(#[trigger] calls@[j]) matches Some(name)
                        && counters::skill_write_tool(name)),
        {
            let name = match calls[i].get("function") {
                Some(function) => function.get_str("name"),
                None => None,
            };
            match name {
                Some(name) => {
                    if counters::is_memory_write_tool(name) {
                        memory = true;
                    }
                    if counters::is_skill_write_tool(name) {
                        skills = true;
                    }
                    assert(called_function(calls@[i as int]) == Some(name@));
                },
                None => {
                    assert(called_function(calls@[i as int]) is None);
                },
            }
        }
        proof {
            lemma_called_tools(*line);
        }
        (memory, skills)
    } else {
        assert(!tool_line(*line) && !assistant_line(*line));
        (false, false)
    }
}

/// A line of the assistant writes where one of its calls does.
proof fn lemma_called_tools(line: Json)
    requires
        assistant_line(line),
        !tool_line(line),
    ensures
        writes_memory(line) <==> exists|j: int|
            0 <= j < listed_calls(line).len() && (called_function(
                #[trigger] listed_calls(line)[j],
            ) matches Some(name) && counters::memory_write_tool(name)),
        writes_skill(line) <==> exists|j: int|
            0 <= j < listed_calls(line).len() && (called_function(
                #[trigger] listed_calls(line)[j],
            ) matches Some(name) && counters::skill_write_tool(name)),
{
    let calls = listed_calls(line);
    if exists|j: int|
        0 <= j < calls.len() && (called_function(#[trigger] calls[j]) matches Some(name)
            && counters::memory_write_tool(name)) {
        let j = choose|j: int|
            0 <= j < calls.len() && (called_function(#[trigger] calls[j]) matches Some(name)
                && counters::memory_write_tool(name));
        assert(names_tool(line, called_function(calls[j])->0));
    }
    if exists|j: int|
        0 <= j < calls.len() && (called_function(#[trigger] calls[j]) matches Some(name)
            && counters::skill_write_tool(name)) {
        let j = choose|j: int|
            0 <= j < calls.len() && (called_function(#[trigger] calls[j]) matches Some(name)
                && counters::skill_write_tool(name));
        assert(names_tool(line, called_function(calls[j])->0));
    }
}

fn is_tool_line(line: &Json) -> (answer: bool)
    ensures
        answer == tool_line(*line),
{
    match line.get_str("role") {
        Some(role) => text::same_text(role, "tool") || text::same_text(role, "tool_result"),
        None => false,
    }
}

/// Tool activity in this turn, derived from the persisted transcript tail.
///
/// Iterations are counted from tool-result lines; write classification also
/// scans the assistant's calls. A foreground write attempt counts as a write
/// even if the tool errored: the agent was already engaging with the store.
pub fn turn_tool_usage(lines: &Vec<Json>, from_index: usize) -> (usage: ToolUsage)
    ensures
        usage.describes(turn_lines(lines@, from_index)),
{
    let mut usage = ToolUsage { iterations: 0, wrote_memory: false, wrote_skill: false };
    if from_index > lines.len() {
        return usage;
    }
    let ghost turn = turn_lines(lines@, from_index);
    for i in from_index..lines.len()
        invariant
            from_index <= lines@.len(),
            turn == lines@.skip(from_index as int),
            usage.describes(turn.take(i - from_index)),
    {
        let ghost before = turn.take(i - from_index);
        let ghost after = turn.take(i - from_index + 1);
        let (memory, skills) = line_writes(&lines[i]);
        let ghost usage_before = usage;
        if is_tool_line(&lines[i]) {
            usage.iterations = usage.iterations.saturating_add(1);
        }
        usage.wrote_memory = usage.wrote_memory || memory;
        usage.wrote_skill = usage.wrote_skill || skills;
        proof {
            assert(after.drop_last() =~= before);
            assert(after.last() == lines@[i as int]);
            lemma_describes_push(usage_before, usage, before, lines@[i as int]);
            assert(before.push(lines@[i as int]) =~= after);
        }
    }
    assert(turn.take(lines@.len() - from_index) =~= turn);
    usage
}

proof fn lemma_describes_push(before: ToolUsage, after: ToolUsage, lines: Seq<Json>, line: Json)
    requires
        before.describes(lines),
        after.iterations == if tool_line(line) {
            before.iterations.saturating_add(1)
        } else {
            before.iterations
        },
        after.wrote_memory == (before.wrote_memory || writes_memory(line)),
        after.wrote_skill == (before.wrote_skill || writes_skill(line)),
    ensures
        after.describes(lines.push(line)),
{
    let longer = lines.push(line);
    assert(longer.drop_last() =~= lines);
    assert(longer[lines.len() as int] == line);
    if before.wrote_memory {
        let i = choose|i: int| 0 <= i < lines.len() && writes_memory(#[trigger] lines[i]);
        assert(longer[i] == lines[i]);
    }
    if before.wrote_skill {
        let i = choose|i: int| 0 <= i < lines.len() && writes_skill(#[trigger] lines[i]);
        assert(longer[i] == lines[i]);
    }
    if exists|i: int| 0 <= i < longer.len() && writes_memory(#[trigger] longer[i]) {
        let i = choose|i: int| 0 <= i < longer.len() && writes_memory(#[trigger] longer[i]);
        if i < lines.len() {
            assert(writes_memory(lines[i]));
        }
    }
    if exists|i: int| 0 <= i < longer.len() && writes_skill(#[trigger] longer[i]) {
        let i = choose|i: int| 0 <= i < longer.len() && writes_skill(#[trigger] longer[i]);
        if i < lines.len() {
            assert(writes_skill(lines[i]));
        }
    }
}

/// What follows from a turn: the counters to keep, and the review to spawn.
#[derive(Debug, Clone, Copy, PartialEq, Eq, Structural)]
pub struct TurnDecision {
    pub counters: LearningCounters,
    pub review: Option<ReviewKind>,
}

/// The decision after a turn with the given tool activity. A review that is
/// due is spawned where the fork has a tool to call, and resets what it
/// covers; without a tool it stays due.
pub open spec fn decision_of(
    counters: LearningCounters,
    usage: ToolUsage,
    config: LearningConfig,
    has_tools: bool,
) -> TurnDecision {
    let recorded = counters.after_turn(usage.iterations, usage.wrote_memory, usage.wrote_skill);
    match recorded.review_due(config.memory_review_interval, config.skill_review_interval) {
        Some(kind) => if has_tools {
            TurnDecision { counters: recorded.after_review(kind), review: Some(kind) }
        } else {
            TurnDecision { counters: recorded, review: None }
        },
        None => TurnDecision { counters: recorded, review: None },
    }
}

/// Decide what follows from a turn.
///
/// `lines` is the transcript with the turn, `user_message_index` the line at
/// which the turn starts, `registered` the tools of the turn.
pub fn decide(
    counters: LearningCounters,
    lines: &Vec<Json>,
    user_message_index: usize,
    config: &LearningConfig,
    registered: &Vec<String>,
) -> (decision: TurnDecision)
    ensures
        exists|usage: ToolUsage|
            {
                &&& #[trigger] usage.describes(turn_lines(lines@, user_message_index))
                &&& decision == decision_of(
                    counters,
                    usage,
                    *config,
                    review::fork_tools(text::views(registered@)).len() > 0,
                )
            },
{
    let usage = turn_tool_usage(lines, user_message_index);
    let mut counters = counters;
    counters.record_turn(usage.iterations, usage.wrote_memory, usage.wrote_skill);
    match counters.due(config.memory_review_interval, config.skill_review_interval) {
        Some(kind) => {
            let tools = review::allowed_tools(registered);
            assert(text::views(tools@).len() == tools@.len());
            if tools.len() == 0 {
                TurnDecision { counters, review: None }
            } else {
                counters.reset_for(kind);
                TurnDecision { counters, review: Some(kind) }
            }
        },
        None => TurnDecision { counters, review: None },
    }
}

/// The index of the first of the last `window` of `len` messages.
pub open spec fn tail_start(len: int, window: int) -> int {
    if len <= window {
        0
    } else {
        len - window
    }
}

/// Where the conversation snapshot of a review starts in a transcript of `len`
/// messages.
pub fn review_window_start(len: usize) -> (start: usize)
    ensures
        start == tail_start(len as int, REVIEW_WINDOW_MESSAGES as int),
{
    len.saturating_sub(REVIEW_WINDOW_MESSAGES)
}

/// A skill of the library.
#[derive(Debug, Clone)]
pub struct SkillMetadata {
    pub name: String,
    pub description: String,
}

/// The line of the catalog that shows a skill.
pub open spec fn skill_line(skill: SkillMetadata) -> Seq<char> {
    "- "@ + skill.name@ + ": "@ + skill.description@
}

/// The catalog of a list of skills.
pub open spec fn catalog_of(skills: Seq<SkillMetadata>) -> Seq<char> {
    text::joined(skills.map_values(|skill: SkillMetadata| skill_line(skill)), "\n"@)
}

/// The skill catalog shown to the fork; `None` without skills.
pub fn skills_index(skills: &Vec<SkillMetadata>) -> (index: Option<String>)
    ensures
        match index {
            Some(index) => skills@.len() > 0 && index@ == catalog_of(skills@),
            None => skills@.len() == 0,
        },
{
    if skills.len() == 0 {
        return None;
    }
    let ghost expected = skills@.map_values(|skill: SkillMetadata| skill_line(skill));
    let mut lines: Vec<String> = Vec::new();
    assert(text::views(lines@) =~= expected.take(0));
    for i in 0..skills.len()
        invariant
            expected == skills@.map_values(|skill: SkillMetadata| skill_line(skill)),
            text::views(lines@) == expected.take(i as int),
    {
        let ghost so_far = lines@;
        let mut line = "- ".to_owned();
        line.append(skills[i].name.as_str());
        line.append(": ");
        line.append(skills[i].description.as_str());
        lines.push(line);
        assert(text::views(lines@) =~= text::views(so_far).push(expected[i as int]));
        assert(expected.take(i + 1) =~= expected.take(i as int).push(expected[i as int]));
    }
    assert(expected.take(expected.len() as int) =~= expected);
    Some(text::join(&lines, "\n"))
}

/// The number of completed turns among `message_count` messages: a turn is a
/// user message and an answer.
pub open spec fn turn_number(message_count: u32) -> u32 {
    message_count / 2
}

/// A periodic extraction is due at every `interval`-th turn, where memory may
/// be written. An interval of `0` disables it.
pub open spec fn extraction_due(interval: u32, message_count: u32, may_save: bool) -> bool {
    &&& interval > 0
    &&& turn_number(message_count) > 0
    &&& turn_number(message_count) % interval == 0
    &&& may_save
}

/// Whether a periodic memory extraction is due.
pub fn extract_due(interval: u32, message_count: u32, may_save: bool) -> (due: bool)
    ensures
        due == extraction_due(interval, message_count, may_save),
{
    let turn: u32 = message_count / 2;
    interval > 0 && turn > 0 && turn % interval == 0 && may_save
}

/// Where the part of a history of `len` messages starts that an extraction
/// reads: as many messages as `interval` turns hold. `None` where that part is
/// empty, and nothing is extracted.
pub fn extract_window_start(len: usize, interval: u32) -> (start: Option<usize>)
    ensures
        start == if len == 0 || interval == 0 {
            None::<usize>
        } else {
            Some(tail_start(len as int, interval * 2) as usize)
        },
{
    let window: u64 = interval as u64 * 2;
    if len == 0 || interval == 0 {
        None
    } else if len as u64 <= window {
        Some(0)
    } else {
        Some(len - window as usize)
    }
}

} // verus!
