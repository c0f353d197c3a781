//! What holds of every review run and of every decision to spawn one.

use vstd::prelude::*;

use crate::json::Json;
use crate::learning::config::LearningConfig;
use crate::learning::counters;
use crate::learning::counters::{LearningCounters, ReviewKind};
use crate::learning::post_turn;
use crate::learning::post_turn::ToolUsage;
use crate::learning::review;
use crate::learning::review::{ReviewActionView, ReviewRecorderView, RunnerEvent};

verus! {

/// Every tool that a review may call reads, or writes memory, or writes skills
/// without deleting any.
pub proof fn review_tools_are_harmless(name: Seq<char>)
    requires
        review::review_tool(name),
    ensures
        review::read_tool(name) || counters::memory_write_tool(name) || counters::skill_write_tool(
            name,
        ),
        name != "delete_skill"@,
{
    reveal_strlit("delete_skill");
    reveal_strlit("memory_save");
    reveal_strlit("memory_search");
    reveal_strlit("memory_get");
    reveal_strlit("memory_delete");
    reveal_strlit("read_skill");
    reveal_strlit("create_skill");
    reveal_strlit("update_skill");
    reveal_strlit("patch_skill");
    reveal_strlit("write_skill_files");
    assert("delete_skill"@[0] == 'd');
    assert(name[0] != 'd');
}

/// The fork has exactly the registered tools that it may call: everything else
/// is stripped.
pub proof fn fork_has_exactly_the_allowed_tools(registered: Seq<Seq<char>>, name: Seq<char>)
    ensures
        review::fork_tools(registered).contains(name) <==> registered.contains(name)
            && review::review_tool(name),
    decreases registered.len(),
{
    reveal(Seq::filter);
    let tools = review::fork_tools(registered);
    if registered.len() > 0 {
        let rest = registered.drop_last();
        let before = review::fork_tools(rest);
        fork_has_exactly_the_allowed_tools(rest, name);
        if registered.contains(name) {
            let i = choose|i: int| 0 <= i < registered.len() && registered[i] == name;
            if i < rest.len() {
                assert(rest[i] == name);
            }
        }
        if rest.contains(name) {
            let i = choose|i: int| 0 <= i < rest.len() && rest[i] == name;
            assert(registered[i] == name);
        }
        assert(registered[registered.len() - 1] == registered.last());
        if before.contains(name) {
            let i = choose|i: int| 0 <= i < before.len() && before[i] == name;
            assert(tools[i] == name);
        }
        if tools.contains(name) {
            let i = choose|i: int| 0 <= i < tools.len() && tools[i] == name;
            if i < before.len() {
                assert(before[i] == name);
            }
        }
        if review::review_tool(registered.last()) {
            assert(tools[before.len() as int] == registered.last());
        }
    }
}

/// What a recorder holds after a run of events.
pub open spec fn recorded(events: Seq<RunnerEvent>) -> ReviewRecorderView
    decreases events.len(),
{
    if events.len() == 0 {
        ReviewRecorderView::initial()
    } else {
        recorded(events.drop_last()).after(events.last())
    }
}

/// Event `i` starts the call `id` of the tool `tool`.
pub open spec fn starts(
    events: Seq<RunnerEvent>,
    i: int,
    id: Seq<char>,
    tool: Seq<char>,
) -> bool {
    &&& 0 <= i < events.len()
    &&& events[i] matches RunnerEvent::ToolCallStart { id: started, name, .. }
    &&& started@ == id
    &&& name@ == tool
}

/// Event `j` ends the call `id` with success.
pub open spec fn succeeds(events: Seq<RunnerEvent>, j: int, id: Seq<char>) -> bool {
    &&& 0 <= j < events.len()
    &&& events[j] matches RunnerEvent::ToolCallEnd { id: ended, success }
    &&& ended@ == id
    &&& success
}

/// A call `id` of the tool `tool` starts and later ends with success.
pub open spec fn completed(events: Seq<RunnerEvent>, id: Seq<char>, tool: Seq<char>) -> bool {
    exists|i: int, j: int|
        i < j && #[trigger] starts(events, i, id, tool) && #[trigger] succeeds(events, j, id)
}

/// Only successful writes are reported: each recorded action is a call that
/// started and then ended with success, of a tool that does not only read.
pub proof fn actions_are_successful_writes(events: Seq<RunnerEvent>, k: int)
    requires
        0 <= k < recorded(events).actions.len(),
    ensures
        !review::read_tool(recorded(events).actions[k].tool),
        exists|id: Seq<char>| #[trigger]
            completed(events, id, recorded(events).actions[k].tool),
    decreases events.len(),
{
    let rest = events.drop_last();
    let before = recorded(rest);
    let last = events.len() - 1;
    if k < before.actions.len() {
        actions_are_successful_writes(rest, k);
        let tool = before.actions[k].tool;
        assert(recorded(events).actions[k] == before.actions[k]);
        let id = choose|id: Seq<char>| #[trigger] completed(rest, id, tool);
        let (i, j) = choose|i: int, j: int|
            i < j && #[trigger] starts(rest, i, id, tool) && #[trigger] succeeds(rest, j, id);
        assert(rest[i] == events[i]);
        assert(rest[j] == events[j]);
        assert(starts(events, i, id, tool));
        assert(succeeds(events, j, id));
        assert(completed(events, id, tool));
    } else {
        let id = match events.last() {
            RunnerEvent::ToolCallEnd { id, success } => id@,
            _ => Seq::empty(),
        };
        assert(before.pending.dom().contains(id));
        lemma_pending_started(rest, id);
        let tool = before.pending[id].tool;
        let i = choose|i: int| #[trigger] starts(rest, i, id, tool);
        assert(rest[i] == events[i]);
        assert(starts(events, i, id, tool));
        assert(succeeds(events, last, id));
        assert(completed(events, id, tool));
    }
}

/// A pending call has started.
proof fn lemma_pending_started(events: Seq<RunnerEvent>, id: Seq<char>)
    requires
        recorded(events).pending.dom().contains(id),
    ensures
        exists|i: int| #[trigger] starts(events, i, id, recorded(events).pending[id].tool),
    decreases events.len(),
{
    if events.len() > 0 {
        let rest = events.drop_last();
        let before = recorded(rest);
        let tool = recorded(events).pending[id].tool;
        let started_now = events.last() matches RunnerEvent::ToolCallStart { id: started, .. }
            && started@ == id;
        if started_now {
            assert(starts(events, events.len() - 1, id, tool));
        } else {
            assert(before.pending.dom().contains(id));
            assert(before.pending[id] == recorded(events).pending[id]);
            lemma_pending_started(rest, id);
            let i = choose|i: int| #[trigger] starts(rest, i, id, tool);
            assert(rest[i] == events[i]);
            assert(starts(events, i, id, tool));
        }
    }
}

/// Event `k` is about the call `id`.
pub open spec fn concerns(events: Seq<RunnerEvent>, k: int, id: Seq<char>) -> bool {
    match events[k] {
        RunnerEvent::ToolCallStart { id: started, .. } => started@ == id,
        RunnerEvent::ToolCallEnd { id: ended, .. } => ended@ == id,
        RunnerEvent::Other => false,
    }
}

/// Nothing that was recorded is lost: more events only add actions.
pub proof fn recorded_actions_are_kept(events: Seq<RunnerEvent>, n: int)
    requires
        0 <= n <= events.len(),
    ensures
        recorded(events.take(n)).actions.is_prefix_of(recorded(events).actions),
    decreases events.len(),
{
    if n == events.len() {
        assert(events.take(n) =~= events);
    } else {
        let rest = events.drop_last();
        recorded_actions_are_kept(rest, n);
        assert(rest.take(n) =~= events.take(n));
        let first = recorded(events.take(n)).actions;
        let (before, after) = (recorded(rest).actions, recorded(events).actions);
        assert(before.subrange(0, first.len() as int) =~= after.subrange(0, first.len() as int));
    }
}

/// Every successful write is reported: a call of a tool that does not only
/// read, which starts and then ends with success, is among the actions, as the
/// call was summarized when it started.
pub proof fn successful_writes_are_reported(
    events: Seq<RunnerEvent>,
    i: int,
    j: int,
    id: Seq<char>,
    tool: Seq<char>,
)
    requires
        i < j,
        starts(events, i, id, tool),
        succeeds(events, j, id),
        forall|k: int| i < k < j ==> !#[trigger] concerns(events, k, id),
        !review::read_tool(tool),
    ensures
        events[i] matches RunnerEvent::ToolCallStart { arguments, .. } && recorded(
            events,
        ).actions.contains(
            ReviewActionView { tool, detail: review::detail_of(tool, arguments) },
        ),
{
    lemma_call_stays_pending(events, i, j, id, tool);
    let action = recorded(events.take(j)).pending[id];
    let ended = recorded(events.take(j + 1));
    assert(events.take(j + 1).drop_last() =~= events.take(j));
    assert(ended.actions.last() == action);
    recorded_actions_are_kept(events, j + 1);
    let at = ended.actions.len() - 1;
    let actions = recorded(events).actions;
    assert(ended.actions[at] == action);
    assert(actions.subrange(0, ended.actions.len() as int)[at] == actions[at]);
}

/// A call that has started stays pending while no event is about it.
proof fn lemma_call_stays_pending(
    events: Seq<RunnerEvent>,
    i: int,
    j: int,
    id: Seq<char>,
    tool: Seq<char>,
)
    requires
        i < j <= events.len(),
        starts(events, i, id, tool),
        forall|k: int| i < k < j ==> !#[trigger] concerns(events, k, id),
    ensures
        recorded(events.take(j)).pending.dom().contains(id),
        events[i] matches RunnerEvent::ToolCallStart { arguments, .. } && recorded(
            events.take(j),
        ).pending[id] == (ReviewActionView {
            tool,
            detail: review::detail_of(tool, arguments),
        }),
    decreases j - i,
{
    assert(events.take(j).drop_last() =~= events.take(j - 1));
    assert(events.take(j).last() == events[j - 1]);
    if i < j - 1 {
        lemma_call_stays_pending(events, i, j - 1, id, tool);
        assert(!concerns(events, j - 1, id));
    }
}

/// In a run of the fork, where only allowed tools can be called, every
/// reported action wrote to memory or to a skill.
pub proof fn reported_actions_are_learning(events: Seq<RunnerEvent>, k: int)
    requires
        0 <= k < recorded(events).actions.len(),
        forall|i: int|
            0 <= i < events.len() ==> (#[trigger] events[i] matches RunnerEvent::ToolCallStart {
                name,
                ..
            } ==> review::review_tool(name@)),
    ensures
        counters::memory_write_tool(recorded(events).actions[k].tool)
            || counters::skill_write_tool(recorded(events).actions[k].tool),
{
    let tool = recorded(events).actions[k].tool;
    actions_are_successful_writes(events, k);
    let id = choose|id: Seq<char>| #[trigger] completed(events, id, tool);
    let (i, j) = choose|i: int, j: int|
        i < j && #[trigger] starts(events, i, id, tool) && #[trigger] succeeds(events, j, id);
    assert(review::review_tool(tool));
    review_tools_are_harmless(tool);
}

/// The tool activity of a turn does not depend on what came before the turn.
pub proof fn earlier_lines_do_not_count(earlier: Seq<Json>, turn: Seq<Json>, usage: ToolUsage)
    requires
        earlier.len() <= usize::MAX,
    ensures
        usage.describes(post_turn::turn_lines(earlier + turn, earlier.len() as usize))
            <==> usage.describes(turn),
{
    assert((earlier + turn).skip(earlier.len() as int) =~= turn);
}

/// The tool activity of a turn is determined by its lines.
pub proof fn usage_is_determined(lines: Seq<Json>, left: ToolUsage, right: ToolUsage)
    requires
        left.describes(lines),
        right.describes(lines),
    ensures
        left == right,
{
}

/// A review is spawned exactly when one is due after the turn and the fork has
/// a tool to call. It then clears the counters of what it covers, no others, and
/// is not due again; otherwise nothing is reset.
pub proof fn spawned_exactly_when_due(
    counters: LearningCounters,
    usage: ToolUsage,
    config: LearningConfig,
    has_tools: bool,
)
    ensures
        ({
            let recorded = counters.after_turn(
                usage.iterations,
                usage.wrote_memory,
                usage.wrote_skill,
            );
            let due = recorded.review_due(
                config.memory_review_interval,
                config.skill_review_interval,
            );
            let decision = post_turn::decision_of(counters, usage, config, has_tools);
            &&& has_tools ==> decision.review == due
            &&& !has_tools ==> decision.review is None
            &&& decision.review is Some ==> decision.counters.review_due(
                config.memory_review_interval,
                config.skill_review_interval,
            ) is None
            &&& decision.review is None ==> decision.counters == recorded
            &&& decision.review matches Some(kind) ==> {
                &&& decision.counters.turns_since_memory_write == if kind == ReviewKind::Skills {
                    recorded.turns_since_memory_write
                } else {
                    0
                }
                &&& decision.counters.iters_since_skill_write == if kind == ReviewKind::Memory {
                    recorded.iters_since_skill_write
                } else {
                    0
                }
            }
        }),
{
}

/// No review of a store is spawned after a turn that wrote to that store.
pub proof fn no_review_after_a_foreground_write(
    counters: LearningCounters,
    usage: ToolUsage,
    config: LearningConfig,
    has_tools: bool,
)
    ensures
        post_turn::decision_of(counters, usage, config, has_tools).review matches Some(kind) ==> {
            &&& usage.wrote_memory ==> !kind.covers_memory()
            &&& usage.wrote_skill ==> !kind.covers_skills()
        },
{
}

/// The fork's tools stand in the order in which they are registered: two lists
/// give the tools of each.
pub proof fn fork_tools_stand_as_registered(
    left: Seq<Seq<char>>,
    right: Seq<Seq<char>>,
    name: Seq<char>,
)
    ensures
        review::fork_tools(seq![name]) == if review::review_tool(name) {
            seq![name]
        } else {
            Seq::empty()
        },
        review::fork_tools(left + right) == review::fork_tools(left) + review::fork_tools(right),
    decreases right.len(),
{
    reveal(Seq::filter);
    let empty = Seq::<Seq<char>>::empty();
    assert(seq![name].drop_last() =~= empty);
    assert(review::fork_tools(empty) =~= empty);
    assert(review::fork_tools(seq![name]) =~= if review::review_tool(name) {
        seq![name]
    } else {
        Seq::empty()
    });
    if right.len() == 0 {
        assert(left + right =~= left);
        assert(review::fork_tools(left) + review::fork_tools(right) =~= review::fork_tools(left));
    } else {
        fork_tools_stand_as_registered(left, right.drop_last(), name);
        assert((left + right).drop_last() =~= left + right.drop_last());
        assert(review::fork_tools(left + right) =~= review::fork_tools(left) + review::fork_tools(
            right,
        ));
    }
}

/// One event adds at most one action, and only the end of a call with success
/// adds one.
pub proof fn one_action_per_successful_end(events: Seq<RunnerEvent>, event: RunnerEvent)
    ensures
        ({
            let before = recorded(events).actions;
            let after = recorded(events.push(event)).actions;
            &&& before.is_prefix_of(after)
            &&& after.len() <= before.len() + 1
            &&& !(event matches RunnerEvent::ToolCallEnd { success, .. } && success) ==> after
                == before
        }),
{
    assert(events.push(event).drop_last() =~= events);
    let before = recorded(events).actions;
    assert(recorded(events.push(event)).actions.subrange(0, before.len() as int) =~= before);
}

/// `call` is a call of the tool `name`.
pub open spec fn calls_tool(call: Json, name: Seq<char>) -> bool {
    match call.member("function"@) {
        Some(function) => function.text_member("name"@) == Some(name),
        None => false,
    }
}

/// A transcript line names a tool where it holds that tool's result, or where it
/// is the assistant's and lists a call of it, anywhere among its calls.
pub proof fn tools_are_named_by_results_and_calls(line: Json, name: Seq<char>)
    ensures
        post_turn::names_tool(line, name) <==> {
            ||| {
                &&& line.text_member("role"@) == Some("tool"@) || line.text_member("role"@) == Some(
                    "tool_result"@,
                )
                &&& line.text_member("tool_name"@) == Some(name)
            }
            ||| {
                &&& line.text_member("role"@) == Some("assistant"@)
                &&& line.member("tool_calls"@) matches Some(Json::Array(calls))
                &&& exists|i: int|
                    0 <= i < calls@.len() && calls_tool(#[trigger] calls@[i], name)
            }
        },
{
    let calls = post_turn::listed_calls(line);
    if post_turn::assistant_line(line) {
        if exists|i: int|
            0 <= i < calls.len() && post_turn::called_function(#[trigger] calls[i]) == Some(name) {
            let i = choose|i: int|
                0 <= i < calls.len() && post_turn::called_function(#[trigger] calls[i]) == Some(
                    name,
                );
            assert(line.member("tool_calls"@) is Some);
            assert(calls[i].member("function"@) is Some);
        }
        if line.member("tool_calls"@) matches Some(Json::Array(list)) && exists|i: int|
            0 <= i < list@.len() && calls_tool(#[trigger] list@[i], name) {
            let list = line.member("tool_calls"@)->0->Array_0@;
            let i = choose|i: int|
                0 <= i < list.len() && calls_tool(#[trigger] list[i], name);
            assert(post_turn::called_function(calls[i]) == Some(name));
        }
    }
}

/// A turn wrote memory exactly where one of its lines names a tool that writes
/// memory, and likewise skills; its iterations are its tool results, as many as
/// can be counted.
pub proof fn turn_wrote_what_its_lines_name(lines: Seq<Json>, usage: ToolUsage)
    requires
        usage.describes(lines),
    ensures
        usage.wrote_memory <==> exists|i: int, name: Seq<char>|
            0 <= i < lines.len() && #[trigger] post_turn::names_tool(lines[i], name) && (name
                == "memory_save"@ || name == "memory_delete"@ || name == "memory_forget"@),
        usage.wrote_skill <==> exists|i: int, name: Seq<char>|
            0 <= i < lines.len() && #[trigger] post_turn::names_tool(lines[i], name) && (name
                == "create_skill"@ || name == "update_skill"@ || name == "patch_skill"@ || name
                == "write_skill_files"@ || name == "delete_skill"@),
        usage.iterations == if post_turn::tool_results(lines) > u32::MAX {
            u32::MAX as int
        } else {
            post_turn::tool_results(lines)
        },
{
    if usage.wrote_memory {
        let i = choose|i: int|
            0 <= i < lines.len() && post_turn::writes_memory(#[trigger] lines[i]);
        let name = choose|name: Seq<char>| #[trigger]
            post_turn::names_tool(lines[i], name) && counters::memory_write_tool(name);
        assert(post_turn::names_tool(lines[i], name));
    }
    if usage.wrote_skill {
        let i = choose|i: int|
            0 <= i < lines.len() && post_turn::writes_skill(#[trigger] lines[i]);
        let name = choose|name: Seq<char>| #[trigger]
            post_turn::names_tool(lines[i], name) && counters::skill_write_tool(name);
        assert(post_turn::names_tool(lines[i], name));
    }
    assert forall|i: int, name: Seq<char>|
        0 <= i < lines.len() && #[trigger] post_turn::names_tool(lines[i], name)
            && counters::memory_write_tool(name) implies usage.wrote_memory by {
        assert(post_turn::writes_memory(lines[i]));
    }
    assert forall|i: int, name: Seq<char>|
        0 <= i < lines.len() && #[trigger] post_turn::names_tool(lines[i], name)
            && counters::skill_write_tool(name) implies usage.wrote_skill by {
        assert(post_turn::writes_skill(lines[i]));
    }
}

/// Tool results are counted one by one: a line counts exactly where its role is
/// that of a tool result, and two lists count as each does.
pub proof fn tool_results_are_counted(left: Seq<Json>, right: Seq<Json>, line: Json)
    ensures
        post_turn::tool_results(Seq::empty()) == 0,
        post_turn::tool_results(seq![line]) == if line.text_member("role"@) == Some("tool"@)
            || line.text_member("role"@) == Some("tool_result"@) {
            1int
        } else {
            0
        },
        post_turn::tool_results(left + right) == post_turn::tool_results(left)
            + post_turn::tool_results(right),
    decreases right.len(),
{
    assert(seq![line].drop_last() =~= Seq::<Json>::empty());
    assert(post_turn::tool_results(Seq::<Json>::empty()) == 0);
    if right.len() == 0 {
        assert(left + right =~= left);
    } else {
        tool_results_are_counted(left, right.drop_last(), line);
        assert((left + right).drop_last() =~= left + right.drop_last());
    }
}

/// A turn that starts beyond the end of the transcript has no lines.
pub proof fn turn_beyond_the_end_is_empty(lines: Seq<Json>, from_index: usize)
    requires
        from_index >= lines.len(),
    ensures
        post_turn::turn_lines(lines, from_index).len() == 0,
{
}

/// What is read of a history is its tail: all of it where it is short, else
/// exactly as many messages as the window holds.
pub proof fn window_is_the_tail(len: int, window: int)
    requires
        0 <= len,
        0 <= window,
    ensures
        0 <= post_turn::tail_start(len, window) <= len,
        len - post_turn::tail_start(len, window) <= window,
        post_turn::tail_start(len, window) > 0 ==> len - post_turn::tail_start(len, window)
            == window,
{
}

/// An extraction is due after every `interval` turns of two messages each, where
/// memory may be saved, and at no other time.
pub proof fn extraction_comes_with_every_interval(
    interval: u32,
    message_count: u32,
    may_save: bool,
)
    ensures
        post_turn::extraction_due(interval, message_count, may_save) <==> {
            &&& may_save
            &&& interval > 0
            &&& exists|k: int|
                k > 0 && #[trigger] (k * interval) * 2 <= message_count < (k * interval) * 2 + 2
        },
{
    let turn = message_count as int / 2;
    if interval > 0 {
        let q = turn / (interval as int);
        assert(turn == q * interval + turn % (interval as int)) by (nonlinear_arith)
            requires
                interval > 0,
                q == turn / (interval as int),
        ;
        if post_turn::extraction_due(interval, message_count, may_save) {
            assert(turn == q * interval);
            assert(q > 0) by (nonlinear_arith)
                requires
                    turn == q * interval,
                    turn > 0,
                    interval > 0,
            ;
        }
        assert forall|k: int|
            k > 0 && #[trigger] (k * interval) * 2 <= message_count < (k * interval) * 2
                + 2 implies turn > 0 && turn % (interval as int) == 0 by {
            assert(turn == k * interval);
            assert(turn > 0) by (nonlinear_arith)
                requires
                    turn == k * interval,
                    k > 0,
                    interval > 0,
            ;
            assert((k * interval) % (interval as int) == 0) by (nonlinear_arith)
                requires
                    interval > 0,
            ;
        }
    }
}

/// A call is reported once at most: the end of a call that has not started since
/// its last end, or has not started at all, adds no action.
pub proof fn ended_calls_are_forgotten(
    events: Seq<RunnerEvent>,
    from: int,
    id: String,
    success: bool,
)
    requires
        0 <= from <= events.len(),
        from == 0 || (events[from - 1] matches RunnerEvent::ToolCallEnd { id: ended, .. } && ended@
            == id@),
        forall|k: int| from <= k < events.len() ==> !#[trigger] concerns(events, k, id@),
    ensures
        recorded(events.push(RunnerEvent::ToolCallEnd { id, success })).actions == recorded(
            events,
        ).actions,
{
    lemma_nothing_pending(events, from, id@);
    let event = RunnerEvent::ToolCallEnd { id, success };
    assert(events.push(event).drop_last() =~= events);
}

proof fn lemma_nothing_pending(events: Seq<RunnerEvent>, from: int, id: Seq<char>)
    requires
        0 <= from <= events.len(),
        from == 0 || (events[from - 1] matches RunnerEvent::ToolCallEnd { id: ended, .. } && ended@
            == id),
        forall|k: int| from <= k < events.len() ==> !#[trigger] concerns(events, k, id),
    ensures
        !recorded(events).pending.dom().contains(id),
    decreases events.len(),
{
    if events.len() > from {
        let rest = events.drop_last();
        let last = events.len() - 1;
        assert(!concerns(events, last, id));
        assert forall|k: int| from <= k < rest.len() implies !#[trigger] concerns(
            rest,
            k,
            id,
        ) by {
            assert(rest[k] == events[k]);
            assert(!concerns(events, k, id));
        }
        if from > 0 {
            assert(rest[from - 1] == events[from - 1]);
        }
        lemma_nothing_pending(rest, from, id);
    }
}

} // verus!
