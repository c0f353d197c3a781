use moltis::json::{Json, Member};
use moltis::learning::config::LearningConfig;
use moltis::learning::counters::{
    is_memory_write_tool, is_skill_write_tool, memory_write_tools, skill_write_tools,
    LearningCounters, ReviewKind,
};
use moltis::learning::post_turn::{
    decide, extract_due, extract_window_start, learning_path, review_window_start, skills_index,
    turn_tool_usage, LearningPath, SkillMetadata, ToolUsage, REVIEW_WINDOW_MESSAGES,
};
use moltis::learning::prompts::{
    review_prompt, COMBINED_REVIEW_SUFFIX, MEMORY_REVIEW_PROMPT, RUNTIME_ADDENDUM,
    SKILL_REVIEW_PROMPT,
};
use moltis::learning::review::{
    allowed_tools, format_transcript, is_read_tool, is_review_tool, plan_review,
    review_tool_allowlist, summarize_arguments, ChatMessage, ReviewAction, ReviewOutcome, ReviewRecorder, RunnerEvent,
    UserContent, DEFAULT_REVIEW_MAX_ITERATIONS, REVIEW_SYSTEM_PROMPT,
};

fn text(value: &str) -> Json {
    Json::Text(value.to_string())
}

fn object(members: Vec<(&str, Json)>) -> Json {
    Json::Object(
        members
            .into_iter()
            .map(|(key, value)| Member { key: key.to_string(), value })
            .collect(),
    )
}

fn msg(role: &str, extra: Vec<(&str, Json)>) -> Json {
    let mut members = vec![("role", text(role)), ("content", text("x"))];
    members.extend(extra);
    object(members)
}

fn names(list: &[&str]) -> Vec<String> {
    list.iter().map(|name| name.to_string()).collect()
}

fn counters(turns: u32, iterations: u32) -> LearningCounters {
    LearningCounters { turns_since_memory_write: turns, iters_since_skill_write: iterations }
}

// Counters.

#[test]
fn counters_accumulate_and_reset_on_foreground_writes() {
    let mut counters = LearningCounters::default();
    counters.record_turn(3, false, false);
    counters.record_turn(2, false, false);
    assert_eq!(counters.turns_since_memory_write, 2);
    assert_eq!(counters.iters_since_skill_write, 5);

    counters.record_turn(4, true, false);
    assert_eq!(counters.turns_since_memory_write, 0);
    assert_eq!(counters.iters_since_skill_write, 9);

    counters.record_turn(1, false, true);
    assert_eq!(counters.turns_since_memory_write, 1);
    assert_eq!(counters.iters_since_skill_write, 0);
}

#[test]
fn due_maps_to_review_kind() {
    let counters = LearningCounters { turns_since_memory_write: 10, iters_since_skill_write: 3 };
    assert_eq!(counters.due(10, 10), Some(ReviewKind::Memory));
    assert_eq!(counters.due(10, 3), Some(ReviewKind::Combined));
    assert_eq!(counters.due(20, 3), Some(ReviewKind::Skills));
    assert_eq!(counters.due(20, 20), None);
}

#[test]
fn zero_interval_disables_review() {
    let counters =
        LearningCounters { turns_since_memory_write: 100, iters_since_skill_write: 100 };
    assert_eq!(counters.due(0, 0), None);
    assert_eq!(counters.due(0, 10), Some(ReviewKind::Skills));
    assert_eq!(counters.due(10, 0), Some(ReviewKind::Memory));
}

#[test]
fn reset_for_clears_only_covered_counters() {
    let mut counters = LearningCounters { turns_since_memory_write: 7, iters_since_skill_write: 9 };
    counters.reset_for(ReviewKind::Memory);
    assert_eq!(counters.turns_since_memory_write, 0);
    assert_eq!(counters.iters_since_skill_write, 9);

    counters.reset_for(ReviewKind::Combined);
    assert_eq!(counters, LearningCounters::default());
}

#[test]
fn reset_for_skills_keeps_the_memory_counter() {
    let mut reset = counters(7, 9);
    reset.reset_for(ReviewKind::Skills);
    assert_eq!(reset, counters(7, 0));
}

#[test]
fn tool_classification() {
    assert!(is_memory_write_tool("memory_save"));
    assert!(!is_memory_write_tool("memory_search"));
    assert!(is_skill_write_tool("patch_skill"));
    assert!(!is_skill_write_tool("read_skill"));
}

#[test]
fn every_write_tool_is_classified() {
    for name in ["memory_save", "memory_delete", "memory_forget"] {
        assert!(is_memory_write_tool(name));
        assert!(!is_skill_write_tool(name));
    }
    for name in ["create_skill", "update_skill", "patch_skill", "write_skill_files", "delete_skill"]
    {
        assert!(is_skill_write_tool(name));
        assert!(!is_memory_write_tool(name));
    }
    assert!(!is_memory_write_tool(""));
    assert!(!is_memory_write_tool("memory_save "));
}

#[test]
fn tool_lists_can_be_walked() {
    assert_eq!(memory_write_tools(), names(&["memory_save", "memory_delete", "memory_forget"]));
    assert_eq!(
        skill_write_tools(),
        names(&["create_skill", "update_skill", "patch_skill", "write_skill_files", "delete_skill"])
    );
    let review = review_tool_allowlist();
    assert_eq!(
        review,
        names(&[
            "memory_save",
            "memory_search",
            "memory_get",
            "memory_delete",
            "read_skill",
            "create_skill",
            "update_skill",
            "patch_skill",
            "write_skill_files",
        ])
    );
    assert!(review.iter().all(|name| is_review_tool(name)));
    assert!(memory_write_tools().iter().all(|name| is_memory_write_tool(name)));
    assert!(skill_write_tools().iter().all(|name| is_skill_write_tool(name)));
}

#[test]
fn counters_saturate() {
    let mut full = counters(u32::MAX, u32::MAX - 1);
    full.record_turn(5, false, false);
    assert_eq!(full, counters(u32::MAX, u32::MAX));
}

#[test]
fn review_comes_due_at_the_interval_and_not_before() {
    let mut running = LearningCounters::default();
    for turn in 1..=10u32 {
        assert_eq!(running.due(10, 0), None);
        running.record_turn(0, false, false);
        assert_eq!(running.turns_since_memory_write, turn);
    }
    let kind = running.due(10, 0);
    assert_eq!(kind, Some(ReviewKind::Memory));
    running.reset_for(ReviewKind::Memory);
    assert_eq!(running.due(10, 0), None);
}

// Configuration.

#[test]
fn default_configuration() {
    let config = LearningConfig::default();
    assert!(config.enabled);
    assert_eq!(config.memory_review_interval, 10);
    assert_eq!(config.skill_review_interval, 10);
    assert_eq!(config.max_review_iterations, 16);
    assert_eq!(learning_path(&config), LearningPath::ReviewFork);
    let disabled = LearningConfig { enabled: false, ..config };
    assert_eq!(learning_path(&disabled), LearningPath::PeriodicExtract);
}

// Prompts.

#[test]
fn combined_prompt_contains_both_reviews_and_addendum() {
    let prompt = review_prompt(ReviewKind::Combined);
    assert!(prompt.contains("saving to memory"));
    assert!(prompt.contains("skill library"));
    assert!(prompt.contains("background review agent"));
}

#[test]
fn single_prompts_scope_to_their_store() {
    assert!(!review_prompt(ReviewKind::Memory).contains("skill library"));
    assert!(!review_prompt(ReviewKind::Skills).contains("memory_save"));
}

#[test]
fn prompts_are_put_together_exactly() {
    assert_eq!(
        review_prompt(ReviewKind::Memory),
        format!("{MEMORY_REVIEW_PROMPT}\n\n{RUNTIME_ADDENDUM}")
    );
    assert_eq!(
        review_prompt(ReviewKind::Combined),
        format!(
            "{MEMORY_REVIEW_PROMPT}\n\n---\n\n{SKILL_REVIEW_PROMPT}\n\n{COMBINED_REVIEW_SUFFIX}\n\n{RUNTIME_ADDENDUM}"
        )
    );
}

// The review fork.

fn call(id: &str, tool: &str, arguments: Json, success: bool) -> Vec<RunnerEvent> {
    vec![
        RunnerEvent::ToolCallStart { id: id.to_string(), name: tool.to_string(), arguments },
        RunnerEvent::ToolCallEnd { id: id.to_string(), success },
    ]
}

fn record(events: Vec<RunnerEvent>, iterations: Option<usize>) -> ReviewOutcome {
    let mut recorder = ReviewRecorder::new();
    for event in &events {
        recorder.on_event(event);
    }
    recorder.finish(iterations)
}

#[test]
fn review_records_successful_writes() {
    let plan = plan_review(
        &names(&["create_skill"]),
        &vec![ChatMessage::user("we discovered a testing workflow")],
        ReviewKind::Skills,
        Some("- rust-testing: how to test rust code"),
        DEFAULT_REVIEW_MAX_ITERATIONS,
    )
    .unwrap();
    assert_eq!(plan.tools, names(&["create_skill"]));

    let arguments = object(vec![("name", text("rust-testing")), ("content", text("..."))]);
    let outcome = record(call("call_1", "create_skill", arguments, true), Some(2));
    assert_eq!(outcome.actions.len(), 1);
    assert_eq!(outcome.actions[0].tool, "create_skill");
    assert_eq!(outcome.actions[0].detail, "rust-testing");
    assert_eq!(outcome.iterations, 2);
    let summary = outcome.summary().unwrap();
    assert!(summary.contains("create_skill (rust-testing)"));
}

#[test]
fn non_whitelisted_tools_are_stripped_from_the_fork() {
    let plan = plan_review(
        &names(&["exec", "memory_save"]),
        &vec![ChatMessage::user("test")],
        ReviewKind::Combined,
        None,
        DEFAULT_REVIEW_MAX_ITERATIONS,
    )
    .unwrap();
    assert_eq!(plan.tools, names(&["memory_save"]));

    // A call of a tool that is absent from the fork fails.
    let arguments = object(vec![("command", text("rm -rf /"))]);
    let outcome = record(call("call_1", "exec", arguments, false), Some(2));
    assert!(outcome.actions.is_empty());
}

#[test]
fn empty_registry_short_circuits() {
    let plan = plan_review(
        &names(&["exec"]),
        &vec![ChatMessage::user("test")],
        ReviewKind::Memory,
        None,
        DEFAULT_REVIEW_MAX_ITERATIONS,
    );
    assert!(plan.is_none());
    let outcome = ReviewOutcome::default();
    assert!(outcome.actions.is_empty());
    assert_eq!(outcome.iterations, 0);
}

#[test]
fn reads_are_not_reported_as_actions() {
    let arguments = object(vec![("name", text("rust-testing"))]);
    let outcome = record(call("call_1", "read_skill", arguments, true), Some(2));
    assert!(outcome.actions.is_empty());
    assert!(outcome.summary().is_none());
}

#[test]
fn review_tools_are_exactly_the_listed_ones() {
    let listed = [
        "memory_save",
        "memory_search",
        "memory_get",
        "memory_delete",
        "read_skill",
        "create_skill",
        "update_skill",
        "patch_skill",
        "write_skill_files",
    ];
    for name in listed {
        assert!(is_review_tool(name));
    }
    assert!(!is_review_tool("delete_skill"));
    assert!(!is_review_tool("memory_forget"));
    for name in listed {
        let reads = ["memory_search", "memory_get", "read_skill"].contains(&name);
        assert_eq!(is_read_tool(name), reads);
    }
    assert_eq!(
        allowed_tools(&names(&["exec", "patch_skill", "delete_skill", "memory_get"])),
        names(&["patch_skill", "memory_get"])
    );
}

#[test]
fn failed_and_unfinished_calls_are_not_actions() {
    let mut events = call("a", "memory_save", object(vec![]), false);
    events.push(RunnerEvent::Other);
    events.push(RunnerEvent::ToolCallStart {
        id: "b".to_string(),
        name: "memory_save".to_string(),
        arguments: object(vec![]),
    });
    events.push(RunnerEvent::ToolCallEnd { id: "unknown".to_string(), success: true });
    // An id that has ended is forgotten.
    events.push(RunnerEvent::ToolCallEnd { id: "a".to_string(), success: true });
    assert!(record(events, Some(1)).actions.is_empty());
}

#[test]
fn actions_stand_in_the_order_in_which_they_end() {
    let start = |id: &str, tool: &str| RunnerEvent::ToolCallStart {
        id: id.to_string(),
        name: tool.to_string(),
        arguments: object(vec![]),
    };
    let end = |id: &str| RunnerEvent::ToolCallEnd { id: id.to_string(), success: true };
    let events = vec![start("1", "memory_save"), start("2", "patch_skill"), end("2"), end("1")];
    let outcome = record(events, Some(1));
    let tools: Vec<&str> = outcome.actions.iter().map(|action| action.tool.as_str()).collect();
    assert_eq!(tools, vec!["patch_skill", "memory_save"]);
}

#[test]
fn failed_run_keeps_its_writes() {
    let outcome = record(call("1", "memory_save", object(vec![]), true), None);
    assert_eq!(outcome.actions.len(), 1);
    assert_eq!(outcome.iterations, 0);
}

#[test]
fn summary_names_every_action() {
    let action = |tool: &str, detail: &str| ReviewAction {
        tool: tool.to_string(),
        detail: detail.to_string(),
    };
    let outcome = ReviewOutcome {
        actions: vec![action("memory_save", "12 chars"), action("patch_skill", "rust")],
        iterations: 3,
    };
    assert_eq!(
        outcome.summary(),
        Some("Self-improvement review: memory_save (12 chars), patch_skill (rust)".to_string())
    );
}

#[test]
fn arguments_are_summarized() {
    let detail = |members: Vec<(&str, Json)>| summarize_arguments("tool", &object(members));
    assert_eq!(detail(vec![("name", text("n")), ("path", text("p"))]), "n");
    assert_eq!(detail(vec![("skill_name", text("s")), ("path", text("p"))]), "s");
    assert_eq!(detail(vec![("path", text("p"))]), "p");
    // A size is counted in bytes.
    assert_eq!(detail(vec![("content", text("été"))]), "5 chars");
    assert_eq!(detail(vec![("text", text("0123456789"))]), "10 chars");
    assert_eq!(detail(vec![("text", text(""))]), "0 chars");
    assert_eq!(detail(vec![]), "tool");
    // A target that is no string hides the others, but not the payload.
    assert_eq!(detail(vec![("name", Json::Null), ("path", text("p"))]), "tool");
    assert_eq!(detail(vec![("name", Json::Null), ("content", text("ab"))]), "2 chars");
    assert_eq!(detail(vec![("content", Json::Unsigned(1)), ("text", text("ab"))]), "tool");
    assert_eq!(summarize_arguments("tool", &text("name")), "tool");
}

#[test]
fn transcript_shows_each_speaker() {
    let conversation = vec![
        ChatMessage::System { content: "hidden".to_string() },
        ChatMessage::user("hello"),
        ChatMessage::User { content: UserContent::Multimodal },
        ChatMessage::Assistant { content: Some("hi".to_string()) },
        ChatMessage::Assistant { content: None },
        ChatMessage::Tool { content: "42".to_string() },
    ];
    assert_eq!(
        format_transcript(&conversation),
        "user: hello\n\nuser: [multimodal content]\n\nassistant: hi\n\nassistant: \n\ntool: 42\n\n"
    );
}

#[test]
fn transcript_cuts_long_messages_between_characters() {
    let exact = "a".repeat(2000);
    assert_eq!(
        format_transcript(&vec![ChatMessage::user(&exact)]),
        format!("user: {exact}\n\n")
    );
    // The two-byte character at byte 1999 does not fit.
    let long = format!("{}é{}", "a".repeat(1999), "b".repeat(50));
    assert_eq!(
        format_transcript(&vec![ChatMessage::user(&long)]),
        format!("user: {}\n\n", "a".repeat(1999))
    );
}

#[test]
fn plan_puts_the_prompts_together() {
    let conversation = vec![ChatMessage::user("hello")];
    let plan = |index: Option<&str>| {
        plan_review(&names(&["memory_save"]), &conversation, ReviewKind::Memory, index, 7).unwrap()
    };
    let bare = plan(None);
    assert_eq!(bare.system_prompt, REVIEW_SYSTEM_PROMPT);
    assert_eq!(
        bare.user_content,
        format!("user: hello\n\n\n\n---\n\n{}", review_prompt(ReviewKind::Memory))
    );
    assert_eq!(bare.max_iterations, 7);
    assert_eq!(plan(Some(" \n\u{3000}")).system_prompt, REVIEW_SYSTEM_PROMPT);
    assert_eq!(
        plan(Some("- a: b")).system_prompt,
        format!("{REVIEW_SYSTEM_PROMPT}\n\nCurrent skill library:\n- a: b")
    );
}

// After a turn.

fn function_call(name: &str) -> Json {
    object(vec![
        ("id", text("1")),
        ("type", text("function")),
        ("function", object(vec![("name", text(name)), ("arguments", text("{}"))])),
    ])
}

#[test]
fn turn_usage_counts_iterations_and_classifies_writes() {
    let messages = vec![
        msg("user", vec![]),
        msg("assistant", vec![("tool_calls", Json::Array(vec![function_call("memory_save")]))]),
        msg("tool", vec![("tool_call_id", text("1"))]),
        msg(
            "tool_result",
            vec![("tool_call_id", text("2")), ("tool_name", text("patch_skill"))],
        ),
        msg("assistant", vec![]),
    ];
    let usage = turn_tool_usage(&messages, 0);
    assert_eq!(usage.iterations, 2);
    assert!(usage.wrote_memory);
    assert!(usage.wrote_skill);
}

#[test]
fn turn_usage_ignores_messages_before_the_turn() {
    let messages = vec![
        msg(
            "tool_result",
            vec![("tool_call_id", text("1")), ("tool_name", text("memory_save"))],
        ),
        msg("user", vec![]),
        msg("assistant", vec![]),
    ];
    let usage = turn_tool_usage(&messages, 1);
    assert_eq!(usage.iterations, 0);
    assert!(!usage.wrote_memory);
    assert!(!usage.wrote_skill);
}

#[test]
fn turn_usage_without_tools_is_a_plain_turn() {
    let messages = vec![msg("user", vec![]), msg("assistant", vec![])];
    let usage = turn_tool_usage(&messages, 0);
    assert_eq!(usage.iterations, 0);
    assert!(!usage.wrote_memory);
    assert!(!usage.wrote_skill);
}

#[test]
fn turn_usage_reads_only_where_tools_are_named() {
    let none = ToolUsage { iterations: 0, wrote_memory: false, wrote_skill: false };
    // A user line names no tool, whatever it holds.
    let user = msg(
        "user",
        vec![
            ("tool_name", text("memory_save")),
            ("tool_calls", Json::Array(vec![function_call("patch_skill")])),
        ],
    );
    assert_eq!(turn_tool_usage(&vec![user], 0), none);
    let malformed = msg("assistant", vec![("tool_calls", text("memory_save"))]);
    assert_eq!(turn_tool_usage(&vec![malformed], 0), none);
    assert_eq!(turn_tool_usage(&vec![object(vec![])], 0), none);
    // A turn beyond the end of the transcript is empty.
    assert_eq!(turn_tool_usage(&vec![msg("tool", vec![])], 2), none);
}

#[test]
fn due_review_is_spawned_and_resets() {
    let config = LearningConfig::default();
    let lines = vec![msg("user", vec![]), msg("assistant", vec![])];
    let decision =
        decide(counters(9, 3), &lines, 0, &config, &names(&["exec", "memory_save"]));
    assert_eq!(decision.review, Some(ReviewKind::Memory));
    assert_eq!(decision.counters, counters(0, 3));
}

#[test]
fn due_review_waits_for_a_tool() {
    let config = LearningConfig::default();
    let lines = vec![msg("user", vec![]), msg("assistant", vec![])];
    let decision = decide(counters(9, 3), &lines, 0, &config, &names(&["exec"]));
    assert_eq!(decision.review, None);
    assert_eq!(decision.counters, counters(10, 3));
}

#[test]
fn foreground_write_takes_the_place_of_a_review() {
    let config = LearningConfig::default();
    let lines = vec![msg("user", vec![]), msg("tool", vec![("tool_name", text("memory_save"))])];
    let decision = decide(counters(30, 3), &lines, 0, &config, &names(&["memory_save"]));
    assert_eq!(decision.review, None);
    assert_eq!(decision.counters, counters(0, 4));
}

#[test]
fn review_window_is_the_tail() {
    assert_eq!(REVIEW_WINDOW_MESSAGES, 40);
    assert_eq!(review_window_start(0), 0);
    assert_eq!(review_window_start(40), 0);
    assert_eq!(review_window_start(41), 1);
}

#[test]
fn skills_are_listed_one_per_line() {
    let skill = |name: &str, description: &str| SkillMetadata {
        name: name.to_string(),
        description: description.to_string(),
    };
    assert_eq!(skills_index(&vec![]), None);
    assert_eq!(skills_index(&vec![skill("", "")]), Some("- : ".to_string()));
    assert_eq!(
        skills_index(&vec![skill("rust", "testing"), skill("go", "style")]),
        Some("- rust: testing\n- go: style".to_string())
    );
}

#[test]
fn extraction_is_due_at_every_interval() {
    assert!(!extract_due(0, 10, true));
    assert!(!extract_due(5, 1, true));
    assert!(!extract_due(5, 8, true));
    assert!(extract_due(5, 10, true));
    assert!(extract_due(5, 11, true));
    assert!(!extract_due(5, 10, false));
    assert!(extract_due(1, 2, true));
}

#[test]
fn extraction_reads_the_last_turns() {
    assert_eq!(extract_window_start(0, 5), None);
    assert_eq!(extract_window_start(10, 0), None);
    assert_eq!(extract_window_start(10, 5), Some(0));
    assert_eq!(extract_window_start(13, 5), Some(3));
}
