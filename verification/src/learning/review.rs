//! The background self-review fork.
//!
//! A snapshot of the conversation is replayed through a second agent run that
//! can only call memory and skill tools and is asked to persist anything worth
//! learning. The fork never touches the live session: its transcript is
//! discarded and only the durable writes (memory entries, skill files) remain.
//!
//! This module prepares such a run ([`plan_review`]), watches its tool calls
//! ([`ReviewRecorder`]) and reports what it wrote ([`ReviewOutcome`]).

use vstd::hash_map::StringHashMap;
use vstd::prelude::*;

use crate::json::Json;
use crate::learning::counters::ReviewKind;
use crate::learning::prompts;
use crate::text;

verus! {

/// Default iteration cap for the fork.
pub const DEFAULT_REVIEW_MAX_ITERATIONS: usize = 16;

/// How many bytes of a message the fork is shown.
pub const TRANSCRIPT_MESSAGE_BYTES: usize = 2000;

/// What the fork is told first.
pub const REVIEW_SYSTEM_PROMPT: &'static str =
    r"You are the self-improvement review process of an AI agent, running after a conversation turn completed. You review the transcript below and persist durable learnings using only the tools provided. Your text output is discarded — only tool calls have effect.";

/// Tools the review fork may call. Everything else is stripped from its
/// registry, so a denied call can never reach a real tool implementation.
///
/// `delete_skill` is deliberately absent: destructive skill operations stay in
/// the foreground.
pub open spec fn review_tool(name: Seq<char>) -> bool {
    ||| name == "memory_save"@
    ||| name == "memory_search"@
    ||| name == "memory_get"@
    ||| name == "memory_delete"@
    ||| name == "read_skill"@
    ||| name == "create_skill"@
    ||| name == "update_skill"@
    ||| name == "patch_skill"@
    ||| name == "write_skill_files"@
}

/// The names of the tools that the review fork may call.
pub open spec fn review_tool_names() -> Seq<Seq<char>> {
    seq![
        "memory_save"@,
        "memory_search"@,
        "memory_get"@,
        "memory_delete"@,
        "read_skill"@,
        "create_skill"@,
        "update_skill"@,
        "patch_skill"@,
        "write_skill_files"@,
    ]
}

/// The tools that the review fork may call.
pub fn review_tool_allowlist() -> (tools: Vec<String>)
    ensures
        text::views(tools@) == review_tool_names(),
{
    let mut tools: Vec<String> = Vec::new();
    tools.push("memory_save".to_owned());
    tools.push("memory_search".to_owned());
    tools.push("memory_get".to_owned());
    tools.push("memory_delete".to_owned());
    tools.push("read_skill".to_owned());
    tools.push("create_skill".to_owned());
    tools.push("update_skill".to_owned());
    tools.push("patch_skill".to_owned());
    tools.push("write_skill_files".to_owned());
    assert(text::views(tools@) =~= review_tool_names());
    tools
}

/// The list of review tools holds exactly the tools that the fork may call.
pub proof fn review_tools_are_listed(name: Seq<char>)
    ensures
        review_tool_names().contains(name) <==> review_tool(name),
{
    let names = review_tool_names();
    assert(names[0] == "memory_save"@ && names[1] == "memory_search"@ && names[2] == "memory_get"@
        && names[3] == "memory_delete"@ && names[4] == "read_skill"@);
    assert(names[5] == "create_skill"@ && names[6] == "update_skill"@ && names[7] == "patch_skill"@
        && names[8] == "write_skill_files"@);
}

/// Tools of the fork that only read.
pub open spec fn read_tool(name: Seq<char>) -> bool {
    ||| name == "memory_search"@
    ||| name == "memory_get"@
    ||| name == "read_skill"@
}

pub fn is_review_tool(name: &str) -> (answer: bool)
    ensures
        answer == review_tool(name@),
{
    text::same_text(name, "memory_save") || text::same_text(name, "memory_search")
        || text::same_text(name, "memory_get") || text::same_text(name, "memory_delete")
        || text::same_text(name, "read_skill") || text::same_text(name, "create_skill")
        || text::same_text(name, "update_skill") || text::same_text(name, "patch_skill")
        || text::same_text(name, "write_skill_files")
}

pub fn is_read_tool(name: &str) -> (answer: bool)
    ensures
        answer == read_tool(name@),
{
    text::same_text(name, "memory_search") || text::same_text(name, "memory_get")
        || text::same_text(name, "read_skill")
}

/// One successful write performed by the fork.
#[derive(Debug, Clone)]
pub struct ReviewAction {
    pub tool: String,
    pub detail: String,
}

/// The view of a [`ReviewAction`].
pub struct ReviewActionView {
    pub tool: Seq<char>,
    pub detail: Seq<char>,
}

impl View for ReviewAction {
    type V = ReviewActionView;

    open spec fn view(&self) -> ReviewActionView {
        ReviewActionView { tool: self.tool@, detail: self.detail@ }
    }
}

/// The views of a list of actions.
pub open spec fn action_views(actions: Seq<ReviewAction>) -> Seq<ReviewActionView> {
    actions.map_values(|action: ReviewAction| action@)
}

/// Result of a completed review run.
#[derive(Debug)]
pub struct ReviewOutcome {
    pub actions: Vec<ReviewAction>,
    pub iterations: usize,
}

impl Default for ReviewOutcome {
    fn default() -> (outcome: ReviewOutcome)
        ensures
            outcome.actions@ == Seq::<ReviewAction>::empty(),
            outcome.iterations == 0,
    {
        ReviewOutcome { actions: Vec::new(), iterations: 0 }
    }
}

/// An action as the summary names it.
pub open spec fn action_text(action: ReviewActionView) -> Seq<char> {
    action.tool + " ("@ + action.detail + ")"@
}

/// The one-line summary of a list of actions; `None` of an empty one.
pub open spec fn summary_of(actions: Seq<ReviewActionView>) -> Option<Seq<char>> {
    if actions.len() == 0 {
        None
    } else {
        Some(
            "Self-improvement review: "@ + text::joined(
                actions.map_values(|action: ReviewActionView| action_text(action)),
                ", "@,
            ),
        )
    }
}

impl ReviewOutcome {
    /// One-line summary for surfacing to the user, or `None` if no writes.
    pub fn summary(&self) -> (summary: Option<String>)
        ensures
            text::view_of(summary) == summary_of(action_views(self.actions@)),
    {
        if self.actions.len() == 0 {
            return None;
        }
        let ghost texts = action_views(self.actions@).map_values(
            |action: ReviewActionView| action_text(action),
        );
        let mut parts: Vec<String> = Vec::new();
        assert(text::views(parts@) =~= texts.take(0));
        for i in 0..self.actions.len()
            invariant
                texts == action_views(self.actions@).map_values(
                    |action: ReviewActionView| action_text(action),
                ),
                text::views(parts@) == texts.take(i as int),
        {
            let ghost so_far = parts@;
            let mut part = self.actions[i].tool.clone();
            part.append(" (");
            part.append(self.actions[i].detail.as_str());
            part.append(")");
            parts.push(part);
            assert(text::views(parts@) =~= text::views(so_far).push(texts[i as int]));
            assert(texts.take(i + 1) =~= texts.take(i as int).push(texts[i as int]));
        }
        assert(texts.take(texts.len() as int) =~= texts);
        let mut summary = "Self-improvement review: ".to_owned();
        summary.append(text::join(&parts, ", ").as_str());
        Some(summary)
    }
}

/// The first of two members that an object has.
pub open spec fn first_member(arguments: Json, first: Seq<char>, second: Seq<char>) -> Option<
    Json,
> {
    match arguments.member(first) {
        Some(value) => Some(value),
        None => arguments.member(second),
    }
}

/// What the arguments of a call name as its target: the first of `name`,
/// `skill_name` and `path` that is present, if it is a string.
pub open spec fn named_target(arguments: Json) -> Option<Seq<char>> {
    let named = match first_member(arguments, "name"@, "skill_name"@) {
        Some(value) => Some(value),
        None => arguments.member("path"@),
    };
    match named {
        Some(value) => value.text(),
        None => None,
    }
}

/// The payload of a call: the first of `content` and `text` that is present,
/// if it is a string.
pub open spec fn payload(arguments: Json) -> Option<Seq<char>> {
    match first_member(arguments, "content"@, "text"@) {
        Some(value) => value.text(),
        None => None,
    }
}

/// How a call is summarized: by its target, else by the size of its payload in
/// bytes, else by the name of the tool.
pub open spec fn detail_of(name: Seq<char>, arguments: Json) -> Seq<char> {
    match named_target(arguments) {
        Some(target) => target,
        None => match payload(arguments) {
            Some(found) => text::decimal(text::byte_len(found)) + " chars"@,
            None => name,
        },
    }
}

/// Summarize a call for the list of actions.
pub fn summarize_arguments(name: &str, arguments: &Json) -> (detail: String)
    ensures
        detail@ == detail_of(name@, *arguments),
{
    let named = match arguments.get("name") {
        Some(value) => Some(value),
        None => match arguments.get("skill_name") {
            Some(value) => Some(value),
            None => arguments.get("path"),
        },
    };
    match named {
        Some(value) => match value.as_str() {
            Some(target) => {
                return target.to_owned();
            },
            None => {},
        },
        None => {},
    }
    let found = match arguments.get("content") {
        Some(value) => Some(value),
        None => arguments.get("text"),
    };
    match found {
        Some(value) => match value.as_str() {
            Some(found) => {
                let mut detail = text::to_decimal(found.as_bytes().len());
                detail.append(" chars");
                detail
            },
            None => name.to_owned(),
        },
        None => name.to_owned(),
    }
}

/// The content of a user message.
#[derive(Debug, Clone)]
pub enum UserContent {
    Text(String),
    /// Text mixed with images or other media.
    Multimodal,
}

/// A message of the conversation that is reviewed.
#[derive(Debug, Clone)]
pub enum ChatMessage {
    System { content: String },
    User { content: UserContent },
    Assistant { content: Option<String> },
    Tool { content: String },
}

impl ChatMessage {
    /// A user message of plain text.
    pub fn user(content: &str) -> (message: ChatMessage)
        ensures
            message matches ChatMessage::User { content: UserContent::Text(found) } && found@
                == content@,
    {
        ChatMessage::User { content: UserContent::Text(content.to_owned()) }
    }
}

/// The speaker of a message and what it says, as the fork is shown it; system
/// messages are not shown.
pub open spec fn spoken(message: ChatMessage) -> Option<(Seq<char>, Seq<char>)> {
    match message {
        ChatMessage::System { .. } => None,
        ChatMessage::User { content: UserContent::Text(content) } => Some(("user"@, content@)),
        ChatMessage::User { content: UserContent::Multimodal } => Some(
            ("user"@, "[multimodal content]"@),
        ),
        ChatMessage::Assistant { content: Some(content) } => Some(("assistant"@, content@)),
        ChatMessage::Assistant { content: None } => Some(("assistant"@, ""@)),
        ChatMessage::Tool { content } => Some(("tool"@, content@)),
    }
}

/// The paragraph that shows a message.
pub open spec fn paragraph(message: ChatMessage) -> Seq<char> {
    match spoken(message) {
        Some((role, content)) => role + ": "@ + text::byte_prefix(
            content,
            TRANSCRIPT_MESSAGE_BYTES as nat,
        ) + "\n\n"@,
        None => Seq::empty(),
    }
}

/// The conversation as the fork is shown it.
pub open spec fn transcript(conversation: Seq<ChatMessage>) -> Seq<char>
    decreases conversation.len(),
{
    if conversation.len() == 0 {
        Seq::empty()
    } else {
        transcript(conversation.drop_last()) + paragraph(conversation.last())
    }
}

fn write_paragraph(out: &mut String, role: &str, content: &str)
    ensures
        final(out)@ == old(out)@ + (role@ + ": "@ + text::byte_prefix(
            content@,
            TRANSCRIPT_MESSAGE_BYTES as nat,
        ) + "\n\n"@),
{
    out.append(role);
    out.append(": ");
    out.append(text::cut_bytes(content, TRANSCRIPT_MESSAGE_BYTES).as_str());
    out.append("\n\n");
    assert(out@ =~= old(out)@ + (role@ + ": "@ + text::byte_prefix(
        content@,
        TRANSCRIPT_MESSAGE_BYTES as nat,
    ) + "\n\n"@));
}

/// Write the conversation down for the fork.
pub fn format_transcript(conversation: &Vec<ChatMessage>) -> (out: String)
    ensures
        out@ == transcript(conversation@),
{
    let mut out = String::new();
    for i in 0..conversation.len()
        invariant
            out@ == transcript(conversation@.take(i as int)),
    {
        assert(conversation@.take(i + 1).drop_last() =~= conversation@.take(i as int));
        match &conversation[i] {
            ChatMessage::System { .. } => {
                assert(out@ + Seq::<char>::empty() =~= out@);
            },
            ChatMessage::User { content: UserContent::Text(content) } => {
                write_paragraph(&mut out, "user", content.as_str());
            },
            ChatMessage::User { content: UserContent::Multimodal } => {
                write_paragraph(&mut out, "user", "[multimodal content]");
            },
            ChatMessage::Assistant { content: Some(content) } => {
                write_paragraph(&mut out, "assistant", content.as_str());
            },
            ChatMessage::Assistant { content: None } => {
                write_paragraph(&mut out, "assistant", "");
            },
            ChatMessage::Tool { content } => {
                write_paragraph(&mut out, "tool", content.as_str());
            },
        }
    }
    assert(conversation@.take(conversation@.len() as int) =~= conversation@);
    out
}

/// A review run, ready to be handed to the agent loop.
#[derive(Debug)]
pub struct ReviewPlan {
    /// The tools that the fork may call.
    pub tools: Vec<String>,
    pub system_prompt: String,
    pub user_content: String,
    pub max_iterations: usize,
}

/// The tools of the fork: those of the turn that it may call, in order.
pub open spec fn fork_tools(registered: Seq<Seq<char>>) -> Seq<Seq<char>> {
    registered.filter(|name: Seq<char>| review_tool(name))
}

/// What the fork is told, with the skill library where there is one to show.
pub open spec fn system_prompt_of(skills_index: Option<Seq<char>>) -> Seq<char> {
    match skills_index {
        Some(index) => if text::blank(index) {
            REVIEW_SYSTEM_PROMPT@
        } else {
            REVIEW_SYSTEM_PROMPT@ + "\n\nCurrent skill library:\n"@ + index
        },
        None => REVIEW_SYSTEM_PROMPT@,
    }
}

/// What the fork is asked.
pub open spec fn user_content_of(conversation: Seq<ChatMessage>, kind: ReviewKind) -> Seq<char> {
    transcript(conversation) + "\n\n---\n\n"@ + prompts::prompt_of(kind)
}

/// Keep the registered tools that the fork may call.
pub fn allowed_tools(registered: &Vec<String>) -> (tools: Vec<String>)
    ensures
        text::views(tools@) == fork_tools(text::views(registered@)),
{
    let ghost names = text::views(registered@);
    let mut tools: Vec<String> = Vec::new();
    proof {
        reveal(Seq::filter);
        assert(text::views(tools@) =~= fork_tools(names.take(0)));
    }
    for i in 0..registered.len()
        invariant
            names == text::views(registered@),
            text::views(tools@) == fork_tools(names.take(i as int)),
    {
        let ghost so_far = tools@;
        proof {
            reveal(Seq::filter);
            assert(names.take(i + 1).drop_last() =~= names.take(i as int));
        }
        if is_review_tool(registered[i].as_str()) {
            tools.push(registered[i].clone());
            assert(text::views(tools@) =~= text::views(so_far).push(names[i as int]));
        }
    }
    assert(names.take(names.len() as int) =~= names);
    tools
}

/// Prepare a self-review over a conversation snapshot.
///
/// `registered` are the tools of the turn; the fork gets those among them that
/// it may call. `None` when there are none: the review is then skipped, with
/// an empty outcome. `skills_index` is the skill catalog shown to the fork so
/// that it can prefer patching existing skills.
pub fn plan_review(
    registered: &Vec<String>,
    conversation: &Vec<ChatMessage>,
    kind: ReviewKind,
    skills_index: Option<&str>,
    max_iterations: usize,
) -> (plan: Option<ReviewPlan>)
    ensures
        match plan {
            Some(plan) => {
                &&& text::views(plan.tools@) == fork_tools(text::views(registered@))
                &&& plan.tools@.len() > 0
                &&& plan.system_prompt@ == system_prompt_of(
                    match skills_index {
                        Some(index) => Some(index@),
                        None => None,
                    },
                )
                &&& plan.user_content@ == user_content_of(conversation@, kind)
                &&& plan.max_iterations == max_iterations
            },
            None => fork_tools(text::views(registered@)).len() == 0,
        },
{
    let tools = allowed_tools(registered);
    assert(text::views(tools@).len() == tools@.len());
    if tools.len() == 0 {
        return None;
    }
    let mut system_prompt = REVIEW_SYSTEM_PROMPT.to_owned();
    match skills_index {
        Some(index) => {
            if !text::is_blank(index) {
                system_prompt.append("\n\nCurrent skill library:\n");
                system_prompt.append(index);
            }
        },
        None => {},
    }
    let mut user_content = format_transcript(conversation);
    user_content.append("\n\n---\n\n");
    user_content.append(prompts::review_prompt(kind).as_str());
    Some(ReviewPlan { tools, system_prompt, user_content, max_iterations })
}

/// What the agent loop reports while the fork runs.
#[derive(Debug)]
pub enum RunnerEvent {
    ToolCallStart { id: String, name: String, arguments: Json },
    ToolCallEnd { id: String, success: bool },
    Other,
}

/// Watches the tool calls of a run: arguments arrive when a call starts,
/// success when it ends.
pub struct ReviewRecorder {
    pending: StringHashMap<ReviewAction>,
    actions: Vec<ReviewAction>,
}

/// The view of a [`ReviewRecorder`].
#[verifier::ext_equal]
pub struct ReviewRecorderView {
    /// The calls that have started and not ended, by their ids.
    pub pending: Map<Seq<char>, ReviewActionView>,
    /// The successful writes, in the order in which they ended.
    pub actions: Seq<ReviewActionView>,
}

/// The views of the calls of a map.
spec fn pending_views(pending: Map<Seq<char>, ReviewAction>) -> Map<Seq<char>, ReviewActionView> {
    Map::new(|id: Seq<char>| pending.dom().contains(id), |id: Seq<char>| pending[id]@)
}

impl View for ReviewRecorder {
    type V = ReviewRecorderView;

    closed spec fn view(&self) -> ReviewRecorderView {
        ReviewRecorderView {
            pending: pending_views(self.pending@),
            actions: action_views(self.actions@),
        }
    }
}

impl ReviewRecorderView {
    /// No call has started.
    pub open spec fn initial() -> ReviewRecorderView {
        ReviewRecorderView { pending: Map::empty(), actions: Seq::empty() }
    }

    /// The state after one more event. A call is recorded when it ends with
    /// success, unless its tool only reads.
    pub open spec fn after(self, event: RunnerEvent) -> ReviewRecorderView {
        match event {
            RunnerEvent::ToolCallStart { id, name, arguments } => ReviewRecorderView {
                pending: self.pending.insert(
                    id@,
                    ReviewActionView { tool: name@, detail: detail_of(name@, arguments) },
                ),
                ..self
            },
            RunnerEvent::ToolCallEnd { id, success } => ReviewRecorderView {
                pending: self.pending.remove(id@),
                actions: if success && self.pending.dom().contains(id@) && !read_tool(
                    self.pending[id@].tool,
                ) {
                    self.actions.push(self.pending[id@])
                } else {
                    self.actions
                },
            },
            RunnerEvent::Other => self,
        }
    }
}

impl ReviewRecorder {
    pub fn new() -> (recorder: ReviewRecorder)
        ensures
            recorder@ == ReviewRecorderView::initial(),
    {
        let recorder = ReviewRecorder { pending: StringHashMap::new(), actions: Vec::new() };
        assert(recorder@ =~= ReviewRecorderView::initial());
        recorder
    }

    /// Take note of an event.
    pub fn on_event(&mut self, event: &RunnerEvent)
        ensures
            final(self)@ == old(self)@.after(*event),
    {
        match event {
            RunnerEvent::ToolCallStart { id, name, arguments } => {
                let action = ReviewAction {
                    tool: name.clone(),
                    detail: summarize_arguments(name.as_str(), arguments),
                };
                self.pending.insert(id.clone(), action);
                assert(self@.pending =~= old(self)@.after(*event).pending);
            },
            RunnerEvent::ToolCallEnd { id, success } => {
                let found = match self.pending.get(id.as_str()) {
                    Some(action) => Some(
                        ReviewAction {
                            tool: action.tool.clone(),
                            detail: action.detail.clone(),
                        },
                    ),
                    None => None,
                };
                self.pending.remove(id.as_str());
                assert(self@.pending =~= old(self)@.after(*event).pending);
                match found {
                    Some(action) => {
                        if *success && !is_read_tool(action.tool.as_str()) {
                            self.actions.push(action);
                            assert(self@.actions =~= old(self)@.actions.push(action@));
                        }
                    },
                    None => {},
                }
            },
            RunnerEvent::Other => {},
        }
        assert(self@ =~= old(self)@.after(*event));
    }

    /// The outcome of the run: the recorded writes with the iterations that
    /// the run took, or with none where the run failed.
    pub fn finish(self, iterations: Option<usize>) -> (outcome: ReviewOutcome)
        ensures
            action_views(outcome.actions@) == self@.actions,
            outcome.iterations == match iterations {
                Some(iterations) => iterations,
                None => 0,
            },
    {
        ReviewOutcome {
            actions: self.actions,
            iterations: match iterations {
                Some(iterations) => iterations,
                None => 0,
            },
        }
    }
}

} // verus!
