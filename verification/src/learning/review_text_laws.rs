//! What a review is told, and what it reports, in words.

use vstd::prelude::*;

use crate::json::Json;
use crate::learning::counters::ReviewKind;
use crate::learning::post_turn;
use crate::learning::post_turn::SkillMetadata;
use crate::learning::prompts;
use crate::learning::prompts::{
    COMBINED_REVIEW_SUFFIX, MEMORY_REVIEW_PROMPT, RUNTIME_ADDENDUM, SKILL_REVIEW_PROMPT,
};
use crate::learning::review;
use crate::learning::review::{ChatMessage, ReviewActionView, UserContent, REVIEW_SYSTEM_PROMPT};
use crate::text;
use crate::text_laws;

verus! {

/// `part` stands somewhere in `whole`.
pub open spec fn stands_in(part: Seq<char>, whole: Seq<char>) -> bool {
    exists|from: int, to: int|
        0 <= from <= to <= whole.len() && #[trigger] whole.subrange(from, to) == part
}

/// The instruction of a review of one store is the prompt of that store, a blank
/// line and the addendum, and nothing else. That of a review of both holds both
/// prompts and says that both are to be done. Each ends with the addendum.
pub proof fn review_is_asked_what_it_covers(kind: ReviewKind)
    ensures
        ({
            let instruction = prompts::prompt_of(kind);
            &&& kind == ReviewKind::Memory ==> instruction == MEMORY_REVIEW_PROMPT@ + "\n\n"@
                + RUNTIME_ADDENDUM@
            &&& kind == ReviewKind::Skills ==> instruction == SKILL_REVIEW_PROMPT@ + "\n\n"@
                + RUNTIME_ADDENDUM@
            &&& kind != ReviewKind::Skills ==> stands_in(MEMORY_REVIEW_PROMPT@, instruction)
            &&& kind != ReviewKind::Memory ==> stands_in(SKILL_REVIEW_PROMPT@, instruction)
            &&& kind == ReviewKind::Combined ==> stands_in(COMBINED_REVIEW_SUFFIX@, instruction)
            &&& instruction.len() >= RUNTIME_ADDENDUM@.len()
            &&& instruction.skip(instruction.len() - RUNTIME_ADDENDUM@.len()) == RUNTIME_ADDENDUM@
        }),
{
    let instruction = prompts::prompt_of(kind);
    let (memory, skills) = (MEMORY_REVIEW_PROMPT@, SKILL_REVIEW_PROMPT@);
    assert(instruction.skip(instruction.len() - RUNTIME_ADDENDUM@.len()) =~= RUNTIME_ADDENDUM@);
    match kind {
        ReviewKind::Memory => {
            assert(instruction.subrange(0, memory.len() as int) =~= memory);
        },
        ReviewKind::Skills => {
            assert(instruction.subrange(0, skills.len() as int) =~= skills);
        },
        ReviewKind::Combined => {
            let at = memory.len() as int + "\n\n---\n\n"@.len();
            let last = at + skills.len() + "\n\n"@.len();
            let suffix = COMBINED_REVIEW_SUFFIX@;
            assert(instruction.subrange(0, memory.len() as int) =~= memory);
            assert(instruction.subrange(at, at + skills.len()) =~= skills);
            assert(instruction.subrange(last, last + suffix.len()) =~= suffix);
        },
    }
}

/// The fork is told the system prompt, and behind it the skill library where
/// there is one that is not blank.
pub proof fn fork_is_shown_the_skill_library(skills_index: Option<Seq<char>>)
    ensures
        ({
            let told = review::system_prompt_of(skills_index);
            match skills_index {
                Some(index) => {
                    &&& text::blank(index) ==> told == REVIEW_SYSTEM_PROMPT@
                    &&& !text::blank(index) ==> told == REVIEW_SYSTEM_PROMPT@
                        + "\n\nCurrent skill library:\n"@ + index
                },
                None => told == REVIEW_SYSTEM_PROMPT@,
            }
        }),
{
}

/// The fork is shown the whole conversation first, and asked the instruction of
/// its review last.
pub proof fn fork_is_shown_the_conversation(conversation: Seq<ChatMessage>, kind: ReviewKind)
    ensures
        ({
            let shown = review::transcript(conversation);
            let instruction = prompts::prompt_of(kind);
            let asked = review::user_content_of(conversation, kind);
            &&& asked == shown + ("\n\n---\n\n"@ + instruction)
            &&& shown.is_prefix_of(asked)
            &&& asked.len() == shown.len() + "\n\n---\n\n"@.len() + instruction.len()
            &&& asked.skip(asked.len() - instruction.len()) == instruction
        }),
{
    let shown = review::transcript(conversation);
    let instruction = prompts::prompt_of(kind);
    let asked = review::user_content_of(conversation, kind);
    assert(asked =~= shown + ("\n\n---\n\n"@ + instruction));
    assert(asked.subrange(0, shown.len() as int) =~= shown);
    assert(asked.skip(asked.len() - instruction.len()) =~= instruction);
}

/// A conversation is shown message by message, in order: each with its speaker
/// and what was said, cut to 2000 bytes; system messages are not shown.
pub proof fn conversation_is_shown_message_by_message(
    left: Seq<ChatMessage>,
    right: Seq<ChatMessage>,
    message: ChatMessage,
)
    ensures
        review::transcript(left + right) == review::transcript(left) + review::transcript(right),
        match message {
            ChatMessage::System { content } => review::transcript(seq![message]).len() == 0,
            ChatMessage::User { content: UserContent::Text(content) } => review::transcript(
                seq![message],
            ) == "user"@ + ": "@ + text::byte_prefix(content@, 2000) + "\n\n"@,
            ChatMessage::User { content: UserContent::Multimodal } => review::transcript(
                seq![message],
            ) == "user"@ + ": "@ + text::byte_prefix("[multimodal content]"@, 2000) + "\n\n"@,
            ChatMessage::Assistant { content: Some(content) } => review::transcript(seq![message])
                == "assistant"@ + ": "@ + text::byte_prefix(content@, 2000) + "\n\n"@,
            ChatMessage::Assistant { content: None } => review::transcript(seq![message])
                == "assistant"@ + ": "@ + "\n\n"@,
            ChatMessage::Tool { content } => review::transcript(seq![message]) == "tool"@ + ": "@
                + text::byte_prefix(content@, 2000) + "\n\n"@,
        },
    decreases right.len(),
{
    let empty = Seq::<ChatMessage>::empty();
    assert(seq![message].drop_last() =~= empty);
    assert(review::transcript(empty) =~= Seq::<char>::empty());
    assert(review::transcript(seq![message]) =~= review::paragraph(message));
    if message matches ChatMessage::Assistant { content: None } {
        reveal_strlit("");
        assert(text::byte_prefix(""@, 2000) =~= Seq::<char>::empty());
        assert(review::paragraph(message) =~= "assistant"@ + ": "@ + "\n\n"@);
    }
    if right.len() == 0 {
        assert(left + right =~= left);
        assert(review::transcript(left) + review::transcript(right) =~= review::transcript(left));
    } else {
        conversation_is_shown_message_by_message(left, right.drop_last(), message);
        assert((left + right).drop_last() =~= left + right.drop_last());
        assert(review::transcript(left + right) =~= review::transcript(left) + review::transcript(
            right,
        ));
    }
}

/// A summary names every action, in order, with its tool and its detail, and
/// there is none without an action.
pub proof fn summary_names_every_action(
    left: Seq<ReviewActionView>,
    right: Seq<ReviewActionView>,
    action: ReviewActionView,
)
    ensures
        review::summary_of(Seq::empty()) is None,
        review::summary_of(seq![action]) == Some(
            "Self-improvement review: "@ + (action.tool + " ("@ + action.detail + ")"@),
        ),
        left.len() > 0 && right.len() > 0 ==> {
            &&& review::summary_of(left) matches Some(first)
            &&& review::summary_of(right) matches Some(second)
            &&& review::summary_of(left + right) == Some(
                first + ", "@ + second.skip("Self-improvement review: "@.len() as int),
            )
        },
{
    let named = |list: Seq<ReviewActionView>|
        list.map_values(|action: ReviewActionView| review::action_text(action));
    let head = "Self-improvement review: "@;
    assert(named(seq![action]) =~= seq![review::action_text(action)]);
    text_laws::joining_two_lists(named(left), named(right), review::action_text(action), ", "@);
    assert(named(left + right) =~= named(left) + named(right));
    if left.len() > 0 && right.len() > 0 {
        let (first, second) = (
            text::joined(named(left), ", "@),
            text::joined(named(right), ", "@),
        );
        assert((head + second).skip(head.len() as int) =~= second);
        assert(head + (first + ", "@ + second) =~= head + first + ", "@ + second);
    }
}

/// A call is summarized by the first of `name`, `skill_name` and `path` that its
/// arguments have, if that is a string; else by the number of bytes of the first
/// of `content` and `text`, if that is a string; else by the name of its tool.
pub proof fn call_is_summarized_by_its_target(name: Seq<char>, arguments: Json)
    ensures
        ({
            let target = if arguments.member("name"@) is Some {
                arguments.member("name"@)
            } else if arguments.member("skill_name"@) is Some {
                arguments.member("skill_name"@)
            } else {
                arguments.member("path"@)
            };
            let payload = if arguments.member("content"@) is Some {
                arguments.member("content"@)
            } else {
                arguments.member("text"@)
            };
            match target {
                Some(Json::Text(found)) => review::detail_of(name, arguments) == found@,
                _ => match payload {
                    Some(Json::Text(found)) => review::detail_of(name, arguments) == text::decimal(
                        text::byte_len(found@),
                    ) + " chars"@,
                    _ => review::detail_of(name, arguments) == name,
                },
            }
        }),
{
}

/// The catalog has one line for each skill, in order, with its name and its
/// description.
pub proof fn catalog_lists_every_skill(
    left: Seq<SkillMetadata>,
    right: Seq<SkillMetadata>,
    skill: SkillMetadata,
)
    ensures
        post_turn::catalog_of(seq![skill]) == "- "@ + skill.name@ + ": "@ + skill.description@,
        left.len() > 0 && right.len() > 0 ==> post_turn::catalog_of(left + right)
            == post_turn::catalog_of(left) + "\n"@ + post_turn::catalog_of(right),
{
    let listed = |list: Seq<SkillMetadata>|
        list.map_values(|skill: SkillMetadata| post_turn::skill_line(skill));
    assert(listed(seq![skill]) =~= seq![post_turn::skill_line(skill)]);
    text_laws::joining_two_lists(listed(left), listed(right), post_turn::skill_line(skill), "\n"@);
    assert(listed(left + right) =~= listed(left) + listed(right));
}

} // verus!
