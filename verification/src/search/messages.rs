//! Transcript messages as the search index stores them.

use vstd::prelude::*;

use crate::clock;
use crate::clock::Timestamp;
use crate::json::Json;
use crate::text;

verus! {

/// Message roles stored in the index.
#[derive(Debug, Clone, Copy, PartialEq, Eq, Structural)]
pub enum IndexedRole {
    User,
    Assistant,
    Tool,
}

impl IndexedRole {
    /// The name under which the role is stored.
    pub open spec fn name(self) -> Seq<char> {
        match self {
            IndexedRole::User => "user"@,
            IndexedRole::Assistant => "assistant"@,
            IndexedRole::Tool => "tool"@,
        }
    }

    /// The role that a transcript line names, if it is one that is indexed.
    pub open spec fn named(role: Seq<char>) -> Option<IndexedRole> {
        if role == "user"@ {
            Some(IndexedRole::User)
        } else if role == "assistant"@ {
            Some(IndexedRole::Assistant)
        } else if role == "tool"@ || role == "tool_result"@ {
            Some(IndexedRole::Tool)
        } else {
            None
        }
    }

    pub fn as_str(self) -> (name: &'static str)
        ensures
            name@ == self.name(),
    {
        match self {
            IndexedRole::User => "user",
            IndexedRole::Assistant => "assistant",
            IndexedRole::Tool => "tool",
        }
    }

    pub fn from_role_str(role: &str) -> (found: Option<IndexedRole>)
        ensures
            found == IndexedRole::named(role@),
    {
        if text::same_text(role, "user") {
            Some(IndexedRole::User)
        } else if text::same_text(role, "assistant") {
            Some(IndexedRole::Assistant)
        } else if text::same_text(role, "tool") || text::same_text(role, "tool_result") {
            Some(IndexedRole::Tool)
        } else {
            None
        }
    }
}

/// Every role is found again under the name it is stored by.
pub proof fn role_is_found_by_its_name(role: IndexedRole)
    ensures
        IndexedRole::named(role.name()) == Some(role),
{
    reveal_strlit("user");
    reveal_strlit("assistant");
    reveal_strlit("tool");
    assert("assistant"@.len() != "user"@.len());
    assert("assistant"@.len() != "tool"@.len());
    assert("tool"@[0] != "user"@[0]);
}

/// A message extracted from a transcript line for indexing.
#[derive(Debug, Clone)]
pub struct IndexableMessage {
    pub role: IndexedRole,
    pub content: String,
    pub tool_name: Option<String>,
    /// Milliseconds since the Unix epoch.
    pub created_at: u64,
}

/// The view of an [`IndexableMessage`].
pub struct IndexableMessageView {
    pub role: IndexedRole,
    pub content: Seq<char>,
    pub tool_name: Option<Seq<char>>,
    pub created_at: u64,
}

impl View for IndexableMessage {
    type V = IndexableMessageView;

    open spec fn view(&self) -> IndexableMessageView {
        IndexableMessageView {
            role: self.role,
            content: self.content@,
            tool_name: text::view_of(self.tool_name),
            created_at: self.created_at,
        }
    }
}

/// The text of one content block, if it is a text block.
pub open spec fn block_text(block: Json) -> Option<Seq<char>> {
    if block.text_member("type"@) == Some("text"@) {
        block.text_member("text"@)
    } else {
        None
    }
}

/// The texts of the text blocks among `blocks`, in order.
pub open spec fn block_texts(blocks: Seq<Json>) -> Seq<Seq<char>>
    decreases blocks.len(),
{
    if blocks.len() == 0 {
        Seq::empty()
    } else {
        match block_text(blocks.last()) {
            Some(found) => block_texts(blocks.drop_last()).push(found),
            None => block_texts(blocks.drop_last()),
        }
    }
}

/// The text of a message content: the content itself where it is a string,
/// the lines of its text blocks where it is a list with any text in it.
pub open spec fn content_text(content: Json) -> Option<Seq<char>> {
    match content {
        Json::Text(found) => Some(found@),
        Json::Array(blocks) => {
            let lines = text::joined(block_texts(blocks@), "\n"@);
            if lines.len() == 0 {
                None
            } else {
                Some(lines)
            }
        },
        _ => None,
    }
}

/// The message that a transcript line is indexed as, `now` being the time at
/// which a line without a time of its own is read.
pub open spec fn indexable(value: Json, now: u64) -> Option<IndexableMessageView> {
    match (value.text_member("role"@), value.member("content"@)) {
        (Some(role), Some(content)) => match (IndexedRole::named(role), content_text(content)) {
            (Some(role), Some(content)) => if text::blank(content) {
                None
            } else {
                Some(
                    IndexableMessageView {
                        role,
                        content,
                        tool_name: value.text_member("tool_name"@),
                        created_at: line_time(value, now),
                    },
                )
            },
            _ => None,
        },
        _ => None,
    }
}

/// The messages that transcript lines are indexed as, in order.
pub open spec fn indexable_messages(lines: Seq<Json>, now: u64) -> Seq<IndexableMessageView>
    decreases lines.len(),
{
    if lines.len() == 0 {
        Seq::empty()
    } else {
        let before = indexable_messages(lines.drop_last(), now);
        match indexable(lines.last(), now) {
            Some(message) => before.push(message),
            None => before,
        }
    }
}

/// The indexes of the lines that are indexed, in order.
pub open spec fn indexable_lines(lines: Seq<Json>, now: u64) -> Seq<int>
    decreases lines.len(),
{
    if lines.len() == 0 {
        Seq::empty()
    } else {
        let before = indexable_lines(lines.drop_last(), now);
        match indexable(lines.last(), now) {
            Some(message) => before.push(lines.len() - 1),
            None => before,
        }
    }
}

/// The time that a transcript line gives, `now` where it gives none.
pub open spec fn line_time(value: Json, now: u64) -> u64 {
    match value.member("created_at"@) {
        Some(time) => match time.unsigned() {
            Some(time) => time,
            None => now,
        },
        None => now,
    }
}

fn text_block(block: &Json) -> (found: Option<String>)
    ensures
        text::view_of(found) == block_text(*block),
{
    match block.get_str("type") {
        Some(kind) => if text::same_text(kind, "text") {
            match block.get_str("text") {
                Some(found) => Some(found.to_owned()),
                None => None,
            }
        } else {
            None
        },
        None => None,
    }
}

/// The text of a message content.
pub fn extract_text(content: &Json) -> (found: Option<String>)
    ensures
        text::view_of(found) == content_text(*content),
{
    match content {
        Json::Text(found) => Some(found.clone()),
        Json::Array(blocks) => {
            let mut texts: Vec<String> = Vec::new();
            assert(text::views(texts@) =~= block_texts(blocks@.take(0)));
            for i in 0..blocks.len()
                invariant
                    text::views(texts@) == block_texts(blocks@.take(i as int)),
            {
                assert(blocks@.take(i + 1).drop_last() =~= blocks@.take(i as int));
                let ghost before = texts@;
                match text_block(&blocks[i]) {
                    Some(found) => {
                        texts.push(found);
                        assert(text::views(texts@) =~= text::views(before).push(found@));
                    },
                    None => {},
                }
            }
            assert(blocks@.take(blocks@.len() as int) =~= blocks@);
            let lines = text::join(&texts, "\n");
            if lines.as_str().is_empty() {
                None
            } else {
                Some(lines)
            }
        },
        _ => None,
    }
}

impl IndexableMessage {
    /// Extract the indexable text of a persisted transcript line.
    ///
    /// `None` for roles that are not indexed (system prompts, notices) and for
    /// messages without any text. A line without a time of its own is given
    /// the time of the system clock.
    pub fn from_value(value: &Json) -> (found: Option<IndexableMessage>)
        ensures
            exists|now: Timestamp|
                {
                    &&& #[trigger] now.wf()
                    &&& now.secs >= 0
                    &&& indexable(*value, clock::millis_of(now) as u64) == match found {
                        Some(message) => Some(message@),
                        None => None,
                    }
                },
    {
        let now: u64 = clock::now_ms();
        IndexableMessage::from_value_at(value, now)
    }

    /// [`IndexableMessage::from_value`] at the time `now`.
    pub fn from_value_at(value: &Json, now: u64) -> (found: Option<IndexableMessage>)
        ensures
            match found {
                Some(message) => indexable(*value, now) == Some(message@),
                None => indexable(*value, now) is None,
            },
    {
        let role = match value.get_str("role") {
            Some(role) => match IndexedRole::from_role_str(role) {
                Some(role) => role,
                None => return None,
            },
            None => return None,
        };
        let content = match value.get("content") {
            Some(content) => match extract_text(content) {
                Some(content) => content,
                None => return None,
            },
            None => return None,
        };
        if text::is_blank(content.as_str()) {
            return None;
        }
        let tool_name = match value.get_str("tool_name") {
            Some(name) => Some(name.to_owned()),
            None => None,
        };
        let created_at: u64 = match value.get("created_at") {
            Some(time) => match time.as_u64() {
                Some(time) => time,
                None => now,
            },
            None => now,
        };
        Some(IndexableMessage { role, content, tool_name, created_at })
    }
}

} // verus!
