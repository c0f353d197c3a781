//! What holds of every indexed message.

use vstd::prelude::*;

use crate::json::Json;
use crate::search::messages;
use crate::search::messages::IndexedRole;
use crate::text;

verus! {

/// The texts of a list of blocks are those of its text blocks, in order: a block
/// of the type `text` gives its text, any other block nothing, and two lists
/// give the texts of each.
pub proof fn text_blocks_give_their_texts(left: Seq<Json>, right: Seq<Json>, block: Json)
    ensures
        messages::block_texts(seq![block]) == if block.text_member("type"@) == Some("text"@) {
            match block.text_member("text"@) {
                Some(found) => seq![found],
                None => Seq::empty(),
            }
        } else {
            Seq::empty()
        },
        messages::block_texts(left + right) == messages::block_texts(left) + messages::block_texts(
            right,
        ),
    decreases right.len(),
{
    assert(seq![block].drop_last() =~= Seq::<Json>::empty());
    assert(messages::block_texts(Seq::<Json>::empty()) =~= Seq::empty());
    assert(messages::block_texts(seq![block]) =~= if block.text_member("type"@) == Some("text"@) {
        match block.text_member("text"@) {
            Some(found) => seq![found],
            None => Seq::empty(),
        }
    } else {
        Seq::empty()
    });
    if right.len() == 0 {
        assert(left + right =~= left);
        assert(messages::block_texts(left) + messages::block_texts(right)
            =~= messages::block_texts(left));
    } else {
        text_blocks_give_their_texts(left, right.drop_last(), block);
        assert((left + right).drop_last() =~= left + right.drop_last());
        assert(messages::block_texts(left + right) =~= messages::block_texts(left)
            + messages::block_texts(right));
    }
}

/// The text of a content is the content itself where it is a string, the lines
/// of its text blocks where it is a list with any text in it, and nothing else
/// has a text.
pub proof fn content_is_read_whole(content: Json)
    ensures
        match content {
            Json::Text(found) => messages::content_text(content) == Some(found@),
            Json::Array(blocks) => {
                let lines = text::joined(messages::block_texts(blocks@), "\n"@);
                &&& lines.len() == 0 ==> messages::content_text(content) is None
                &&& lines.len() > 0 ==> messages::content_text(content) == Some(lines)
            },
            _ => messages::content_text(content) is None,
        },
{
}

/// A line is indexed with its own columns: the role that it names, the text of
/// its content, its tool name and its time, or the present where it gives none.
/// It is not indexed exactly where its role is not one of the indexed ones, or
/// it has no text but white space.
pub proof fn line_is_indexed_with_its_columns(value: Json, now: u64)
    ensures
        match messages::indexable(value, now) {
            Some(message) => {
                &&& value.text_member("role"@) matches Some(role)
                &&& message.role == IndexedRole::User ==> role == "user"@
                &&& message.role == IndexedRole::Assistant ==> role == "assistant"@
                &&& message.role == IndexedRole::Tool ==> role == "tool"@ || role == "tool_result"@
                &&& value.member("content"@) matches Some(content)
                &&& messages::content_text(content) == Some(message.content)
                &&& !text::blank(message.content)
                &&& message.tool_name == value.text_member("tool_name"@)
                &&& message.created_at == match value.member("created_at"@) {
                    Some(Json::Unsigned(time)) => time,
                    _ => now,
                }
            },
            None => {
                ||| !(value.text_member("role"@) matches Some(role) && (role == "user"@ || role
                    == "assistant"@ || role == "tool"@ || role == "tool_result"@))
                ||| !(value.member("content"@) matches Some(content) && (messages::content_text(
                    content,
                ) matches Some(found) && !text::blank(found)))
            },
        },
{
}

/// Every indexable line has its message, and every message its line: message
/// `k` is that of the `k`-th line that is indexed, and no such line is missing.
pub proof fn every_indexable_line_has_its_message(lines: Seq<Json>, now: u64)
    ensures
        ({
            let places = messages::indexable_lines(lines, now);
            let list = messages::indexable_messages(lines, now);
            &&& places.len() == list.len()
            &&& forall|k: int|
                0 <= k < places.len() ==> {
                    &&& 0 <= #[trigger] places[k] < lines.len()
                    &&& messages::indexable(lines[places[k]], now) == Some(list[k])
                }
            &&& forall|k: int, m: int|
                0 <= k < m < places.len() ==> (#[trigger] places[k]) < (#[trigger] places[m])
            &&& forall|at: int|
                0 <= at < lines.len() && messages::indexable(#[trigger] lines[at], now) is Some
                    ==> places.contains(at)
        }),
    decreases lines.len(),
{
    if lines.len() > 0 {
        let rest = lines.drop_last();
        every_indexable_line_has_its_message(rest, now);
        let (before, list_before) = (
            messages::indexable_lines(rest, now),
            messages::indexable_messages(rest, now),
        );
        let places = messages::indexable_lines(lines, now);
        let list = messages::indexable_messages(lines, now);
        assert forall|k: int| 0 <= k < places.len() implies {
            &&& 0 <= #[trigger] places[k] < lines.len()
            &&& messages::indexable(lines[places[k]], now) == Some(list[k])
        } by {
            if k < before.len() {
                assert(places[k] == before[k] && list[k] == list_before[k]);
                assert(rest[before[k]] == lines[before[k]]);
            }
        }
        assert forall|k: int, m: int| 0 <= k < m < places.len() implies (#[trigger] places[k]) < (
        #[trigger] places[m]) by {
            assert(places[k] == before[k]);
            if m < before.len() {
                assert(places[m] == before[m]);
            }
        }
        assert forall|at: int|
            0 <= at < lines.len() && messages::indexable(
                #[trigger] lines[at],
                now,
            ) is Some implies places.contains(at) by {
            if at < rest.len() {
                assert(rest[at] == lines[at]);
                let k = choose|k: int| 0 <= k < before.len() && before[k] == at;
                assert(places[k] == at);
            } else {
                assert(places[before.len() as int] == at);
            }
        }
    }
}

} // verus!
