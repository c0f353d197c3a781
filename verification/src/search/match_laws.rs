//! What holds of every row that is stored or shown, and of every match.

use vstd::prelude::*;

use crate::json::Json;
use crate::search::discover;
use crate::search::discover::MessageHitView;
use crate::search::index_laws;
use crate::search::messages;
use crate::search::messages::IndexableMessageView;
use crate::search::rows;
use crate::search::rows::{ContextMessageView, IndexRowView};

verus! {

/// A row holds its message: its session, its number, the name of its role, its
/// text, its tool name and its time where an `i64` can hold it. It is live.
pub proof fn row_holds_its_message(key: Seq<char>, seq: i64, message: IndexableMessageView)
    ensures
        ({
            let row = rows::row_of(key, seq, message);
            &&& row.session_key == key
            &&& row.seq == seq
            &&& row.role == message.role.name()
            &&& row.content == message.content
            &&& row.tool_name == message.tool_name
            &&& message.created_at <= i64::MAX ==> row.created_at == message.created_at
            &&& row.active
            &&& !row.compacted
        }),
{
}

/// The next number of a session is one more than its highest, and zero where it
/// has none.
pub proof fn next_number_follows_the_highest(session: Seq<IndexRowView>, highest: i64)
    ensures
        session.len() == 0 ==> rows::next_seq_of(session) == 0,
        session.len() > 0 ==> rows::next_seq_of(session) == session[session.len() - 1].seq + 1,
        rows::seq_after(None) == 0,
        rows::seq_after(Some(highest)) == highest + 1,
{
}

/// A row leaves the transcript by losing its live flag and gaining the archived
/// one; a row that is not live stays as it is.
pub proof fn only_live_rows_are_archived(
    session: Seq<IndexRowView>,
    key: Seq<char>,
    values: Seq<Json>,
    now: u64,
    i: int,
)
    requires
        0 <= i < session.len(),
    ensures
        rows::replaced(session, key, values, now)[i] == if session[i].active {
            IndexRowView { active: false, compacted: true, ..session[i] }
        } else {
            session[i]
        },
{
}

/// A new history is indexed whole: behind the archived rows stands one row for
/// each of its indexable lines, in order, with the columns of that line's
/// message, numbered on from the rows before.
pub proof fn new_history_is_indexed_whole(
    session: Seq<IndexRowView>,
    key: Seq<char>,
    values: Seq<Json>,
    now: u64,
    i: int,
)
    requires
        rows::next_seq_of(session) + values.len() <= i64::MAX,
        0 <= i < messages::indexable_messages(values, now).len(),
    ensures
        ({
            let list = messages::indexable_messages(values, now);
            let after = rows::replaced(session, key, values, now);
            let row = after[session.len() + i];
            &&& after.len() == session.len() + list.len()
            &&& row.session_key == key
            &&& row.seq == i + if session.len() == 0 {
                0
            } else {
                session[session.len() - 1].seq + 1
            }
            &&& row.role == list[i].role.name()
            &&& row.content == list[i].content
            &&& row.tool_name == list[i].tool_name
            &&& list[i].created_at <= i64::MAX ==> row.created_at == list[i].created_at
            &&& row.active
            &&& !row.compacted
        }),
{
    rows::lemma_at_most_one_message_per_line(values, now);
}

/// `message` shows `row`: its number, its role, its time, and its text, cut to
/// `max` characters where it is longer, with an ellipsis for the rest.
pub open spec fn shows(message: ContextMessageView, row: IndexRowView, max: int) -> bool {
    &&& message.seq == row.seq
    &&& message.role == row.role
    &&& row.content.len() <= max ==> message.content == row.content
    &&& row.content.len() > max ==> message.content == row.content.take(max).push('…')
    &&& row.created_at >= 0 ==> message.created_at == row.created_at
    &&& row.created_at < 0 ==> message.created_at == 0
}

/// The context of a match shows the rows around it, one message for each live or
/// archived row whose number is at most `window` away, in order, and marks the
/// one that was hit. The counts are those of the rows before and behind.
pub proof fn context_shows_the_rows_around_the_match(
    hit: MessageHitView,
    session: Seq<IndexRowView>,
    window: usize,
    i: int,
)
    requires
        window <= i64::MAX,
        session.len() <= i64::MAX,
    ensures
        ({
            let found = discover::match_of(hit, session, window);
            let around = session.filter(
                |row: IndexRowView|
                    (row.active || row.compacted) && hit.seq - window <= row.seq <= hit.seq
                        + window,
            );
            &&& found.session_key == hit.session_key
            &&& found.hit == hit
            &&& found.context.len() == around.len()
            &&& 0 <= i < around.len() ==> shows(found.context[i], around[i], 4000)
            &&& 0 <= i < around.len() ==> (found.context[i].is_match <==> around[i].seq == hit.seq)
            &&& found.messages_before == session.filter(
                |row: IndexRowView|
                    (row.active || row.compacted) && row.seq < hit.seq - window,
            ).len()
            &&& found.messages_after == session.filter(
                |row: IndexRowView|
                    (row.active || row.compacted) && row.seq > hit.seq + window,
            ).len()
        }),
{
    let low = rows::window_low(hit.seq, window);
    let high = rows::window_high(hit.seq, window);
    let near = |row: IndexRowView|
        (row.active || row.compacted) && hit.seq - window <= row.seq <= hit.seq + window;
    let before = |row: IndexRowView|
        (row.active || row.compacted) && row.seq < hit.seq - window;
    let behind = |row: IndexRowView|
        (row.active || row.compacted) && row.seq > hit.seq + window;
    assert(near =~= |row: IndexRowView| row.visible() && low <= row.seq <= high);
    assert(before =~= |row: IndexRowView| row.visible() && row.seq < low);
    assert(behind =~= |row: IndexRowView| row.visible() && row.seq > high);
    session.lemma_filter_len(before);
    session.lemma_filter_len(behind);
    assert(rows::within(session, low, high) == session.filter(near));
    assert(rows::below(session, low) == session.filter(before));
    assert(rows::above(session, high) == session.filter(behind));
}

/// A window wider than any distance between two numbers that an `i64` holds
/// turns negative and shows nothing.
pub proof fn window_beyond_all_numbers_is_empty(
    hit: MessageHitView,
    session: Seq<IndexRowView>,
    window: usize,
)
    requires
        window > i64::MAX,
    ensures
        discover::match_of(hit, session, window).context.len() == 0,
{
    let low = rows::window_low(hit.seq, window);
    let high = rows::window_high(hit.seq, window);
    let inside = rows::within(session, low, high);
    if inside.len() > 0 {
        session.lemma_filter_pred(
            |row: IndexRowView| row.visible() && low <= row.seq <= high,
            0,
        );
    }
}

/// The bookends of a match show the conversation of its session: its first three
/// live or archived messages of the user and the assistant, and its last three
/// without those.
pub proof fn bookends_show_the_conversation(
    hit: MessageHitView,
    session: Seq<IndexRowView>,
    window: usize,
    i: int,
)
    requires
        index_laws::distinct_seqs(session),
    ensures
        ({
            let found = discover::match_of(hit, session, window);
            let talk = session.filter(
                |row: IndexRowView|
                    (row.active || row.compacted) && (row.role == "user"@ || row.role
                        == "assistant"@),
            );
            let first = if talk.len() < 3 {
                talk.len() as int
            } else {
                3
            };
            let from = if talk.len() - 3 > first {
                talk.len() - 3
            } else {
                first
            };
            &&& found.bookend_start.len() == first
            &&& 0 <= i < first ==> shows(found.bookend_start[i], talk[i], 1200)
            &&& 0 <= i < first ==> !found.bookend_start[i].is_match
            &&& found.bookend_end.len() == talk.len() - from
            &&& 0 <= i < talk.len() - from ==> shows(found.bookend_end[i], talk[from + i], 1200)
            &&& 0 <= i < talk.len() - from ==> !found.bookend_end[i].is_match
        }),
{
    let spoken = |row: IndexRowView|
        (row.active || row.compacted) && (row.role == "user"@ || row.role == "assistant"@);
    assert(spoken =~= |row: IndexRowView| row.conversational());
    assert(rows::conversation(session) == session.filter(spoken));
    index_laws::bookends_have_their_sizes(session);
}

} // verus!
