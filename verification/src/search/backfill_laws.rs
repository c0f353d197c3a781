//! What holds of every backfill.

use vstd::prelude::*;

use crate::json::Json;
use crate::search::backfill;
use crate::search::messages;
use crate::search::rows;
use crate::search::rows::IndexRowView;

verus! {

/// Whether a line is indexed does not depend on when it is read.
proof fn lemma_count_is_timeless(lines: Seq<Json>, now: u64, later: u64)
    ensures
        messages::indexable_messages(lines, now).len() == messages::indexable_messages(
            lines,
            later,
        ).len(),
        messages::indexable_lines(lines, now) == messages::indexable_lines(lines, later),
    decreases lines.len(),
{
    if lines.len() > 0 {
        lemma_count_is_timeless(lines.drop_last(), now, later);
    }
}

/// Line indexes behind `by` more lines.
pub open spec fn shifted(places: Seq<int>, by: int) -> Seq<int> {
    places.map_values(|place: int| place + by)
}

proof fn lemma_messages_add(lines: Seq<Json>, added: Seq<Json>, now: u64)
    ensures
        messages::indexable_messages(lines + added, now) == messages::indexable_messages(lines, now)
            + messages::indexable_messages(added, now),
        messages::indexable_lines(lines + added, now) == messages::indexable_lines(lines, now)
            + shifted(messages::indexable_lines(added, now), lines.len() as int),
    decreases added.len(),
{
    let first = messages::indexable_messages(lines, now);
    let places = messages::indexable_lines(lines, now);
    let more = messages::indexable_lines(added, now);
    if added.len() == 0 {
        assert(lines + added =~= lines);
        assert(first + messages::indexable_messages(added, now) =~= first);
        assert(places + shifted(more, lines.len() as int) =~= places);
    } else {
        lemma_messages_add(lines, added.drop_last(), now);
        assert((lines + added).drop_last() =~= lines + added.drop_last());
        assert(messages::indexable_messages(lines + added, now) =~= first
            + messages::indexable_messages(added, now));
        assert(messages::indexable_lines(lines + added, now) =~= places + shifted(
            more,
            lines.len() as int,
        ));
    }
}

proof fn lemma_live_push(session: Seq<IndexRowView>, row: IndexRowView)
    ensures
        rows::live_count(session.push(row)) == rows::live_count(session) + if row.active {
            1int
        } else {
            0
        },
{
    reveal(Seq::filter);
    assert(session.push(row).drop_last() =~= session);
}

proof fn lemma_live_add(session: Seq<IndexRowView>, added: Seq<IndexRowView>)
    requires
        forall|i: int| 0 <= i < added.len() ==> (#[trigger] added[i]).active,
    ensures
        rows::live_count(session + added) == rows::live_count(session) + added.len(),
    decreases added.len(),
{
    if added.len() == 0 {
        assert(session + added =~= session);
    } else {
        let rest = added.drop_last();
        assert forall|i: int| 0 <= i < rest.len() implies (#[trigger] rest[i]).active by {
            assert(rest[i] == added[i]);
        }
        lemma_live_add(session, rest);
        lemma_live_push(session + rest, added[added.len() - 1]);
        assert(session + added =~= (session + rest).push(added[added.len() - 1]));
    }
}

proof fn lemma_none_live(session: Seq<IndexRowView>)
    requires
        forall|i: int| 0 <= i < session.len() ==> !(#[trigger] session[i]).active,
    ensures
        rows::live_count(session) == 0,
    decreases session.len(),
{
    reveal(Seq::filter);
    if session.len() > 0 {
        let rest = session.drop_last();
        assert forall|i: int| 0 <= i < rest.len() implies !(#[trigger] rest[i]).active by {
            assert(rest[i] == session[i]);
        }
        lemma_none_live(rest);
        assert(session[session.len() - 1] == session.last());
    }
}

/// Every indexable line is live or pending, and none is both: the pending rows
/// are those of the indexable lines behind the live ones, in order, each with
/// the columns of its line's message.
pub proof fn every_line_is_live_or_pending(
    key: Seq<char>,
    lines: Seq<Json>,
    session: Seq<IndexRowView>,
    now: u64,
)
    requires
        rows::live_count(session) <= messages::indexable_messages(lines, now).len(),
    ensures
        ({
            let list = messages::indexable_messages(lines, now);
            let live = rows::live_count(session);
            let pending = backfill::pending_of(key, lines, session, now);
            &&& live + pending.len() == list.len()
            &&& forall|i: int|
                0 <= i < pending.len() ==> {
                    let message = list[live + i];
                    &&& (#[trigger] pending[i]).session_key == key
                    &&& pending[i].role == message.role.name()
                    &&& pending[i].content == message.content
                    &&& pending[i].tool_name == message.tool_name
                    &&& message.created_at <= i64::MAX ==> pending[i].created_at
                        == message.created_at
                    &&& pending[i].active
                    &&& !pending[i].compacted
                }
        }),
{
}

/// Nothing is pending where a session has as many live rows as its transcript
/// has indexable lines, or more.
pub proof fn nothing_is_pending_where_enough_is_live(
    key: Seq<char>,
    lines: Seq<Json>,
    session: Seq<IndexRowView>,
    now: u64,
)
    requires
        rows::live_count(session) >= messages::indexable_messages(lines, now).len(),
    ensures
        backfill::pending_of(key, lines, session, now).len() == 0,
{
}

/// Live rows are counted one by one: a row counts exactly where it is live, and
/// two lists count as each does.
pub proof fn live_rows_are_counted(
    left: Seq<IndexRowView>,
    right: Seq<IndexRowView>,
    row: IndexRowView,
)
    ensures
        rows::live_count(Seq::empty()) == 0,
        rows::live_count(seq![row]) == if row.active {
            1int
        } else {
            0
        },
        rows::live_count(left + right) == rows::live_count(left) + rows::live_count(right),
    decreases right.len(),
{
    let empty = Seq::<IndexRowView>::empty();
    lemma_none_live(empty);
    lemma_live_push(empty, row);
    assert(empty.push(row) =~= seq![row]);
    if right.len() == 0 {
        assert(left + right =~= left);
        assert(right =~= empty);
    } else {
        let rest = right.drop_last();
        let last = right.last();
        live_rows_are_counted(left, rest, row);
        lemma_live_push(left + rest, last);
        lemma_live_push(rest, last);
        assert(left + right =~= (left + rest).push(last));
        assert(right =~= rest.push(last));
    }
}

/// Pending rows are numbered in the order of their lines, behind every row of
/// their session: each by its line, or by the next free number where the
/// session has gone beyond that.
pub proof fn pending_rows_are_beyond_the_index(
    key: Seq<char>,
    lines: Seq<Json>,
    session: Seq<IndexRowView>,
    now: u64,
    i: int,
)
    requires
        rows::in_sequence(session),
        lines.len() <= i64::MAX,
        rows::next_seq_of(session) + lines.len() <= i64::MAX,
        0 <= i < backfill::pending_of(key, lines, session, now).len(),
    ensures
        ({
            let pending = backfill::pending_of(key, lines, session, now);
            &&& pending[i].seq == backfill::larger(
                messages::indexable_lines(lines, now)[rows::live_count(session) + i],
                rows::next_seq_of(session) + i,
            )
            &&& i > 0 ==> pending[i - 1].seq < pending[i].seq
            &&& forall|j: int|
                0 <= j < session.len() ==> (#[trigger] session[j]).seq < pending[i].seq
        }),
{
    backfill::lemma_indexable_lines(lines, now);
    let places = messages::indexable_lines(lines, now);
    let live = rows::live_count(session);
    if i > 0 {
        assert(places[live + i - 1] + 1 <= places[live + i]);
    }
    assert forall|j: int| 0 <= j < session.len() implies (#[trigger] session[j]).seq
        < rows::next_seq_of(session) by {
        assert(session[j].seq <= session.last().seq);
    }
}

/// Where the numbers of a session have not gone beyond its next pending line,
/// every pending row is numbered by its line. So it is with an empty index.
pub proof fn pending_rows_are_numbered_by_line(
    key: Seq<char>,
    lines: Seq<Json>,
    session: Seq<IndexRowView>,
    now: u64,
    i: int,
)
    requires
        lines.len() <= i64::MAX,
        0 <= i < backfill::pending_of(key, lines, session, now).len(),
        session.len() == 0 || rows::next_seq_of(session) <= messages::indexable_lines(
            lines,
            now,
        )[rows::live_count(session) as int],
    ensures
        backfill::pending_of(key, lines, session, now)[i].seq == messages::indexable_lines(
            lines,
            now,
        )[rows::live_count(session) + i],
{
    backfill::lemma_indexable_lines(lines, now);
    let places = messages::indexable_lines(lines, now);
    let live = rows::live_count(session);
    if session.len() == 0 {
        lemma_none_live(session);
        assert(i <= places[live + i]);
    } else {
        assert(places[live as int] + i <= places[live + i]);
    }
}

/// A session that holds what a backfill of an empty index has inserted so far
/// has pending exactly the indexable lines beyond its highest number, each
/// numbered by its line.
pub proof fn backfill_goes_by_line(
    key: Seq<char>,
    lines: Seq<Json>,
    now: u64,
    later: u64,
    inserted: int,
)
    requires
        lines.len() <= i64::MAX,
        0 <= inserted <= backfill::pending_of(key, lines, Seq::empty(), now).len(),
    ensures
        ({
            let session = backfill::pending_of(key, lines, Seq::empty(), now).take(inserted);
            let places = messages::indexable_lines(lines, later);
            let pending = backfill::pending_of(key, lines, session, later);
            &&& pending.len() == places.len() - inserted
            &&& forall|i: int|
                0 <= i < places.len() ==> (rows::next_seq_of(session) <= #[trigger] places[i]
                    <==> inserted <= i)
            &&& forall|i: int|
                0 <= i < pending.len() ==> (#[trigger] pending[i]).seq == places[inserted + i]
        }),
{
    let empty = Seq::<IndexRowView>::empty();
    let all = backfill::pending_of(key, lines, empty, now);
    let session = all.take(inserted);
    let places = messages::indexable_lines(lines, later);
    let pending = backfill::pending_of(key, lines, session, later);
    lemma_none_live(empty);
    lemma_count_is_timeless(lines, now, later);
    backfill::lemma_indexable_lines(lines, later);
    assert(empty + session =~= session);
    interrupted_backfill_resumes(key, lines, empty, now, later, inserted);
    assert forall|i: int| 0 <= i < all.len() implies (#[trigger] all[i]).seq == places[i] by {
        pending_rows_are_numbered_by_line(key, lines, empty, now, i);
    }
    assert forall|i: int| 0 <= i < pending.len() implies (#[trigger] pending[i]).seq
        == places[inserted + i] by {
        pending_rows_are_numbered_by_line(key, lines, empty, later, inserted + i);
    }
    assert forall|i: int| 0 <= i < places.len() implies (rows::next_seq_of(session)
        <= #[trigger] places[i] <==> inserted <= i) by {
        if inserted > 0 {
            assert(session.last() == all[inserted - 1]);
            if i < inserted {
                assert(places[i] + (inserted - 1 - i) <= places[inserted - 1]);
            } else {
                assert(places[inserted - 1] + (i - (inserted - 1)) <= places[i]);
            }
        }
    }
}

/// A backfill that stopped after some of its rows resumes with exactly the
/// rest, whenever it resumes.
pub proof fn interrupted_backfill_resumes(
    key: Seq<char>,
    lines: Seq<Json>,
    session: Seq<IndexRowView>,
    now: u64,
    later: u64,
    inserted: int,
)
    requires
        lines.len() <= i64::MAX,
        rows::next_seq_of(session) + lines.len() <= i64::MAX,
        0 <= inserted <= backfill::pending_of(key, lines, session, now).len(),
    ensures
        backfill::pending_of(
            key,
            lines,
            session + backfill::pending_of(key, lines, session, now).take(inserted),
            later,
        ) == backfill::pending_of(key, lines, session, later).skip(inserted),
{
    let done = backfill::pending_of(key, lines, session, now).take(inserted);
    let places = messages::indexable_lines(lines, later);
    let live = rows::live_count(session);
    let first = rows::next_seq_of(session);
    lemma_count_is_timeless(lines, now, later);
    backfill::lemma_indexable_lines(lines, later);
    lemma_live_add(session, done);
    if inserted == 0 {
        assert(session + done =~= session);
    } else {
        assert((session + done).last() == done[inserted - 1]);
        assert(rows::next_seq_of(session + done) == backfill::larger(
            places[live + inserted - 1],
            first + inserted - 1,
        ) + 1);
    }
    let left = backfill::pending_of(key, lines, session + done, later);
    let right = backfill::pending_of(key, lines, session, later).skip(inserted);
    assert forall|i: int| 0 <= i < left.len() implies left[i] == right[i] by {
        if inserted > 0 {
            assert(places[live + inserted - 1] + (i + 1) <= places[live + inserted + i]);
        }
    }
    assert(left =~= right);
}

/// A backfill is idempotent: once it has run to its end, nothing is pending.
pub proof fn backfill_is_idempotent(
    key: Seq<char>,
    lines: Seq<Json>,
    session: Seq<IndexRowView>,
    now: u64,
    later: u64,
)
    requires
        lines.len() <= i64::MAX,
        rows::next_seq_of(session) + lines.len() <= i64::MAX,
    ensures
        backfill::pending_of(
            key,
            lines,
            session + backfill::pending_of(key, lines, session, now),
            later,
        ).len() == 0,
{
    let pending = backfill::pending_of(key, lines, session, now);
    interrupted_backfill_resumes(key, lines, session, now, later, pending.len() as int);
    assert(pending.take(pending.len() as int) =~= pending);
    lemma_count_is_timeless(lines, now, later);
}

/// A backfill is incremental: lines added to a transcript add their own rows
/// behind those that were pending before.
pub proof fn backfill_is_incremental(
    key: Seq<char>,
    lines: Seq<Json>,
    added: Seq<Json>,
    session: Seq<IndexRowView>,
    now: u64,
)
    requires
        rows::live_count(session) <= messages::indexable_messages(lines, now).len(),
    ensures
        backfill::pending_of(key, lines + added, session, now) == backfill::pending_of(
            key,
            lines,
            session,
            now,
        ) + backfill::placed(
            key,
            messages::indexable_messages(added, now),
            shifted(messages::indexable_lines(added, now), lines.len() as int),
            rows::next_seq_of(session) + backfill::pending_of(key, lines, session, now).len(),
        ),
{
    lemma_messages_add(lines, added, now);
    backfill::lemma_indexable_lines(lines, now);
    backfill::lemma_indexable_lines(added, now);
    assert(backfill::pending_of(key, lines + added, session, now) =~= backfill::pending_of(
        key,
        lines,
        session,
        now,
    ) + backfill::placed(
        key,
        messages::indexable_messages(added, now),
        shifted(messages::indexable_lines(added, now), lines.len() as int),
        rows::next_seq_of(session) + backfill::pending_of(key, lines, session, now).len(),
    ));
}

/// The rows of a session after `values` were appended to its transcript, each
/// indexed as it arrived: value `i` at the time `times[i]`.
pub open spec fn live_appended(
    session: Seq<IndexRowView>,
    key: Seq<char>,
    values: Seq<Json>,
    times: Seq<u64>,
) -> Seq<IndexRowView>
    decreases values.len(),
{
    if values.len() == 0 {
        session
    } else {
        let before = live_appended(session, key, values.drop_last(), times);
        match messages::indexable(values.last(), times[values.len() - 1]) {
            Some(message) => before.push(
                rows::row_of(key, rows::next_seq_of(before) as i64, message),
            ),
            None => before,
        }
    }
}

/// A transcript that was indexed as it grew is not indexed again: where
/// nothing was pending, nothing is pending after any run of live appends,
/// whether their lines are indexable or not.
pub proof fn live_appends_leave_nothing_pending(
    session: Seq<IndexRowView>,
    key: Seq<char>,
    lines: Seq<Json>,
    values: Seq<Json>,
    times: Seq<u64>,
    now: u64,
)
    requires
        backfill::pending_of(key, lines, session, now).len() == 0,
    ensures
        backfill::pending_of(
            key,
            lines + values,
            live_appended(session, key, values, times),
            now,
        ).len() == 0,
        rows::live_count(live_appended(session, key, values, times)) == rows::live_count(session)
            + messages::indexable_messages(values, now).len(),
{
    lemma_live_appended(session, key, values, times, now);
    lemma_messages_add(lines, values, now);
}

proof fn lemma_live_appended(
    session: Seq<IndexRowView>,
    key: Seq<char>,
    values: Seq<Json>,
    times: Seq<u64>,
    now: u64,
)
    ensures
        rows::live_count(live_appended(session, key, values, times)) == rows::live_count(session)
            + messages::indexable_messages(values, now).len(),
    decreases values.len(),
{
    if values.len() > 0 {
        let before = live_appended(session, key, values.drop_last(), times);
        lemma_live_appended(session, key, values.drop_last(), times, now);
        match messages::indexable(values.last(), times[values.len() - 1]) {
            Some(message) => {
                lemma_live_push(
                    before,
                    rows::row_of(key, rows::next_seq_of(before) as i64, message),
                );
            },
            None => {},
        }
    }
}

/// The live rows after a replacement are as many as the new history has
/// indexable lines.
proof fn lemma_live_after_replacement(
    session: Seq<IndexRowView>,
    key: Seq<char>,
    values: Seq<Json>,
    at: u64,
    now: u64,
)
    ensures
        rows::live_count(rows::replaced(session, key, values, at)) == messages::indexable_messages(
            values,
            now,
        ).len(),
{
    let archived = session.map_values(|row: IndexRowView| row.archived());
    lemma_none_live(archived);
    lemma_live_add(archived, rows::fresh_rows(key, values, rows::next_seq_of(session), at));
    lemma_count_is_timeless(values, at, now);
}

/// A replaced history is not indexed again: right after a replacement nothing
/// of the new history is pending.
pub proof fn replacement_leaves_nothing_pending(
    session: Seq<IndexRowView>,
    key: Seq<char>,
    values: Seq<Json>,
    at: u64,
    now: u64,
)
    ensures
        backfill::pending_of(key, values, rows::replaced(session, key, values, at), now).len()
            == 0,
{
    lemma_live_after_replacement(session, key, values, at, now);
}

/// Lines that follow a replaced history and were not indexed as they arrived
/// are pending, all of them, and nothing else is.
pub proof fn lines_after_a_replacement_are_pending(
    session: Seq<IndexRowView>,
    key: Seq<char>,
    values: Seq<Json>,
    added: Seq<Json>,
    at: u64,
    now: u64,
)
    ensures
        backfill::pending_of(key, values + added, rows::replaced(session, key, values, at), now)
            == backfill::placed(
            key,
            messages::indexable_messages(added, now),
            shifted(messages::indexable_lines(added, now), values.len() as int),
            rows::next_seq_of(rows::replaced(session, key, values, at)),
        ),
{
    let after = rows::replaced(session, key, values, at);
    lemma_live_after_replacement(session, key, values, at, now);
    replacement_leaves_nothing_pending(session, key, values, at, now);
    backfill_is_incremental(key, values, added, after, now);
    assert(backfill::pending_of(key, values + added, after, now) =~= backfill::placed(
        key,
        messages::indexable_messages(added, now),
        shifted(messages::indexable_lines(added, now), values.len() as int),
        rows::next_seq_of(after),
    ));
}

/// The chunks of a backfill are its rows in order: each row is in the chunk
/// that its position gives, and no chunk is empty or too long.
pub proof fn chunks_cover_all_rows(pending: Seq<IndexRowView>, i: int)
    requires
        0 <= i < pending.len(),
    ensures
        ({
            let n = i / (backfill::BACKFILL_CHUNK as int);
            let at = i % (backfill::BACKFILL_CHUNK as int);
            &&& 0 <= n < backfill::chunk_count(pending.len())
            &&& 0 < backfill::chunk_at(pending, n).len() <= backfill::BACKFILL_CHUNK
            &&& at < backfill::chunk_at(pending, n).len()
            &&& backfill::chunk_at(pending, n)[at] == pending[i]
        }),
{
}

/// No chunk of a backfill is empty, and none holds more than may be inserted
/// together.
pub proof fn no_chunk_is_empty(pending: Seq<IndexRowView>, n: int)
    requires
        0 <= n < backfill::chunk_count(pending.len()),
    ensures
        0 < backfill::chunk_at(pending, n).len() <= 500,
{
}

/// The messages indexed over all sessions are the sum of those of each; a
/// session that failed adds none.
pub proof fn totals_add_up(left: Seq<Option<u64>>, right: Seq<Option<u64>>, count: Option<u64>)
    ensures
        backfill::total_of(Seq::empty()) == 0,
        backfill::total_of(seq![count]) == match count {
            Some(count) => count as int,
            None => 0,
        },
        backfill::total_of(left + right) == backfill::total_of(left) + backfill::total_of(right),
    decreases right.len(),
{
    assert(seq![count].drop_last() =~= Seq::<Option<u64>>::empty());
    assert(backfill::total_of(Seq::<Option<u64>>::empty()) == 0);
    if right.len() == 0 {
        assert(left + right =~= left);
    } else {
        totals_add_up(left, right.drop_last(), count);
        assert((left + right).drop_last() =~= left + right.drop_last());
    }
}

} // verus!
