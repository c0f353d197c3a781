//! Catching the index up with stored transcripts.
//!
//! The live rows of a session stand for the first indexable lines of its
//! transcript, one for each. Only the indexable lines behind those are added,
//! so a transcript that was indexed as it grew is not indexed again, and a
//! backfill that stopped half way resumes where it stopped.
//!
//! A backfilled row has the index of its transcript line as its sequence number
//! unless the session has gone beyond that number already: it then has the next
//! free one.

use vstd::prelude::*;

use crate::json::Json;
use crate::search::messages;
use crate::search::messages::{IndexableMessage, IndexableMessageView};
use crate::search::rows;
use crate::search::rows::{IndexRow, IndexRowView, SessionRows};

verus! {

/// How many rows one transaction of a backfill inserts.
pub const BACKFILL_CHUNK: usize = 500;

/// The items behind the first `n`.
pub open spec fn behind<T>(items: Seq<T>, n: nat) -> Seq<T> {
    if n <= items.len() {
        items.skip(n as int)
    } else {
        Seq::empty()
    }
}

/// The larger of two numbers.
pub open spec fn larger(left: int, right: int) -> int {
    if left < right {
        right
    } else {
        left
    }
}

/// The rows of messages that stand at the transcript lines `lines`: each is
/// numbered by its line, or by the next number that is free from `first` on,
/// whichever is larger.
pub open spec fn placed(
    key: Seq<char>,
    list: Seq<IndexableMessageView>,
    lines: Seq<int>,
    first: int,
) -> Seq<IndexRowView> {
    Seq::new(list.len(), |i: int| rows::row_of(key, larger(lines[i], first + i) as i64, list[i]))
}

/// The rows that a session is missing: those of the indexable lines behind as
/// many as the session has live rows, numbered after all of its rows.
pub open spec fn pending_of(
    key: Seq<char>,
    lines: Seq<Json>,
    session: Seq<IndexRowView>,
    now: u64,
) -> Seq<IndexRowView> {
    placed(
        key,
        behind(messages::indexable_messages(lines, now), rows::live_count(session)),
        behind(messages::indexable_lines(lines, now), rows::live_count(session)),
        rows::next_seq_of(session),
    )
}

/// Each indexed line has one message, and lines come in order.
pub proof fn lemma_indexable_lines(lines: Seq<Json>, now: u64)
    ensures
        messages::indexable_lines(lines, now).len() == messages::indexable_messages(
            lines,
            now,
        ).len(),
        messages::indexable_lines(lines, now).len() <= lines.len(),
        forall|i: int|
            0 <= i < messages::indexable_lines(lines, now).len() ==> i
                <= #[trigger] messages::indexable_lines(lines, now)[i] < lines.len(),
        forall|i: int, j: int|
            0 <= i <= j < messages::indexable_lines(lines, now).len() ==> (
            #[trigger] messages::indexable_lines(lines, now)[i]) + (j - i) <= (
            #[trigger] messages::indexable_lines(lines, now)[j]),
    decreases lines.len(),
{
    if lines.len() > 0 {
        lemma_indexable_lines(lines.drop_last(), now);
        let before = messages::indexable_lines(lines.drop_last(), now);
        let after = messages::indexable_lines(lines, now);
        assert forall|i: int| 0 <= i < after.len() implies i <= #[trigger] after[i] < lines.len() by {
            if i < before.len() {
                assert(after[i] == before[i]);
            }
        }
        assert forall|i: int, j: int| 0 <= i <= j < after.len() implies (#[trigger] after[i]) + (j
            - i) <= (#[trigger] after[j]) by {
            if j < before.len() {
                assert(after[i] == before[i] && after[j] == before[j]);
            } else if i < before.len() {
                assert(after[i] == before[i]);
                let k = before.len() - 1;
                assert(before[i] + (k - i) <= before[k]);
            }
        }
    }
}

fn count_live(session: &SessionRows) -> (count: usize)
    ensures
        count == rows::live_count(session@),
{
    let stored = session.rows();
    let ghost views = session@;
    let mut count: usize = 0;
    proof {
        reveal(Seq::filter);
        assert(views.take(0) =~= Seq::<IndexRowView>::empty());
    }
    for i in 0..stored.len()
        invariant
            views == rows::row_views(stored@),
            count == rows::live_count(views.take(i as int)),
            count <= i,
    {
        proof {
            reveal(Seq::filter);
            assert(views.take(i + 1).drop_last() =~= views.take(i as int));
            assert(views.take(i + 1).last() == stored@[i as int]@);
        }
        if stored[i].active {
            count = count + 1;
        }
    }
    assert(views.take(views.len() as int) =~= views);
    count
}

/// The rows that a session's index lacks of its transcript.
pub fn pending_rows(key: &str, lines: &Vec<Json>, session: &SessionRows, now: u64) -> (pending: Vec<
    IndexRow,
>)
    requires
        session.wf(),
        lines@.len() <= i64::MAX,
        rows::next_seq_of(session@) + lines@.len() <= i64::MAX,
    ensures
        rows::row_views(pending@) == pending_of(key@, lines@, session@, now),
{
    let live: usize = count_live(session);
    let stored = session.rows();
    let first: i64 = if stored.len() == 0 {
        0
    } else {
        assert(session@.last().seq == stored@[stored@.len() - 1].seq);
        stored[stored.len() - 1].seq + 1
    };
    let mut pending: Vec<IndexRow> = Vec::new();
    let mut passed: usize = 0;
    let mut free: i64 = first;
    assert(rows::row_views(pending@) =~= placed(
        key@,
        behind(messages::indexable_messages(lines@.take(0), now), live as nat),
        behind(messages::indexable_lines(lines@.take(0), now), live as nat),
        first as int,
    ));
    for i in 0..lines.len()
        invariant
            lines@.len() <= i64::MAX,
            first + lines@.len() <= i64::MAX,
            passed <= live,
            passed == live || passed == messages::indexable_messages(
                lines@.take(i as int),
                now,
            ).len(),
            passed <= messages::indexable_messages(lines@.take(i as int), now).len(),
            pending@.len() <= i,
            first + pending@.len() <= free,
            free == first + pending@.len() || free <= i,
            rows::row_views(pending@) == placed(
                key@,
                behind(messages::indexable_messages(lines@.take(i as int), now), live as nat),
                behind(messages::indexable_lines(lines@.take(i as int), now), live as nat),
                first as int,
            ),
    {
        let ghost list = messages::indexable_messages(lines@.take(i as int), now);
        let ghost places = messages::indexable_lines(lines@.take(i as int), now);
        let ghost after = messages::indexable_messages(lines@.take(i + 1), now);
        let ghost places_after = messages::indexable_lines(lines@.take(i + 1), now);
        let ghost so_far = pending@;
        proof {
            assert(lines@.take(i + 1).drop_last() =~= lines@.take(i as int));
            lemma_indexable_lines(lines@.take(i as int), now);
        }
        match IndexableMessage::from_value_at(&lines[i], now) {
            Some(message) => {
                assert(after == list.push(message@));
                assert(places_after == places.push(i as int));
                if passed < live {
                    passed = passed + 1;
                    assert(behind(after, live as nat) =~= behind(list, live as nat));
                    assert(behind(places_after, live as nat) =~= behind(places, live as nat));
                } else {
                    let seq: i64 = if (i as i64) < free {
                        free
                    } else {
                        i as i64
                    };
                    pending.push(rows::new_row(key, seq, &message));
                    proof {
                        let row = rows::row_of(key@, seq, message@);
                        assert(rows::row_views(pending@) =~= rows::row_views(so_far).push(row));
                        assert(behind(after, live as nat) =~= behind(list, live as nat).push(
                            message@,
                        ));
                        assert(behind(places_after, live as nat) =~= behind(
                            places,
                            live as nat,
                        ).push(i as int));
                        assert(rows::row_views(so_far).len() == so_far.len());
                        assert(seq == larger(i as int, first + so_far.len()));
                        assert(placed(
                            key@,
                            behind(after, live as nat),
                            behind(places_after, live as nat),
                            first as int,
                        ) =~= placed(
                            key@,
                            behind(list, live as nat),
                            behind(places, live as nat),
                            first as int,
                        ).push(row));
                    }
                    free = seq + 1;
                }
            },
            None => {},
        }
    }
    assert(lines@.take(lines@.len() as int) =~= lines@);
    pending
}

/// The number of chunks that `count` rows are split into.
pub open spec fn chunk_count(count: nat) -> nat {
    (count + BACKFILL_CHUNK as nat - 1) as nat / (BACKFILL_CHUNK as nat)
}

/// Chunk `n` of `pending`: the next rows in order, as many as fit.
pub open spec fn chunk_at(pending: Seq<IndexRowView>, n: int) -> Seq<IndexRowView> {
    let start = n * BACKFILL_CHUNK;
    let end = start + BACKFILL_CHUNK;
    pending.subrange(
        start,
        if end <= pending.len() {
            end
        } else {
            pending.len() as int
        },
    )
}

/// Split the rows of a backfill into the parts that are inserted together.
pub fn chunks(pending: &Vec<IndexRow>) -> (parts: Vec<Vec<IndexRow>>)
    ensures
        parts@.len() == chunk_count(pending@.len()),
        forall|n: int|
            0 <= n < parts@.len() ==> rows::row_views(#[trigger] parts@[n]@) == chunk_at(
                rows::row_views(pending@),
                n,
            ),
{
    let ghost views = rows::row_views(pending@);
    let mut parts: Vec<Vec<IndexRow>> = Vec::new();
    let mut start: usize = 0;
    while start < pending.len()
        invariant
            views == rows::row_views(pending@),
            start == parts@.len() * BACKFILL_CHUNK || start == pending@.len(),
            start < pending@.len() ==> start == parts@.len() * BACKFILL_CHUNK,
            start >= pending@.len() ==> parts@.len() == chunk_count(pending@.len()),
            start <= pending@.len(),
            forall|n: int|
                0 <= n < parts@.len() ==> rows::row_views(#[trigger] parts@[n]@) == chunk_at(
                    views,
                    n,
                ),
        decreases pending@.len() - start,
    {
        let end: usize = if pending.len() - start <= BACKFILL_CHUNK {
            pending.len()
        } else {
            start + BACKFILL_CHUNK
        };
        let mut part: Vec<IndexRow> = Vec::new();
        for i in start..end
            invariant
                views == rows::row_views(pending@),
                start <= end <= pending@.len(),
                rows::row_views(part@) == views.subrange(start as int, i as int),
        {
            let ghost so_far = part@;
            part.push(pending[i].duplicate());
            assert(rows::row_views(part@) =~= rows::row_views(so_far).push(views[i as int]));
            assert(views.subrange(start as int, i + 1) =~= views.subrange(
                start as int,
                i as int,
            ).push(views[i as int]));
        }
        assert(rows::row_views(part@) == chunk_at(views, parts@.len() as int));
        parts.push(part);
        start = end;
    }
    parts
}

/// The sum of the counts that are known.
pub open spec fn total_of(counts: Seq<Option<u64>>) -> int
    decreases counts.len(),
{
    if counts.len() == 0 {
        0
    } else {
        total_of(counts.drop_last()) + match counts.last() {
            Some(count) => count as int,
            None => 0,
        }
    }
}

/// Messages indexed over all sessions, from the count of each session; a
/// session whose backfill failed has none and does not stop the others.
pub fn total_indexed(counts: &Vec<Option<u64>>) -> (total: u64)
    requires
        total_of(counts@) <= u64::MAX,
    ensures
        total == total_of(counts@),
{
    let mut total: u64 = 0;
    for i in 0..counts.len()
        invariant
            total_of(counts@) <= u64::MAX,
            total == total_of(counts@.take(i as int)),
    {
        proof {
            assert(counts@.take(i + 1).drop_last() =~= counts@.take(i as int));
            lemma_total_grows(counts@, i + 1);
        }
        match counts[i] {
            Some(count) => {
                total = total + count;
            },
            None => {},
        }
    }
    assert(counts@.take(counts@.len() as int) =~= counts@);
    total
}

proof fn lemma_total_grows(counts: Seq<Option<u64>>, taken: int)
    requires
        0 <= taken <= counts.len(),
    ensures
        total_of(counts.take(taken)) <= total_of(counts),
    decreases counts.len(),
{
    if taken < counts.len() {
        assert(counts.drop_last().take(taken) =~= counts.take(taken));
        lemma_total_grows(counts.drop_last(), taken);
    } else {
        assert(counts.take(taken) =~= counts);
    }
}

} // verus!
