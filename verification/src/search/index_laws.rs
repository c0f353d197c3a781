//! What holds of the index whatever the transcripts.

use vstd::prelude::*;

use crate::json::Json;
use crate::search::discover;
use crate::search::discover::MessageHitView;
use crate::search::messages::IndexableMessageView;
use crate::search::rows;
use crate::search::rows::IndexRowView;
use crate::text;

verus! {

/// The sequence numbers of a session differ.
pub open spec fn distinct_seqs(session: Seq<IndexRowView>) -> bool {
    forall|i: int, j: int|
        0 <= i < j < session.len() ==> (#[trigger] session[i]).seq != (#[trigger] session[j]).seq
}

/// Sequence numbers are monotone: an appended row follows every row of its
/// session, and the rows stay in sequence.
pub proof fn append_follows_all_rows(
    session: Seq<IndexRowView>,
    key: Seq<char>,
    message: IndexableMessageView,
)
    requires
        rows::in_sequence(session),
        rows::next_seq_of(session) <= i64::MAX,
    ensures
        ({
            let row = rows::row_of(key, rows::next_seq_of(session) as i64, message);
            &&& rows::in_sequence(session.push(row))
            &&& distinct_seqs(session) ==> distinct_seqs(session.push(row))
            &&& forall|i: int| 0 <= i < session.len() ==> (#[trigger] session[i]).seq < row.seq
        }),
{
    let row = rows::row_of(key, rows::next_seq_of(session) as i64, message);
    let after = session.push(row);
    assert forall|i: int| 0 <= i < session.len() implies (#[trigger] session[i]).seq < row.seq by {
        assert(session[i].seq <= session.last().seq);
    }
    assert forall|i: int, j: int| 0 <= i < j < after.len() implies after[i].seq <= after[j].seq by {
        assert(after[i] == session[i]);
        if j < session.len() {
            assert(after[j] == session[j]);
        }
    }
}

/// An appended message is read back: every window around it ends with it, and
/// shows its role, its text up to the length that is shown, and its time
/// where a stored time can hold it.
pub proof fn appended_message_is_shown(
    session: Seq<IndexRowView>,
    key: Seq<char>,
    message: IndexableMessageView,
    window: usize,
)
    requires
        rows::in_sequence(session),
        rows::next_seq_of(session) <= i64::MAX,
        window <= i64::MAX,
    ensures
        ({
            let row = rows::row_of(key, rows::next_seq_of(session) as i64, message);
            let found = rows::within(
                session.push(row),
                rows::window_low(row.seq, window),
                rows::window_high(row.seq, window),
            );
            let last = rows::shown(found.last(), rows::CONTEXT_CHARS as nat);
            &&& found.len() > 0
            &&& found.last() == row
            &&& last.seq == row.seq
            &&& last.role == message.role.name()
            &&& last.content == text::truncated(message.content, rows::CONTEXT_CHARS as nat)
            &&& message.created_at <= i64::MAX ==> last.created_at == message.created_at
            &&& rows::above(session.push(row), rows::window_high(row.seq, window)).len() == 0
        }),
{
    let row = rows::row_of(key, rows::next_seq_of(session) as i64, message);
    let after = session.push(row);
    let high = rows::window_high(row.seq, window);
    append_follows_all_rows(session, key, message);
    reveal(Seq::filter);
    assert(after.drop_last() =~= session);
    lemma_nothing_above(session, high);
}

proof fn lemma_nothing_above(session: Seq<IndexRowView>, high: int)
    requires
        forall|i: int| 0 <= i < session.len() ==> (#[trigger] session[i]).seq <= high,
    ensures
        rows::above(session, high).len() == 0,
    decreases session.len(),
{
    reveal(Seq::filter);
    if session.len() > 0 {
        assert(session.last() == session[session.len() - 1]);
        let rest = session.drop_last();
        assert forall|i: int| 0 <= i < rest.len() implies (#[trigger] rest[i]).seq <= high by {
            assert(rest[i] == session[i]);
        }
        lemma_nothing_above(rest, high);
    }
}

/// A window and what lies before and after it account for every visible row
/// once.
pub proof fn window_partitions_the_session(session: Seq<IndexRowView>, low: int, high: int)
    requires
        low <= high,
    ensures
        rows::below(session, low).len() + rows::within(session, low, high).len() + rows::above(
            session,
            high,
        ).len() == session.filter(|row: IndexRowView| row.visible()).len(),
    decreases session.len(),
{
    reveal(Seq::filter);
    if session.len() > 0 {
        window_partitions_the_session(session.drop_last(), low, high);
    }
}

/// A replacement keeps history searchable: every row that was visible still
/// is, with its number, role and text; what was live is flagged as compacted
/// and no longer live.
pub proof fn replacement_keeps_history_searchable(
    session: Seq<IndexRowView>,
    key: Seq<char>,
    values: Seq<Json>,
    now: u64,
    i: int,
)
    requires
        0 <= i < session.len(),
    ensures
        ({
            let before = session[i];
            let after = rows::replaced(session, key, values, now)[i];
            &&& after.visible() == before.visible()
            &&& after.session_key == before.session_key
            &&& after.seq == before.seq
            &&& after.role == before.role
            &&& after.content == before.content
            &&& after.tool_name == before.tool_name
            &&& after.created_at == before.created_at
            &&& !after.active
            &&& before.active ==> after.compacted
        }),
{
}

/// After a replacement the live rows are those of the new history, in order.
pub proof fn replacement_leaves_new_history_live(
    session: Seq<IndexRowView>,
    key: Seq<char>,
    values: Seq<Json>,
    now: u64,
)
    ensures
        ({
            let after = rows::replaced(session, key, values, now);
            &&& after.skip(session.len() as int) == rows::fresh_rows(
                key,
                values,
                rows::next_seq_of(session),
                now,
            )
            &&& forall|i: int|
                0 <= i < after.len() ==> ((#[trigger] after[i]).active <==> i >= session.len())
            &&& forall|i: int|
                session.len() <= i < after.len() ==> !(#[trigger] after[i]).compacted
        }),
{
    let after = rows::replaced(session, key, values, now);
    let fresh = rows::fresh_rows(key, values, rows::next_seq_of(session), now);
    assert(after.skip(session.len() as int) =~= fresh);
    assert forall|i: int| session.len() <= i < after.len() implies (#[trigger] after[i]).active
        && !after[i].compacted by {
        assert(after[i] == fresh[i - session.len()]);
    }
}

/// A replacement keeps the sequence numbers of a session different.
pub proof fn replacement_keeps_numbers_distinct(
    session: Seq<IndexRowView>,
    key: Seq<char>,
    values: Seq<Json>,
    now: u64,
)
    requires
        rows::in_sequence(session),
        distinct_seqs(session),
        rows::next_seq_of(session) + values.len() <= i64::MAX,
    ensures
        distinct_seqs(rows::replaced(session, key, values, now)),
{
    let after = rows::replaced(session, key, values, now);
    let fresh = rows::fresh_rows(key, values, rows::next_seq_of(session), now);
    rows::fresh_rows_are_numbered(key, values, rows::next_seq_of(session), now);
    assert forall|i: int, j: int| 0 <= i < j < after.len() implies (#[trigger] after[i]).seq != (
    #[trigger] after[j]).seq by {
        if j < session.len() {
            assert(after[i].seq == session[i].seq && after[j].seq == session[j].seq);
        } else {
            assert(after[j] == fresh[j - session.len()]);
            if i < session.len() {
                assert(session[i].seq <= session.last().seq);
                assert(after[i].seq == session[i].seq);
            } else {
                assert(after[i] == fresh[i - session.len()]);
            }
        }
    }
}

/// The bookends of a session never show the same message twice.
pub proof fn bookends_do_not_overlap(session: Seq<IndexRowView>, i: int, j: int)
    requires
        0 <= i < rows::opening(session).len(),
        0 <= j < rows::closing(session).len(),
    ensures
        rows::opening(session)[i].seq != rows::closing(session)[j].seq,
{
    rows::ending(session).lemma_filter_pred(
        |row: IndexRowView| !rows::has_seq(rows::opening(session), row.seq),
        j,
    );
    assert(rows::opening(session)[i].seq == rows::opening(session)[i].seq);
}

/// Where the closing bookend of a conversation of `n` messages starts: before
/// its last messages, and behind the opening one.
pub open spec fn closing_start(n: int) -> int {
    let size = rows::BOOKEND_MESSAGES as int;
    let tail = if n - size > size {
        n - size
    } else {
        size
    };
    if n < tail {
        n
    } else {
        tail
    }
}

/// The bookends of a session whose sequence numbers differ have their full
/// sizes: the opening one holds the first messages of the conversation, the
/// closing one the last of those that are not among them.
pub proof fn bookends_have_their_sizes(session: Seq<IndexRowView>)
    requires
        distinct_seqs(session),
    ensures
        ({
            let talk = rows::conversation(session);
            &&& rows::closing(session) == talk.skip(closing_start(talk.len() as int))
            &&& rows::opening(session).len() == if talk.len() <= rows::BOOKEND_MESSAGES {
                talk.len() as int
            } else {
                rows::BOOKEND_MESSAGES as int
            }
            &&& rows::opening(session).is_prefix_of(talk)
        }),
{
    let talk = rows::conversation(session);
    let opening = rows::opening(session);
    let ending = rows::ending(session);
    let fresh = |row: IndexRowView| !rows::has_seq(opening, row.seq);
    assert(opening =~= talk.subrange(0, opening.len() as int));
    assert forall|i: int, j: int| 0 <= i < j < talk.len() implies (#[trigger] talk[i]).seq != (
    #[trigger] talk[j]).seq by {
        let keep = |row: IndexRowView| row.conversational();
        lemma_filter_keeps_order(session, keep, i, j);
        let (p, q) = choose|p: int, q: int|
            #![trigger session[p], session[q]]
            0 <= p < q < session.len() && session[p] == session.filter(keep)[i] && session[q]
                == session.filter(keep)[j];
        assert(session[p].seq != session[q].seq);
    }
    let size = rows::BOOKEND_MESSAGES as int;
    let skipped = if talk.len() <= size {
        0
    } else {
        talk.len() - size
    };
    let overlap = closing_start(talk.len() as int) - skipped;
    assert(ending =~= talk.skip(skipped));
    assert forall|i: int| 0 <= i < ending.len() implies fresh(#[trigger] ending[i]) == (i
        >= overlap) by {
        assert(ending[i] == talk[i + skipped]);
        if i < overlap {
            assert(opening[i + skipped] == talk[i + skipped]);
        } else {
            assert forall|k: int| 0 <= k < opening.len() implies (#[trigger] opening[k]).seq
                != ending[i].seq by {
                assert(opening[k] == talk[k]);
                assert(talk[k].seq != talk[i + skipped].seq);
            }
        }
    }
    lemma_filter_drops_first(ending, fresh, overlap);
    assert(ending.skip(overlap) =~= talk.skip(closing_start(talk.len() as int)));
}

/// Where exactly the items from `n` on are kept, those are what is kept.
proof fn lemma_filter_drops_first<T>(items: Seq<T>, keep: spec_fn(T) -> bool, n: int)
    requires
        0 <= n <= items.len(),
        forall|i: int| 0 <= i < items.len() ==> keep(#[trigger] items[i]) == (i >= n),
    ensures
        items.filter(keep) == items.skip(n),
    decreases items.len(),
{
    reveal(Seq::filter);
    if items.len() > 0 {
        let rest = items.drop_last();
        assert forall|i: int| 0 <= i < rest.len() implies keep(#[trigger] rest[i]) == (i >= n) by {
            assert(rest[i] == items[i]);
        }
        assert(items[items.len() - 1] == items.last());
        if n <= rest.len() {
            lemma_filter_drops_first(rest, keep, n);
            assert(items.skip(n) =~= rest.skip(n).push(items.last()));
        } else {
            lemma_filter_drops_first(rest, keep, rest.len() as int);
            assert(items.skip(n) =~= rest.skip(rest.len() as int));
        }
    } else {
        assert(items.skip(n) =~= items.filter(keep));
    }
}

/// A discovery shows each session at most once.
pub proof fn one_match_per_session(
    hits: Seq<MessageHitView>,
    prefixes: Seq<Seq<char>>,
    limit: usize,
    i: int,
    j: int,
)
    requires
        0 <= i < j < discover::at_most(discover::ranked(hits, prefixes), limit).len(),
    ensures
        discover::at_most(discover::ranked(hits, prefixes), limit)[i].session_key
            != discover::at_most(discover::ranked(hits, prefixes), limit)[j].session_key,
{
    let best = discover::first_of_each(hits);
    let ranked = discover::ranked(hits, prefixes);
    let upper = discover::interactive(best, prefixes);
    let lower = discover::background(best, prefixes);
    let keep = |hit: MessageHitView| !discover::demoted(hit.session_key, prefixes);
    let drop = |hit: MessageHitView| discover::demoted(hit.session_key, prefixes);
    lemma_first_of_each_distinct(hits);
    if j < upper.len() {
        lemma_filter_keeps_distinct(best, keep);
    } else if i >= upper.len() {
        lemma_filter_keeps_distinct(best, drop);
        assert(ranked[i] == lower[i - upper.len()]);
        assert(ranked[j] == lower[j - upper.len()]);
    } else {
        best.lemma_filter_pred(keep, i);
        best.lemma_filter_pred(drop, j - upper.len());
    }
}

/// The session keys of the hits differ.
spec fn distinct_sessions(hits: Seq<MessageHitView>) -> bool {
    forall|i: int, j: int|
        0 <= i < j < hits.len() ==> (#[trigger] hits[i]).session_key != (
        #[trigger] hits[j]).session_key
}

proof fn lemma_first_of_each_distinct(hits: Seq<MessageHitView>)
    ensures
        distinct_sessions(discover::first_of_each(hits)),
        forall|i: int|
            0 <= i < discover::first_of_each(hits).len() ==> hits.contains(
                #[trigger] discover::first_of_each(hits)[i],
            ),
    decreases hits.len(),
{
    if hits.len() > 0 {
        let rest = hits.drop_last();
        let before = discover::first_of_each(rest);
        let after = discover::first_of_each(hits);
        lemma_first_of_each_distinct(rest);
        assert forall|i: int| 0 <= i < before.len() implies hits.contains(
            #[trigger] before[i],
        ) && exists|k: int| 0 <= k < rest.len() && rest[k] == before[i] by {
            assert(rest.contains(before[i]));
            let k = choose|k: int| 0 <= k < rest.len() && rest[k] == before[i];
            assert(hits[k] == before[i]);
        }
        assert forall|i: int| 0 <= i < after.len() implies hits.contains(#[trigger] after[i]) by {
            if i < before.len() {
                assert(after[i] == before[i]);
            } else {
                assert(after[i] == hits[hits.len() - 1]);
            }
        }
        assert forall|i: int, j: int| 0 <= i < j < after.len() implies (
        #[trigger] after[i]).session_key != (#[trigger] after[j]).session_key by {
            assert(after[i] == before[i]);
            if j < before.len() {
                assert(after[j] == before[j]);
            } else {
                let k = choose|k: int| 0 <= k < rest.len() && rest[k] == before[i];
                assert(rest[k].session_key != hits.last().session_key);
            }
        }
    }
}

proof fn lemma_filter_keeps_distinct(
    hits: Seq<MessageHitView>,
    keep: spec_fn(MessageHitView) -> bool,
)
    requires
        distinct_sessions(hits),
    ensures
        distinct_sessions(hits.filter(keep)),
        forall|i: int|
            0 <= i < hits.filter(keep).len() ==> hits.contains(#[trigger] hits.filter(keep)[i]),
    decreases hits.len(),
{
    reveal(Seq::filter);
    if hits.len() > 0 {
        let rest = hits.drop_last();
        let before = rest.filter(keep);
        let after = hits.filter(keep);
        assert(distinct_sessions(rest)) by {
            assert forall|i: int, j: int| 0 <= i < j < rest.len() implies (
            #[trigger] rest[i]).session_key != (#[trigger] rest[j]).session_key by {
                assert(hits[i].session_key != hits[j].session_key);
            }
        }
        lemma_filter_keeps_distinct(rest, keep);
        assert forall|i: int| 0 <= i < after.len() implies hits.contains(#[trigger] after[i]) by {
            if i < before.len() {
                assert(rest.contains(before[i]));
                let k = choose|k: int| 0 <= k < rest.len() && rest[k] == before[i];
                assert(hits[k] == after[i]);
            } else {
                assert(after[i] == hits[hits.len() - 1]);
            }
        }
        assert forall|i: int, j: int| 0 <= i < j < after.len() implies (
        #[trigger] after[i]).session_key != (#[trigger] after[j]).session_key by {
            assert(after[i] == before[i]);
            if j < before.len() {
                assert(after[j] == before[j]);
            } else {
                assert(rest.contains(before[i]));
                let k = choose|k: int| 0 <= k < rest.len() && rest[k] == before[i];
                assert(hits[k].session_key != hits[hits.len() - 1].session_key);
            }
        }
    }
}

/// Demoted sessions are shown below all others.
pub proof fn demoted_sessions_come_last(
    hits: Seq<MessageHitView>,
    prefixes: Seq<Seq<char>>,
    limit: usize,
    i: int,
    j: int,
)
    requires
        0 <= i < j < discover::at_most(discover::ranked(hits, prefixes), limit).len(),
        discover::demoted(
            discover::at_most(discover::ranked(hits, prefixes), limit)[i].session_key,
            prefixes,
        ),
    ensures
        discover::demoted(
            discover::at_most(discover::ranked(hits, prefixes), limit)[j].session_key,
            prefixes,
        ),
{
    let best = discover::first_of_each(hits);
    let upper = discover::interactive(best, prefixes);
    let keep = |hit: MessageHitView| !discover::demoted(hit.session_key, prefixes);
    let drop = |hit: MessageHitView| discover::demoted(hit.session_key, prefixes);
    if i < upper.len() {
        best.lemma_filter_pred(keep, i);
    } else {
        best.lemma_filter_pred(drop, j - upper.len());
    }
}

/// Every session with a hit is ranked, by its first hit.
pub proof fn every_session_is_ranked(hits: Seq<MessageHitView>, prefixes: Seq<Seq<char>>, at: int)
    requires
        0 <= at < hits.len(),
        forall|q: int| 0 <= q < at ==> (#[trigger] hits[q]).session_key != hits[at].session_key,
    ensures
        discover::ranked(hits, prefixes).contains(hits[at]),
{
    assert(!discover::has_session(hits.take(at), hits[at].session_key)) by {
        assert forall|q: int| 0 <= q < at implies (#[trigger] hits.take(at)[q]).session_key
            != hits[at].session_key by {
            assert(hits.take(at)[q] == hits[q]);
        }
    }
    let best = discover::first_of_each(hits);
    let upper = discover::interactive(best, prefixes);
    let lower = discover::background(best, prefixes);
    let keep = |hit: MessageHitView| !discover::demoted(hit.session_key, prefixes);
    let drop = |hit: MessageHitView| discover::demoted(hit.session_key, prefixes);
    lemma_first_hit_kept(hits, at);
    let m = choose|m: int| 0 <= m < best.len() && best[m] == hits[at];
    if keep(hits[at]) {
        best.lemma_filter_contains(keep, m);
        let k = choose|k: int| 0 <= k < upper.len() && upper[k] == hits[at];
        assert(discover::ranked(hits, prefixes)[k] == hits[at]);
    } else {
        best.lemma_filter_contains(drop, m);
        let k = choose|k: int| 0 <= k < lower.len() && lower[k] == hits[at];
        assert(discover::ranked(hits, prefixes)[upper.len() + k] == hits[at]);
    }
}

proof fn lemma_first_hit_kept(hits: Seq<MessageHitView>, at: int)
    requires
        0 <= at < hits.len(),
        !discover::has_session(hits.take(at), hits[at].session_key),
    ensures
        discover::first_of_each(hits).contains(hits[at]),
    decreases hits.len(),
{
    let rest = hits.drop_last();
    let before = discover::first_of_each(rest);
    if at < rest.len() {
        assert(rest.take(at) =~= hits.take(at));
        lemma_first_hit_kept(rest, at);
        let k = choose|k: int| 0 <= k < before.len() && before[k] == hits[at];
        assert(discover::first_of_each(hits)[k] == hits[at]);
    } else {
        assert(hits.take(at) =~= rest);
        assert(discover::first_of_each(hits)[before.len() as int] == hits[at]);
    }
}

/// The items of a filtered list stand as they stood before: item `i` comes from
/// a place before that of item `j`.
proof fn lemma_filter_keeps_order<T>(items: Seq<T>, keep: spec_fn(T) -> bool, i: int, j: int)
    requires
        0 <= i < j < items.filter(keep).len(),
    ensures
        exists|p: int, q: int|
            #![trigger items[p], items[q]]
            0 <= p < q < items.len() && items[p] == items.filter(keep)[i] && items[q]
                == items.filter(keep)[j],
    decreases items.len(),
{
    reveal(Seq::filter);
    let rest = items.drop_last();
    let before = rest.filter(keep);
    if j < before.len() {
        lemma_filter_keeps_order(rest, keep, i, j);
        let (p, q) = choose|p: int, q: int|
            #![trigger rest[p], rest[q]]
            0 <= p < q < rest.len() && rest[p] == before[i] && rest[q] == before[j];
        assert(items[p] == items.filter(keep)[i] && items[q] == items.filter(keep)[j]);
    } else {
        rest.lemma_filter_contains_rev(keep, before[i]);
        let p = choose|p: int| 0 <= p < rest.len() && rest[p] == before[i];
        let q = items.len() - 1;
        assert(items[p] == items.filter(keep)[i] && items[q] == items.filter(keep)[j]);
    }
}

/// The first hits of the sessions stand in the order of the hits.
proof fn lemma_first_of_each_keeps_order(hits: Seq<MessageHitView>, i: int, j: int)
    requires
        0 <= i < j < discover::first_of_each(hits).len(),
    ensures
        exists|p: int, q: int|
            #![trigger hits[p], hits[q]]
            0 <= p < q < hits.len() && hits[p] == discover::first_of_each(hits)[i] && hits[q]
                == discover::first_of_each(hits)[j],
    decreases hits.len(),
{
    let rest = hits.drop_last();
    let before = discover::first_of_each(rest);
    let after = discover::first_of_each(hits);
    if j < before.len() {
        lemma_first_of_each_keeps_order(rest, i, j);
        let (p, q) = choose|p: int, q: int|
            #![trigger rest[p], rest[q]]
            0 <= p < q < rest.len() && rest[p] == before[i] && rest[q] == before[j];
        assert(hits[p] == after[i] && hits[q] == after[j]);
    } else {
        lemma_first_of_each_distinct(rest);
        assert(rest.contains(before[i]));
        let p = choose|p: int| 0 <= p < rest.len() && rest[p] == before[i];
        let q = hits.len() - 1;
        assert(hits[p] == after[i] && hits[q] == after[j]);
    }
}

/// Demotion is stable: among demoted sessions, and among the others, the order
/// of the hits is kept.
pub proof fn demotion_keeps_the_order_of_hits(
    hits: Seq<MessageHitView>,
    prefixes: Seq<Seq<char>>,
    i: int,
    j: int,
)
    requires
        0 <= i < j < discover::ranked(hits, prefixes).len(),
        discover::demoted(discover::ranked(hits, prefixes)[i].session_key, prefixes)
            == discover::demoted(discover::ranked(hits, prefixes)[j].session_key, prefixes),
    ensures
        exists|p: int, q: int|
            #![trigger hits[p], hits[q]]
            0 <= p < q < hits.len() && hits[p] == discover::ranked(hits, prefixes)[i] && hits[q]
                == discover::ranked(hits, prefixes)[j],
{
    let best = discover::first_of_each(hits);
    let upper = discover::interactive(best, prefixes);
    let ranked = discover::ranked(hits, prefixes);
    let keep = |hit: MessageHitView| !discover::demoted(hit.session_key, prefixes);
    let drop = |hit: MessageHitView| discover::demoted(hit.session_key, prefixes);
    if i < upper.len() {
        best.lemma_filter_pred(keep, i);
    }
    if j >= upper.len() {
        best.lemma_filter_pred(drop, j - upper.len());
    }
    let (kept, a, b) = if j < upper.len() {
        (keep, i, j)
    } else {
        (drop, i - upper.len(), j - upper.len())
    };
    assert(best.filter(kept)[a] == ranked[i] && best.filter(kept)[b] == ranked[j]);
    lemma_filter_keeps_order(best, kept, a, b);
    let (p, q) = choose|p: int, q: int|
        #![trigger best[p], best[q]]
        0 <= p < q < best.len() && best[p] == best.filter(kept)[a] && best[q] == best.filter(
            kept,
        )[b];
    lemma_first_of_each_keeps_order(hits, p, q);
}

/// A session is demoted exactly where its key begins with one of the prefixes.
pub proof fn demoted_sessions_begin_with_a_prefix(key: Seq<char>, prefixes: Seq<Seq<char>>)
    ensures
        discover::demoted(key, prefixes) <==> exists|i: int|
            {
                &&& 0 <= i < prefixes.len()
                &&& (#[trigger] prefixes[i]).len() <= key.len()
                &&& key.take(prefixes[i].len() as int) == prefixes[i]
            },
{
    if discover::demoted(key, prefixes) {
        let i = choose|i: int|
            0 <= i < prefixes.len() && (#[trigger] prefixes[i]).is_prefix_of(key);
        assert(key.take(prefixes[i].len() as int) =~= key.subrange(0, prefixes[i].len() as int));
    }
    if exists|i: int|
        {
            &&& 0 <= i < prefixes.len()
            &&& (#[trigger] prefixes[i]).len() <= key.len()
            &&& key.take(prefixes[i].len() as int) == prefixes[i]
        } {
        let i = choose|i: int|
            {
                &&& 0 <= i < prefixes.len()
                &&& (#[trigger] prefixes[i]).len() <= key.len()
                &&& key.take(prefixes[i].len() as int) == prefixes[i]
            };
        assert(prefixes[i].is_prefix_of(key)) by {
            assert(key.take(prefixes[i].len() as int) =~= key.subrange(
                0,
                prefixes[i].len() as int,
            ));
        }
    }
}

/// Every ranked hit is one of the hits, the first of its session.
pub proof fn ranked_hits_are_first_hits(hits: Seq<MessageHitView>, prefixes: Seq<Seq<char>>, i: int)
    requires
        0 <= i < discover::ranked(hits, prefixes).len(),
    ensures
        exists|p: int|
            {
                &&& 0 <= p < hits.len()
                &&& #[trigger] hits[p] == discover::ranked(hits, prefixes)[i]
                &&& forall|q: int| 0 <= q < p ==> (#[trigger] hits[q]).session_key
                    != hits[p].session_key
            },
{
    let best = discover::first_of_each(hits);
    let upper = discover::interactive(best, prefixes);
    let keep = |hit: MessageHitView| !discover::demoted(hit.session_key, prefixes);
    let drop = |hit: MessageHitView| discover::demoted(hit.session_key, prefixes);
    let hit = discover::ranked(hits, prefixes)[i];
    if i < upper.len() {
        assert(upper[i] == hit);
        best.lemma_filter_contains_rev(keep, hit);
    } else {
        assert(discover::background(best, prefixes)[i - upper.len()] == hit);
        best.lemma_filter_contains_rev(drop, hit);
    }
    let k = choose|k: int| 0 <= k < best.len() && best[k] == hit;
    lemma_first_of_each_is_first(hits, k);
}

proof fn lemma_first_of_each_is_first(hits: Seq<MessageHitView>, k: int)
    requires
        0 <= k < discover::first_of_each(hits).len(),
    ensures
        exists|p: int|
            {
                &&& 0 <= p < hits.len()
                &&& #[trigger] hits[p] == discover::first_of_each(hits)[k]
                &&& forall|q: int| 0 <= q < p ==> (#[trigger] hits[q]).session_key
                    != hits[p].session_key
            },
    decreases hits.len(),
{
    let rest = hits.drop_last();
    let before = discover::first_of_each(rest);
    if k < before.len() {
        lemma_first_of_each_is_first(rest, k);
        let p = choose|p: int|
            {
                &&& 0 <= p < rest.len()
                &&& #[trigger] rest[p] == before[k]
                &&& forall|q: int| 0 <= q < p ==> (#[trigger] rest[q]).session_key
                    != rest[p].session_key
            };
        assert(hits[p] == discover::first_of_each(hits)[k]);
        assert forall|q: int| 0 <= q < p implies (#[trigger] hits[q]).session_key
            != hits[p].session_key by {
            assert(rest[q] == hits[q] && rest[p] == hits[p]);
        }
    } else {
        let p = hits.len() - 1;
        assert(hits[p] == discover::first_of_each(hits)[k]);
        assert forall|q: int| 0 <= q < p implies (#[trigger] hits[q]).session_key
            != hits[p].session_key by {
            assert(rest[q] == hits[q]);
        }
    }
}

/// A discovery shows as many sessions as asked for, from the top, and all of
/// them where there are fewer.
pub proof fn discovery_shows_the_top(ranked: Seq<MessageHitView>, limit: usize)
    ensures
        discover::at_most(ranked, limit).is_prefix_of(ranked),
        discover::at_most(ranked, limit).len() <= limit,
        discover::at_most(ranked, limit).len() == limit || discover::at_most(ranked, limit)
            == ranked,
{
    assert(ranked.subrange(0, discover::at_most(ranked, limit).len() as int) =~= discover::at_most(
        ranked,
        limit,
    ));
}

} // verus!
