//! Discovery: the best hit of each session, with what surrounds it.

use vstd::prelude::*;

use crate::integers;
use crate::search::messages::IndexedRole;
use crate::search::query::{SearchQuery, SearchQueryView};
use crate::search::rows;
use crate::search::rows::{ContextMessage, ContextMessageView, IndexRowView, SessionRows};
use crate::text;

verus! {

/// How many raw hits a discovery considers before grouping by session.
pub const DISCOVER_SCAN_LIMIT: usize = 300;

/// A single search hit.
#[derive(Debug, Clone)]
pub struct MessageHit {
    pub session_key: String,
    pub seq: i64,
    pub role: String,
    pub snippet: String,
    /// Milliseconds since the Unix epoch.
    pub created_at: u64,
    /// True when the row was archived (no longer in live context).
    pub compacted: bool,
}

/// The view of a [`MessageHit`].
pub struct MessageHitView {
    pub session_key: Seq<char>,
    pub seq: i64,
    pub role: Seq<char>,
    pub snippet: Seq<char>,
    pub created_at: u64,
    pub compacted: bool,
}

impl View for MessageHit {
    type V = MessageHitView;

    open spec fn view(&self) -> MessageHitView {
        MessageHitView {
            session_key: self.session_key@,
            seq: self.seq,
            role: self.role@,
            snippet: self.snippet@,
            created_at: self.created_at,
            compacted: self.compacted,
        }
    }
}

/// The views of a list of hits.
pub open spec fn hit_views(hits: Seq<MessageHit>) -> Seq<MessageHitView> {
    hits.map_values(|hit: MessageHit| hit@)
}

/// The columns that a search returns for a hit.
#[derive(Debug)]
pub struct HitRow {
    pub session_key: String,
    pub seq: i64,
    pub role: String,
    pub snip: String,
    pub created_at: i64,
    pub compacted: i64,
}

/// The hit that a row of columns stands for.
pub fn hit_from_row(row: HitRow) -> (hit: MessageHit)
    ensures
        hit@ == (MessageHitView {
            session_key: row.session_key@,
            seq: row.seq,
            role: row.role@,
            snippet: row.snip@,
            created_at: integers::not_below_zero(row.created_at),
            compacted: row.compacted != 0,
        }),
{
    MessageHit {
        session_key: row.session_key,
        seq: row.seq,
        role: row.role,
        snippet: row.snip,
        created_at: integers::clamp_to_zero(row.created_at),
        compacted: row.compacted != 0,
    }
}

/// A discovery result: the best hit in one session plus surrounding context.
#[derive(Debug, Clone)]
pub struct SessionMatch {
    pub session_key: String,
    pub hit: MessageHit,
    /// First conversational messages of the session ("what was the goal").
    pub bookend_start: Vec<ContextMessage>,
    /// Messages around the match.
    pub context: Vec<ContextMessage>,
    /// Last conversational messages of the session ("how did it end").
    pub bookend_end: Vec<ContextMessage>,
    pub messages_before: i64,
    pub messages_after: i64,
}

/// The view of a [`SessionMatch`].
pub struct SessionMatchView {
    pub session_key: Seq<char>,
    pub hit: MessageHitView,
    pub bookend_start: Seq<ContextMessageView>,
    pub context: Seq<ContextMessageView>,
    pub bookend_end: Seq<ContextMessageView>,
    pub messages_before: i64,
    pub messages_after: i64,
}

impl View for SessionMatch {
    type V = SessionMatchView;

    open spec fn view(&self) -> SessionMatchView {
        SessionMatchView {
            session_key: self.session_key@,
            hit: self.hit@,
            bookend_start: rows::context_views(self.bookend_start@),
            context: rows::context_views(self.context@),
            bookend_end: rows::context_views(self.bookend_end@),
            messages_before: self.messages_before,
            messages_after: self.messages_after,
        }
    }
}

/// The search whose hits a discovery groups: the request with room for more
/// hits.
pub fn discovery_scan(params: &SearchQuery) -> (scan: SearchQuery)
    ensures
        scan@ == (SearchQueryView { limit: DISCOVER_SCAN_LIMIT, ..params@ }),
{
    let mut roles: Vec<IndexedRole> = Vec::new();
    for i in 0..params.roles.len()
        invariant
            roles@ == params.roles@.take(i as int),
    {
        roles.push(params.roles[i]);
    }
    assert(params.roles@.take(params.roles@.len() as int) =~= params.roles@);
    SearchQuery {
        query: params.query.clone(),
        limit: DISCOVER_SCAN_LIMIT,
        sort: params.sort,
        roles,
        exclude_session: match &params.exclude_session {
            Some(key) => Some(key.clone()),
            None => None,
        },
    }
}

/// Whether a hit of the session `key` is among `hits`.
pub open spec fn has_session(hits: Seq<MessageHitView>, key: Seq<char>) -> bool {
    exists|i: int| 0 <= i < hits.len() && (#[trigger] hits[i]).session_key == key
}

/// The first hit of each session, in order.
pub open spec fn first_of_each(hits: Seq<MessageHitView>) -> Seq<MessageHitView>
    decreases hits.len(),
{
    if hits.len() == 0 {
        Seq::empty()
    } else {
        let before = first_of_each(hits.drop_last());
        if has_session(hits.drop_last(), hits.last().session_key) {
            before
        } else {
            before.push(hits.last())
        }
    }
}

/// Whether a session key begins with one of the prefixes.
pub open spec fn demoted(key: Seq<char>, prefixes: Seq<Seq<char>>) -> bool {
    exists|i: int| 0 <= i < prefixes.len() && (#[trigger] prefixes[i]).is_prefix_of(key)
}

/// The hits of sessions that are not demoted, in order.
pub open spec fn interactive(hits: Seq<MessageHitView>, prefixes: Seq<Seq<char>>) -> Seq<
    MessageHitView,
> {
    hits.filter(|hit: MessageHitView| !demoted(hit.session_key, prefixes))
}

/// The hits of demoted sessions, in order.
pub open spec fn background(hits: Seq<MessageHitView>, prefixes: Seq<Seq<char>>) -> Seq<
    MessageHitView,
> {
    hits.filter(|hit: MessageHitView| demoted(hit.session_key, prefixes))
}

/// The best hit of each session: interactive sessions before demoted ones, in
/// the order of the hits within each class.
pub open spec fn ranked(hits: Seq<MessageHitView>, prefixes: Seq<Seq<char>>) -> Seq<
    MessageHitView,
> {
    let best = first_of_each(hits);
    interactive(best, prefixes) + background(best, prefixes)
}

/// At most the first `limit` items.
pub open spec fn at_most<T>(items: Seq<T>, limit: usize) -> Seq<T> {
    if items.len() <= limit {
        items
    } else {
        items.take(limit as int)
    }
}

impl MessageHit {
    fn duplicate(&self) -> (copy: MessageHit)
        ensures
            copy@ == self@,
    {
        MessageHit {
            session_key: self.session_key.clone(),
            seq: self.seq,
            role: self.role.clone(),
            snippet: self.snippet.clone(),
            created_at: self.created_at,
            compacted: self.compacted,
        }
    }
}

fn seen_session(hits: &Vec<MessageHit>, end: usize, key: &String) -> (answer: bool)
    requires
        end <= hits@.len(),
    ensures
        answer == has_session(hit_views(hits@).take(end as int), key@),
{
    let ghost views = hit_views(hits@);
    for i in 0..end
        invariant
            end <= hits@.len(),
            views == hit_views(hits@),
            forall|j: int|
                0 <= j < i ==> (#[trigger] views.take(end as int)[j]).session_key != key@,
    {
        assert(views.take(end as int)[i as int] == hits@[i as int]@);
        if hits[i].session_key == *key {
            return true;
        }
    }
    false
}

fn is_demoted(key: &String, prefixes: &Vec<String>) -> (answer: bool)
    ensures
        answer == demoted(key@, text::views(prefixes@)),
{
    let ghost views = text::views(prefixes@);
    for i in 0..prefixes.len()
        invariant
            views == text::views(prefixes@),
            forall|j: int| 0 <= j < i ==> !(#[trigger] views[j]).is_prefix_of(key@),
    {
        assert(views[i as int] == prefixes@[i as int]@);
        if text::starts_with(key.as_str(), prefixes[i].as_str()) {
            return true;
        }
    }
    false
}

/// The hits that a discovery shows: the best one of each session, sessions
/// whose key has one of the `demote_prefixes` below the others, at most
/// `limit` of them.
///
/// `hits` are in order of relevance, best first.
pub fn best_hits(hits: &Vec<MessageHit>, demote_prefixes: &Vec<String>, limit: usize) -> (best: Vec<
    MessageHit,
>)
    ensures
        hit_views(best@) == at_most(
            ranked(hit_views(hits@), text::views(demote_prefixes@)),
            limit,
        ),
{
    let ghost views = hit_views(hits@);
    let ghost prefixes = text::views(demote_prefixes@);
    let mut best: Vec<MessageHit> = Vec::new();
    let mut last: Vec<MessageHit> = Vec::new();
    proof {
        reveal(Seq::filter);
        assert(hit_views(best@) =~= interactive(first_of_each(views.take(0)), prefixes));
        assert(hit_views(last@) =~= background(first_of_each(views.take(0)), prefixes));
    }
    for i in 0..hits.len()
        invariant
            views == hit_views(hits@),
            prefixes == text::views(demote_prefixes@),
            hit_views(best@) == interactive(first_of_each(views.take(i as int)), prefixes),
            hit_views(last@) == background(first_of_each(views.take(i as int)), prefixes),
    {
        let ghost so_far = first_of_each(views.take(i as int));
        let ghost best_so_far = best@;
        let ghost last_so_far = last@;
        proof {
            reveal(Seq::filter);
            assert(views.take(i + 1).drop_last() =~= views.take(i as int));
            assert(so_far.push(views[i as int]).drop_last() =~= so_far);
        }
        if !seen_session(hits, i, &hits[i].session_key) {
            if is_demoted(&hits[i].session_key, demote_prefixes) {
                last.push(hits[i].duplicate());
                assert(hit_views(last@) =~= hit_views(last_so_far).push(views[i as int]));
            } else {
                best.push(hits[i].duplicate());
                assert(hit_views(best@) =~= hit_views(best_so_far).push(views[i as int]));
            }
        }
    }
    assert(views.take(views.len() as int) =~= views);
    best.append(&mut last);
    assert(hit_views(best@) =~= ranked(views, prefixes));
    best.truncate(limit);
    assert(hit_views(best@) =~= at_most(ranked(views, prefixes), limit));
    best
}

/// Context messages with those of sequence number `seq` marked as the match.
pub open spec fn marked(list: Seq<ContextMessageView>, seq: i64) -> Seq<ContextMessageView> {
    list.map_values(
        |message: ContextMessageView|
            ContextMessageView { is_match: message.seq == seq, ..message },
    )
}

/// The match that a hit and the rows of its session make.
pub open spec fn match_of(
    hit: MessageHitView,
    session: Seq<IndexRowView>,
    window: usize,
) -> SessionMatchView {
    let low = rows::window_low(hit.seq, window);
    let high = rows::window_high(hit.seq, window);
    SessionMatchView {
        session_key: hit.session_key,
        hit,
        bookend_start: rows::all_shown(rows::opening(session), rows::BOOKEND_CHARS as nat),
        context: marked(
            rows::all_shown(rows::within(session, low, high), rows::CONTEXT_CHARS as nat),
            hit.seq,
        ),
        bookend_end: rows::all_shown(rows::closing(session), rows::BOOKEND_CHARS as nat),
        messages_before: rows::below(session, low).len() as i64,
        messages_after: rows::above(session, high).len() as i64,
    }
}

/// Surround a hit with the context and the bookends of its session.
pub fn session_match(hit: MessageHit, session: &SessionRows, window: usize) -> (found: SessionMatch)
    requires
        session@.len() <= i64::MAX,
    ensures
        found@ == match_of(hit@, session@, window),
{
    let (list, before, after) = session.context(hit.seq, window);
    let (bookend_start, bookend_end) = session.bookends();
    let mut context: Vec<ContextMessage> = Vec::new();
    let ghost views = rows::context_views(list@);
    for i in 0..list.len()
        invariant
            views == rows::context_views(list@),
            rows::context_views(context@) == marked(views.take(i as int), hit.seq),
    {
        let ghost so_far = context@;
        let message = ContextMessage {
            seq: list[i].seq,
            role: list[i].role.clone(),
            content: list[i].content.clone(),
            created_at: list[i].created_at,
            is_match: list[i].seq == hit.seq,
        };
        context.push(message);
        assert(rows::context_views(context@) =~= rows::context_views(so_far).push(message@));
        assert(marked(views.take(i + 1), hit.seq) =~= marked(views.take(i as int), hit.seq).push(
            message@,
        ));
    }
    assert(views.take(views.len() as int) =~= views);
    SessionMatch {
        session_key: hit.session_key.clone(),
        hit,
        bookend_start,
        context,
        bookend_end,
        messages_before: before,
        messages_after: after,
    }
}

} // verus!
