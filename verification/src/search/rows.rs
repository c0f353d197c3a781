//! The rows of one session in the search index.
//!
//! A row is live (`active`) while its line is part of the transcript. Rows
//! that a history replacement takes out of the transcript are archived
//! (`compacted`) and stay visible to searches.

use vstd::prelude::*;

use crate::integers;
use crate::json::Json;
use crate::ordering;
use crate::ordering::{OrderKey, TextOrder};
use crate::search::messages;
use crate::search::messages::{IndexableMessage, IndexableMessageView};
use crate::text;

verus! {

/// How many characters of a message a context window shows.
pub const CONTEXT_CHARS: usize = 4000;

/// How many characters of a message a bookend shows.
pub const BOOKEND_CHARS: usize = 1200;

/// How many messages a bookend holds.
pub const BOOKEND_MESSAGES: usize = 3;

/// A row of the index.
#[derive(Debug)]
pub struct IndexRow {
    pub session_key: String,
    pub seq: i64,
    pub role: String,
    pub content: String,
    pub tool_name: Option<String>,
    /// Milliseconds since the Unix epoch, as a signed number.
    pub created_at: i64,
    pub active: bool,
    pub compacted: bool,
}

/// The view of an [`IndexRow`].
pub struct IndexRowView {
    pub session_key: Seq<char>,
    pub seq: i64,
    pub role: Seq<char>,
    pub content: Seq<char>,
    pub tool_name: Option<Seq<char>>,
    pub created_at: i64,
    pub active: bool,
    pub compacted: bool,
}

impl View for IndexRow {
    type V = IndexRowView;

    open spec fn view(&self) -> IndexRowView {
        IndexRowView {
            session_key: self.session_key@,
            seq: self.seq,
            role: self.role@,
            content: self.content@,
            tool_name: text::view_of(self.tool_name),
            created_at: self.created_at,
            active: self.active,
            compacted: self.compacted,
        }
    }
}

impl IndexRowView {
    /// Searches and context windows show live and archived rows.
    pub open spec fn visible(self) -> bool {
        self.active || self.compacted
    }

    /// A visible message of the user or the assistant.
    pub open spec fn conversational(self) -> bool {
        self.visible() && (self.role == "user"@ || self.role == "assistant"@)
    }

    /// The row once its line has left the transcript.
    pub open spec fn archived(self) -> IndexRowView {
        if self.active {
            IndexRowView { active: false, compacted: true, ..self }
        } else {
            self
        }
    }
}

/// The views of a list of rows.
pub open spec fn row_views(rows: Seq<IndexRow>) -> Seq<IndexRowView> {
    rows.map_values(|row: IndexRow| row@)
}

/// Rows stand by their sequence numbers.
pub open spec fn in_sequence(rows: Seq<IndexRowView>) -> bool {
    forall|i: int, j: int| 0 <= i < j < rows.len() ==> rows[i].seq <= rows[j].seq
}

/// The row of a message.
pub open spec fn row_of(key: Seq<char>, seq: i64, message: IndexableMessageView) -> IndexRowView {
    IndexRowView {
        session_key: key,
        seq,
        role: message.role.name(),
        content: message.content,
        tool_name: message.tool_name,
        created_at: integers::same_bits(message.created_at) as i64,
        active: true,
        compacted: false,
    }
}

/// The sequence number after the highest one in use.
pub open spec fn seq_after(max_seq: Option<i64>) -> int {
    match max_seq {
        Some(max_seq) => max_seq + 1,
        None => 0,
    }
}

/// The sequence number that follows those of `rows`, which are in sequence.
pub open spec fn next_seq_of(rows: Seq<IndexRowView>) -> int {
    if rows.len() == 0 {
        0
    } else {
        rows.last().seq + 1
    }
}

/// The rows of a list of messages, numbered from `first`.
pub open spec fn numbered(key: Seq<char>, list: Seq<IndexableMessageView>, first: int) -> Seq<
    IndexRowView,
> {
    Seq::new(list.len(), |i: int| row_of(key, (first + i) as i64, list[i]))
}

/// The rows of the indexable messages among `values`, numbered from `first`.
pub open spec fn fresh_rows(
    key: Seq<char>,
    values: Seq<Json>,
    first: int,
    now: u64,
) -> Seq<IndexRowView> {
    numbered(key, messages::indexable_messages(values, now), first)
}

/// The number of live rows.
pub open spec fn live_count(rows: Seq<IndexRowView>) -> nat {
    rows.filter(|row: IndexRowView| row.active).len()
}

/// The rows of a session after its history was replaced by `values`.
pub open spec fn replaced(
    rows: Seq<IndexRowView>,
    key: Seq<char>,
    values: Seq<Json>,
    now: u64,
) -> Seq<IndexRowView> {
    rows.map_values(|row: IndexRowView| row.archived()) + fresh_rows(
        key,
        values,
        next_seq_of(rows),
        now,
    )
}

/// A message in a context window or a bookend.
#[derive(Debug, Clone)]
pub struct ContextMessage {
    pub seq: i64,
    pub role: String,
    pub content: String,
    /// Milliseconds since the Unix epoch.
    pub created_at: u64,
    /// True when this is the message the search matched.
    pub is_match: bool,
}

/// The view of a [`ContextMessage`].
pub struct ContextMessageView {
    pub seq: i64,
    pub role: Seq<char>,
    pub content: Seq<char>,
    pub created_at: u64,
    pub is_match: bool,
}

impl View for ContextMessage {
    type V = ContextMessageView;

    open spec fn view(&self) -> ContextMessageView {
        ContextMessageView {
            seq: self.seq,
            role: self.role@,
            content: self.content@,
            created_at: self.created_at,
            is_match: self.is_match,
        }
    }
}

/// The views of a list of messages.
pub open spec fn context_views(list: Seq<ContextMessage>) -> Seq<ContextMessageView> {
    list.map_values(|message: ContextMessage| message@)
}

/// A row as a context message of at most `max` characters.
pub open spec fn shown(row: IndexRowView, max: nat) -> ContextMessageView {
    ContextMessageView {
        seq: row.seq,
        role: row.role,
        content: text::truncated(row.content, max),
        created_at: integers::not_below_zero(row.created_at),
        is_match: false,
    }
}

/// Rows as context messages of at most `max` characters.
pub open spec fn all_shown(rows: Seq<IndexRowView>, max: nat) -> Seq<ContextMessageView> {
    rows.map_values(|row: IndexRowView| shown(row, max))
}

/// The first sequence number of the window around `seq`.
pub open spec fn window_low(seq: i64, window: usize) -> int {
    integers::saturated(seq - integers::same_bits(window as u64))
}

/// The last sequence number of the window around `seq`.
pub open spec fn window_high(seq: i64, window: usize) -> int {
    integers::saturated(seq + integers::same_bits(window as u64))
}

/// The visible rows with a sequence number from `low` to `high`.
pub open spec fn within(rows: Seq<IndexRowView>, low: int, high: int) -> Seq<IndexRowView> {
    rows.filter(|row: IndexRowView| row.visible() && low <= row.seq <= high)
}

/// The visible rows with a sequence number below `low`.
pub open spec fn below(rows: Seq<IndexRowView>, low: int) -> Seq<IndexRowView> {
    rows.filter(|row: IndexRowView| row.visible() && row.seq < low)
}

/// The visible rows with a sequence number above `high`.
pub open spec fn above(rows: Seq<IndexRowView>, high: int) -> Seq<IndexRowView> {
    rows.filter(|row: IndexRowView| row.visible() && row.seq > high)
}

/// The conversational rows.
pub open spec fn conversation(rows: Seq<IndexRowView>) -> Seq<IndexRowView> {
    rows.filter(|row: IndexRowView| row.conversational())
}

/// The first rows of a conversation.
pub open spec fn opening(rows: Seq<IndexRowView>) -> Seq<IndexRowView> {
    let talk = conversation(rows);
    if talk.len() <= BOOKEND_MESSAGES {
        talk
    } else {
        talk.take(BOOKEND_MESSAGES as int)
    }
}

/// The last rows of a conversation.
pub open spec fn ending(rows: Seq<IndexRowView>) -> Seq<IndexRowView> {
    let talk = conversation(rows);
    if talk.len() <= BOOKEND_MESSAGES {
        talk
    } else {
        talk.skip(talk.len() - BOOKEND_MESSAGES)
    }
}

/// Whether a row with the sequence number `seq` is among `rows`.
pub open spec fn has_seq(rows: Seq<IndexRowView>, seq: i64) -> bool {
    exists|i: int| 0 <= i < rows.len() && (#[trigger] rows[i]).seq == seq
}

/// The last rows of a conversation that are not among its first ones.
pub open spec fn closing(rows: Seq<IndexRowView>) -> Seq<IndexRowView> {
    ending(rows).filter(|row: IndexRowView| !has_seq(opening(rows), row.seq))
}

impl IndexRow {
    /// A copy of the row.
    pub fn duplicate(&self) -> (copy: IndexRow)
        ensures
            copy@ == self@,
    {
        IndexRow {
            session_key: self.session_key.clone(),
            seq: self.seq,
            role: self.role.clone(),
            content: self.content.clone(),
            tool_name: match &self.tool_name {
                Some(name) => Some(name.clone()),
                None => None,
            },
            created_at: self.created_at,
            active: self.active,
            compacted: self.compacted,
        }
    }

    fn is_conversational(&self) -> (answer: bool)
        ensures
            answer == self@.conversational(),
    {
        (self.active || self.compacted) && (text::same_text(self.role.as_str(), "user")
            || text::same_text(self.role.as_str(), "assistant"))
    }

    /// The row as a context message of at most `max_chars` characters.
    fn show(&self, max_chars: usize) -> (message: ContextMessage)
        ensures
            message@ == shown(self@, max_chars as nat),
    {
        ContextMessage {
            seq: self.seq,
            role: self.role.clone(),
            content: text::truncate_chars(self.content.as_str(), max_chars),
            created_at: integers::clamp_to_zero(self.created_at),
            is_match: false,
        }
    }
}

/// The sequence number for the next message of a session whose highest one is
/// `max_seq`.
pub fn next_seq(max_seq: Option<i64>) -> (seq: i64)
    requires
        max_seq matches Some(max_seq) ==> max_seq < i64::MAX,
    ensures
        seq == seq_after(max_seq),
{
    match max_seq {
        Some(max_seq) => max_seq + 1,
        None => 0,
    }
}

/// The row of a message under the sequence number `seq`.
pub fn new_row(key: &str, seq: i64, message: &IndexableMessage) -> (row: IndexRow)
    ensures
        row@ == row_of(key@, seq, message@),
{
    IndexRow {
        session_key: key.to_owned(),
        seq,
        role: message.role.as_str().to_owned(),
        content: message.content.clone(),
        tool_name: match &message.tool_name {
            Some(name) => Some(name.clone()),
            None => None,
        },
        created_at: integers::to_signed(message.created_at),
        active: true,
        compacted: false,
    }
}

/// The row of one appended transcript message, numbered after the highest
/// sequence number of its session.
pub fn appended_row(key: &str, max_seq: Option<i64>, message: &IndexableMessage) -> (row: IndexRow)
    requires
        max_seq matches Some(max_seq) ==> max_seq < i64::MAX,
    ensures
        row@ == row_of(key@, seq_after(max_seq) as i64, message@),
{
    new_row(key, next_seq(max_seq), message)
}

/// All rows of one session.
#[derive(Debug)]
pub struct SessionRows {
    rows: Vec<IndexRow>,
}

impl View for SessionRows {
    type V = Seq<IndexRowView>;

    closed spec fn view(&self) -> Seq<IndexRowView> {
        row_views(self.rows@)
    }
}

/// The keys by which rows stand in sequence.
pub open spec fn seq_keys(rows: Seq<IndexRowView>) -> Seq<ordering::OrderKeyView> {
    rows.map_values(
        |row: IndexRowView| ordering::OrderKeyView { number: row.seq, text: Seq::empty() },
    )
}

impl SessionRows {
    /// The rows stand in sequence.
    pub open spec fn wf(self) -> bool {
        in_sequence(self@)
    }

    /// Put the rows of a session in sequence.
    pub fn new(rows: Vec<IndexRow>) -> (session: SessionRows)
        ensures
            session.wf(),
            exists|order: Seq<usize>|
                #![trigger ordering::arranged(row_views(rows@), order)]
                {
                    &&& ordering::is_order(
                        seq_keys(row_views(rows@)),
                        TextOrder::Ascending,
                        order,
                    )
                    &&& session@ == ordering::arranged(row_views(rows@), order)
                },
    {
        let ghost views = row_views(rows@);
        let mut keys: Vec<OrderKey> = Vec::new();
        for i in 0..rows.len()
            invariant
                views == row_views(rows@),
                ordering::key_views(keys@) == seq_keys(views.take(i as int)),
        {
            let ghost before = keys@;
            keys.push(OrderKey { number: rows[i].seq, text: Vec::new() });
            proof {
                let key = ordering::OrderKeyView {
                    number: views[i as int].seq,
                    text: Seq::<char>::empty(),
                };
                assert(keys@.last()@ == key);
                assert(ordering::key_views(keys@) =~= ordering::key_views(before).push(key));
                assert(seq_keys(views.take(i + 1)) =~= seq_keys(views.take(i as int)).push(key));
            }
        }
        assert(views.take(rows@.len() as int) =~= views);
        let order = ordering::order_of(&keys, TextOrder::Ascending);
        let mut sorted: Vec<IndexRow> = Vec::new();
        for i in 0..order.len()
            invariant
                views == row_views(rows@),
                order@.len() == rows@.len(),
                forall|j: int| 0 <= j < order@.len() ==> (#[trigger] order@[j]) < rows@.len(),
                row_views(sorted@) == ordering::arranged(views, order@.take(i as int)),
        {
            let ghost before = sorted@;
            sorted.push(rows[order[i]].duplicate());
            proof {
                let row = views[order@[i as int] as int];
                assert(row_views(sorted@) =~= row_views(before).push(row));
                assert(ordering::arranged(views, order@.take(i + 1)) =~= ordering::arranged(
                    views,
                    order@.take(i as int),
                ).push(row));
            }
        }
        assert(order@.take(order@.len() as int) =~= order@);
        proof {
            let keys = seq_keys(views);
            let result = ordering::arranged(views, order@);
            assert forall|i: int, j: int| 0 <= i < j < result.len() implies result[i].seq
                <= result[j].seq by {
                assert(ordering::position_before(
                    keys,
                    order@[i] as int,
                    order@[j] as int,
                    TextOrder::Ascending,
                ));
            }
        }
        SessionRows { rows: sorted }
    }

    /// The rows, in sequence.
    pub fn rows(&self) -> (rows: &Vec<IndexRow>)
        ensures
            row_views(rows@) == self@,
    {
        &self.rows
    }

    /// Reflect a history replacement: archive the live rows, then add a row
    /// for each indexable message of the new history.
    ///
    /// The archived rows stay visible, so what was taken out of the live
    /// context remains discoverable.
    pub fn replace_history(&mut self, key: &str, values: &Vec<Json>, now: u64)
        requires
            old(self).wf(),
            next_seq_of(old(self)@) + values@.len() <= i64::MAX,
        ensures
            final(self).wf(),
            final(self)@ == replaced(old(self)@, key@, values@, now),
    {
        let ghost before = self@;
        let count: usize = self.rows.len();
        let first: i64 = if count == 0 {
            0
        } else {
            assert(self@.last().seq == self.rows@[count - 1].seq);
            self.rows[count - 1].seq + 1
        };
        let mut rows: Vec<IndexRow> = Vec::new();
        for i in 0..count
            invariant
                count == self.rows@.len(),
                before == row_views(self.rows@),
                row_views(rows@) == before.take(i as int).map_values(
                    |row: IndexRowView| row.archived(),
                ),
        {
            let ghost so_far = rows@;
            let mut row = self.rows[i].duplicate();
            if row.active {
                row.active = false;
                row.compacted = true;
            }
            rows.push(row);
            assert(row@ == before[i as int].archived());
            assert(row_views(rows@) =~= row_views(so_far).push(before[i as int].archived()));
            assert(before.take(i + 1).map_values(|row: IndexRowView| row.archived())
                =~= before.take(i as int).map_values(|row: IndexRowView| row.archived()).push(
                before[i as int].archived(),
            ));
        }
        let ghost archived = before.map_values(|row: IndexRowView| row.archived());
        assert(before.take(count as int) =~= before);
        assert(archived + fresh_rows(key@, values@.take(0), first as int, now) =~= archived);
        let mut seq: i64 = first;
        for i in 0..values.len()
            invariant
                first + values@.len() <= i64::MAX,
                seq == first + fresh_rows(key@, values@.take(i as int), first as int, now).len(),
                seq <= first + i,
                row_views(rows@) == archived + fresh_rows(
                    key@,
                    values@.take(i as int),
                    first as int,
                    now,
                ),
        {
            assert(values@.take(i + 1).drop_last() =~= values@.take(i as int));
            let ghost so_far = rows@;
            let ghost fresh = fresh_rows(key@, values@.take(i as int), first as int, now);
            match IndexableMessage::from_value_at(&values[i], now) {
                Some(message) => {
                    rows.push(new_row(key, seq, &message));
                    assert(row_views(rows@) =~= row_views(so_far).push(
                        row_of(key@, seq, message@),
                    ));
                    assert(fresh_rows(key@, values@.take(i + 1), first as int, now) =~= fresh.push(
                        row_of(key@, seq, message@),
                    ));
                    assert(archived + fresh.push(row_of(key@, seq, message@)) =~= (archived
                        + fresh).push(row_of(key@, seq, message@)));
                    seq = seq + 1;
                },
                None => {},
            }
        }
        assert(values@.take(values@.len() as int) =~= values@);
        self.rows = rows;
        assert(self@ =~= replaced(before, key@, values@, now));
        proof {
            lemma_replaced_in_sequence(before, key@, values@, now);
        }
    }

    /// Messages around `seq`, plus the numbers of messages before and after
    /// the window.
    pub fn context(&self, seq: i64, window: usize) -> (found: (Vec<ContextMessage>, i64, i64))
        requires
            self@.len() <= i64::MAX,
        ensures
            context_views(found.0@) == all_shown(
                within(self@, window_low(seq, window), window_high(seq, window)),
                CONTEXT_CHARS as nat,
            ),
            found.1 == below(self@, window_low(seq, window)).len(),
            found.2 == above(self@, window_high(seq, window)).len(),
    {
        let span: i64 = integers::to_signed(window as u64);
        let low: i64 = integers::saturate(seq as i128 - span as i128);
        let high: i64 = integers::saturate(seq as i128 + span as i128);
        let ghost views = self@;
        let mut shown_rows: Vec<ContextMessage> = Vec::new();
        let mut before: i64 = 0;
        let mut after: i64 = 0;
        proof {
            lemma_select_empty(views, low as int, high as int);
        }
        for i in 0..self.rows.len()
            invariant
                views == row_views(self.rows@),
                views.len() <= i64::MAX,
                context_views(shown_rows@) == all_shown(
                    within(views.take(i as int), low as int, high as int),
                    CONTEXT_CHARS as nat,
                ),
                before == below(views.take(i as int), low as int).len(),
                after == above(views.take(i as int), high as int).len(),
                before <= i,
                after <= i,
        {
            let row = &self.rows[i];
            let ghost so_far = shown_rows@;
            proof {
                lemma_select_step(views, i as int, low as int, high as int);
            }
            if row.active || row.compacted {
                if low <= row.seq && row.seq <= high {
                    shown_rows.push(row.show(CONTEXT_CHARS));
                    assert(context_views(shown_rows@) =~= context_views(so_far).push(
                        shown(row@, CONTEXT_CHARS as nat),
                    ));
                }
                if row.seq < low {
                    before = before + 1;
                }
                if row.seq > high {
                    after = after + 1;
                }
            }
            assert(context_views(shown_rows@) =~= all_shown(
                within(views.take(i + 1), low as int, high as int),
                CONTEXT_CHARS as nat,
            ));
        }
        assert(views.take(views.len() as int) =~= views);
        (shown_rows, before, after)
    }

    /// First and last conversational messages. A message that is among the
    /// first is not repeated among the last.
    pub fn bookends(&self) -> (found: (Vec<ContextMessage>, Vec<ContextMessage>))
        ensures
            context_views(found.0@) == all_shown(opening(self@), BOOKEND_CHARS as nat),
            context_views(found.1@) == all_shown(closing(self@), BOOKEND_CHARS as nat),
    {
        let ghost views = self@;
        let mut talk: Vec<usize> = Vec::new();
        let ghost at = |i: usize| views[i as int];
        proof {
            reveal(Seq::filter);
            assert(talk@.map_values(at) =~= conversation(views.take(0)));
        }
        for i in 0..self.rows.len()
            invariant
                views == row_views(self.rows@),
                at == (|i: usize| views[i as int]),
                talk@.map_values(at) == conversation(views.take(i as int)),
                forall|j: int| 0 <= j < talk@.len() ==> (#[trigger] talk@[j]) < i,
        {
            proof {
                reveal(Seq::filter);
                assert(views.take(i + 1).drop_last() =~= views.take(i as int));
            }
            let ghost so_far = talk@;
            if self.rows[i].is_conversational() {
                talk.push(i);
                assert(talk@.map_values(at) =~= so_far.map_values(at).push(views[i as int]));
            }
        }
        assert(views.take(views.len() as int) =~= views);
        let count: usize = talk.len();
        assert(conversation(views).len() == count);
        let lead: usize = if count <= BOOKEND_MESSAGES {
            count
        } else {
            BOOKEND_MESSAGES
        };
        let mut start: Vec<ContextMessage> = Vec::new();
        for i in 0..lead
            invariant
                views == row_views(self.rows@),
                at == (|i: usize| views[i as int]),
                talk@.map_values(at) == conversation(views),
                forall|j: int| 0 <= j < talk@.len() ==> (#[trigger] talk@[j]) < self.rows@.len(),
                lead <= talk@.len(),
                context_views(start@) == all_shown(
                    conversation(views).take(i as int),
                    BOOKEND_CHARS as nat,
                ),
        {
            let ghost so_far = start@;
            assert(conversation(views)[i as int] == views[talk@[i as int] as int]);
            start.push(self.rows[talk[i]].show(BOOKEND_CHARS));
            proof {
                let message = shown(conversation(views)[i as int], BOOKEND_CHARS as nat);
                assert(context_views(start@) =~= context_views(so_far).push(message));
                assert(all_shown(conversation(views).take(i + 1), BOOKEND_CHARS as nat)
                    =~= all_shown(
                    conversation(views).take(i as int),
                    BOOKEND_CHARS as nat,
                ).push(message));
            }
        }
        assert(conversation(views).take(lead as int) =~= opening(views));
        let skip: usize = if count <= BOOKEND_MESSAGES {
            0
        } else {
            count - BOOKEND_MESSAGES
        };
        let mut end: Vec<ContextMessage> = Vec::new();
        let ghost last = ending(views);
        assert(conversation(views).skip(skip as int) =~= last);
        let ghost fresh = |row: IndexRowView| !has_seq(opening(views), row.seq);
        proof {
            reveal(Seq::filter);
            assert(all_shown(last.take(0).filter(fresh), BOOKEND_CHARS as nat) =~= context_views(
                end@,
            ));
        }
        for i in skip..count
            invariant
                views == row_views(self.rows@),
                at == (|i: usize| views[i as int]),
                talk@.map_values(at) == conversation(views),
                forall|j: int| 0 <= j < talk@.len() ==> (#[trigger] talk@[j]) < self.rows@.len(),
                skip <= count == talk@.len(),
                last == conversation(views).skip(skip as int),
                fresh == (|row: IndexRowView| !has_seq(opening(views), row.seq)),
                context_views(start@) == all_shown(opening(views), BOOKEND_CHARS as nat),
                context_views(end@) == all_shown(
                    last.take(i - skip).filter(fresh),
                    BOOKEND_CHARS as nat,
                ),
        {
            let row = &self.rows[talk[i]];
            assert(conversation(views)[i as int] == views[talk@[i as int] as int]);
            assert(last[i - skip] == row@);
            let seen = contains_seq(&start, row.seq, Ghost(opening(views)));
            proof {
                reveal(Seq::filter);
                assert(last.take(i - skip + 1).drop_last() =~= last.take(i - skip));
                assert(fresh(row@) == !seen);
            }
            let ghost so_far = end@;
            if !seen {
                end.push(row.show(BOOKEND_CHARS));
                assert(context_views(end@) =~= context_views(so_far).push(
                    shown(row@, BOOKEND_CHARS as nat),
                ));
            }
            assert(context_views(end@) =~= all_shown(
                last.take(i - skip + 1).filter(fresh),
                BOOKEND_CHARS as nat,
            ));
        }
        assert(last.take(count - skip) =~= last);
        (start, end)
    }
}

/// Whether one of the messages `list`, which show `rows`, has the sequence
/// number `seq`.
fn contains_seq(
    list: &Vec<ContextMessage>,
    seq: i64,
    Ghost(rows): Ghost<Seq<IndexRowView>>,
) -> (answer: bool)
    requires
        context_views(list@) == all_shown(rows, BOOKEND_CHARS as nat),
    ensures
        answer == has_seq(rows, seq),
{
    assert(context_views(list@).len() == rows.len());
    for i in 0..list.len()
        invariant
            context_views(list@) == all_shown(rows, BOOKEND_CHARS as nat),
            list@.len() == rows.len(),
            forall|j: int| 0 <= j < i ==> (#[trigger] rows[j]).seq != seq,
    {
        assert(context_views(list@)[i as int] == shown(rows[i as int], BOOKEND_CHARS as nat));
        if list[i].seq == seq {
            return true;
        }
    }
    false
}

proof fn lemma_select_empty(rows: Seq<IndexRowView>, low: int, high: int)
    ensures
        within(rows.take(0), low, high).len() == 0,
        below(rows.take(0), low).len() == 0,
        above(rows.take(0), high).len() == 0,
{
    reveal(Seq::filter);
}

proof fn lemma_select_step(rows: Seq<IndexRowView>, i: int, low: int, high: int)
    requires
        0 <= i < rows.len(),
    ensures
        within(rows.take(i + 1), low, high) == if rows[i].visible() && low <= rows[i].seq <= high {
            within(rows.take(i), low, high).push(rows[i])
        } else {
            within(rows.take(i), low, high)
        },
        below(rows.take(i + 1), low) == if rows[i].visible() && rows[i].seq < low {
            below(rows.take(i), low).push(rows[i])
        } else {
            below(rows.take(i), low)
        },
        above(rows.take(i + 1), high) == if rows[i].visible() && rows[i].seq > high {
            above(rows.take(i), high).push(rows[i])
        } else {
            above(rows.take(i), high)
        },
{
    reveal(Seq::filter);
    assert(rows.take(i + 1).drop_last() =~= rows.take(i));
}

/// No line is indexed as more than one message.
pub proof fn lemma_at_most_one_message_per_line(values: Seq<Json>, now: u64)
    ensures
        messages::indexable_messages(values, now).len() <= values.len(),
    decreases values.len(),
{
    if values.len() > 0 {
        lemma_at_most_one_message_per_line(values.drop_last(), now);
    }
}

/// New rows are numbered one after the other.
pub proof fn fresh_rows_are_numbered(key: Seq<char>, values: Seq<Json>, first: int, now: u64)
    requires
        i64::MIN <= first,
        first + values.len() <= i64::MAX,
    ensures
        fresh_rows(key, values, first, now).len() <= values.len(),
        forall|i: int|
            0 <= i < fresh_rows(key, values, first, now).len() ==> (#[trigger] fresh_rows(
                key,
                values,
                first,
                now,
            )[i]).seq == first + i,
{
    lemma_at_most_one_message_per_line(values, now);
}

proof fn lemma_replaced_in_sequence(
    rows: Seq<IndexRowView>,
    key: Seq<char>,
    values: Seq<Json>,
    now: u64,
)
    requires
        in_sequence(rows),
        next_seq_of(rows) + values.len() <= i64::MAX,
    ensures
        in_sequence(replaced(rows, key, values, now)),
{
    let after = replaced(rows, key, values, now);
    let fresh = fresh_rows(key, values, next_seq_of(rows), now);
    fresh_rows_are_numbered(key, values, next_seq_of(rows), now);
    assert forall|i: int, j: int| 0 <= i < j < after.len() implies after[i].seq <= after[j].seq by {
        if i < rows.len() {
            assert(after[i].seq == rows[i].seq);
            if j < rows.len() {
                assert(after[j].seq == rows[j].seq);
            } else {
                assert(after[j] == fresh[j - rows.len()]);
                assert(rows[i].seq <= rows.last().seq);
            }
        } else {
            assert(after[i] == fresh[i - rows.len()]);
            assert(after[j] == fresh[j - rows.len()]);
        }
    }
}

} // verus!
