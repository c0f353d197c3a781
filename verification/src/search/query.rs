//! Search requests and the statements that answer them.

use vstd::prelude::*;

use crate::integers;
use crate::search::messages::IndexedRole;
use crate::search::sanitize;
use crate::text;

verus! {

/// Sort order for flat search results.
#[derive(Debug, Clone, Copy, PartialEq, Eq, Structural)]
pub enum SearchSort {
    /// Relevance (best match first).
    Rank,
    Newest,
    Oldest,
}

impl Default for SearchSort {
    fn default() -> (sort: SearchSort)
        ensures
            sort == SearchSort::Rank,
    {
        SearchSort::Rank
    }
}

/// Parameters for a flat search.
#[derive(Debug, Clone)]
pub struct SearchQuery {
    pub query: String,
    pub limit: usize,
    pub sort: SearchSort,
    /// Restrict hits to these roles; empty means user and assistant.
    pub roles: Vec<IndexedRole>,
    /// Session key to exclude (usually the caller's own session).
    pub exclude_session: Option<String>,
}

/// The view of a [`SearchQuery`].
pub struct SearchQueryView {
    pub query: Seq<char>,
    pub limit: usize,
    pub sort: SearchSort,
    pub roles: Seq<IndexedRole>,
    pub exclude_session: Option<Seq<char>>,
}

impl View for SearchQuery {
    type V = SearchQueryView;

    open spec fn view(&self) -> SearchQueryView {
        SearchQueryView {
            query: self.query@,
            limit: self.limit,
            sort: self.sort,
            roles: self.roles@,
            exclude_session: text::view_of(self.exclude_session),
        }
    }
}

/// A piece of a statement: text, or the place of a bound value.
#[derive(Debug, Clone)]
pub enum SqlPart {
    Text(String),
    BindText(String),
    BindInteger(i64),
}

/// The view of a [`SqlPart`].
pub enum SqlPartView {
    Text(Seq<char>),
    BindText(Seq<char>),
    BindInteger(i64),
}

impl View for SqlPart {
    type V = SqlPartView;

    open spec fn view(&self) -> SqlPartView {
        match self {
            SqlPart::Text(sql) => SqlPartView::Text(sql@),
            SqlPart::BindText(value) => SqlPartView::BindText(value@),
            SqlPart::BindInteger(value) => SqlPartView::BindInteger(*value),
        }
    }
}

/// The views of the parts of a statement.
pub open spec fn part_views(parts: Seq<SqlPart>) -> Seq<SqlPartView> {
    parts.map_values(|part: SqlPart| part@)
}

/// The head of a search: what is selected, up to the match expression.
pub const SEARCH_HEAD: &'static str = "SELECT m.session_key, m.seq, m.role, m.created_at, m.compacted, \
     snippet(session_messages_fts, 0, '>>>', '<<<', ' … ', 40) AS snip \
     FROM session_messages_fts \
     JOIN session_messages m ON m.id = session_messages_fts.rowid \
     WHERE session_messages_fts MATCH ";

/// Live and archived rows are searched, of the roles that follow.
pub const SEARCH_VISIBLE: &'static str = " AND (m.active = 1 OR m.compacted = 1) AND m.role IN (";

pub const SEARCH_EXCLUDE: &'static str = " AND m.session_key != ";

pub const ORDER_RANK: &'static str = " ORDER BY rank";

pub const ORDER_NEWEST: &'static str = " ORDER BY m.created_at DESC, rank";

pub const ORDER_OLDEST: &'static str = " ORDER BY m.created_at ASC, rank";

impl SearchSort {
    /// The clause that orders hits this way.
    pub open spec fn clause(self) -> Seq<char> {
        match self {
            SearchSort::Rank => ORDER_RANK@,
            SearchSort::Newest => ORDER_NEWEST@,
            SearchSort::Oldest => ORDER_OLDEST@,
        }
    }

    fn order_clause(self) -> (clause: &'static str)
        ensures
            clause@ == self.clause(),
    {
        match self {
            SearchSort::Rank => ORDER_RANK,
            SearchSort::Newest => ORDER_NEWEST,
            SearchSort::Oldest => ORDER_OLDEST,
        }
    }
}

impl SearchQueryView {
    /// The roles that hits may have.
    pub open spec fn effective(self) -> Seq<IndexedRole> {
        if self.roles.len() == 0 {
            seq![IndexedRole::User, IndexedRole::Assistant]
        } else {
            self.roles
        }
    }
}

/// The names of `roles` as bound values with commas between them.
pub open spec fn role_parts(roles: Seq<IndexedRole>) -> Seq<SqlPartView>
    decreases roles.len(),
{
    if roles.len() == 0 {
        Seq::empty()
    } else if roles.len() == 1 {
        seq![SqlPartView::BindText(roles[0].name())]
    } else {
        role_parts(roles.drop_last()) + seq![
            SqlPartView::Text(", "@),
            SqlPartView::BindText(roles.last().name()),
        ]
    }
}

/// The clause that leaves one session out, if one is to be left out.
pub open spec fn exclude_parts(session: Option<Seq<char>>) -> Seq<SqlPartView> {
    match session {
        Some(key) => seq![SqlPartView::Text(SEARCH_EXCLUDE@), SqlPartView::BindText(key)],
        None => Seq::empty(),
    }
}

/// The statement of a search for the match expression `expression`.
pub open spec fn statement_for(expression: Seq<char>, params: SearchQueryView) -> Seq<SqlPartView> {
    seq![
        SqlPartView::Text(SEARCH_HEAD@),
        SqlPartView::BindText(expression),
        SqlPartView::Text(SEARCH_VISIBLE@),
    ] + role_parts(params.effective()) + seq![SqlPartView::Text(")"@)] + exclude_parts(
        params.exclude_session,
    ) + seq![
        SqlPartView::Text(params.sort.clause()),
        SqlPartView::Text(" LIMIT "@),
        SqlPartView::BindInteger(integers::same_bits(params.limit as u64) as i64),
    ]
}

/// The statement of a search; `None` where nothing searchable is asked for.
pub open spec fn search_statement_of(params: SearchQueryView) -> Option<Seq<SqlPartView>> {
    let terms = sanitize::fts_terms(params.query);
    if terms.len() == 0 {
        None
    } else {
        Some(statement_for(sanitize::match_expression(terms), params))
    }
}

impl SearchQuery {
    pub fn new(query: &str) -> (params: SearchQuery)
        ensures
            params@ == (SearchQueryView {
                query: query@,
                limit: 20,
                sort: SearchSort::Rank,
                roles: Seq::empty(),
                exclude_session: None,
            }),
    {
        SearchQuery {
            query: query.to_owned(),
            limit: 20,
            sort: SearchSort::Rank,
            roles: Vec::new(),
            exclude_session: None,
        }
    }

    /// The roles that hits may have: those asked for, or user and assistant.
    pub fn effective_roles(&self) -> (roles: Vec<IndexedRole>)
        ensures
            roles@ == self@.effective(),
    {
        let mut roles: Vec<IndexedRole> = Vec::new();
        if self.roles.len() == 0 {
            roles.push(IndexedRole::User);
            roles.push(IndexedRole::Assistant);
        } else {
            for i in 0..self.roles.len()
                invariant
                    roles@ == self.roles@.take(i as int),
            {
                roles.push(self.roles[i]);
            }
        }
        roles
    }
}

fn push_text(parts: &mut Vec<SqlPart>, sql: &str)
    ensures
        part_views(final(parts)@) == part_views(old(parts)@).push(SqlPartView::Text(sql@)),
{
    parts.push(SqlPart::Text(sql.to_owned()));
    assert(part_views(parts@) =~= part_views(old(parts)@).push(SqlPartView::Text(sql@)));
}

fn push_bind_text(parts: &mut Vec<SqlPart>, value: &str)
    ensures
        part_views(final(parts)@) == part_views(old(parts)@).push(SqlPartView::BindText(value@)),
{
    parts.push(SqlPart::BindText(value.to_owned()));
    assert(part_views(parts@) =~= part_views(old(parts)@).push(SqlPartView::BindText(value@)));
}

/// Write the statement of a flat search over indexed messages.
///
/// `None` when nothing searchable remains of the query: the search then has no
/// hits.
pub fn search_statement(params: &SearchQuery) -> (parts: Option<Vec<SqlPart>>)
    ensures
        match parts {
            Some(parts) => search_statement_of(params@) == Some(part_views(parts@)),
            None => search_statement_of(params@) is None,
        },
{
    let expression = match sanitize::sanitize_fts_query(params.query.as_str()) {
        Some(expression) => expression,
        None => return None,
    };
    let roles = params.effective_roles();
    let mut parts: Vec<SqlPart> = Vec::new();
    push_text(&mut parts, SEARCH_HEAD);
    push_bind_text(&mut parts, expression.as_str());
    push_text(&mut parts, SEARCH_VISIBLE);
    let ghost head = part_views(parts@);
    assert(head + role_parts(roles@.take(0)) =~= head);
    for i in 0..roles.len()
        invariant
            part_views(parts@) == head + role_parts(roles@.take(i as int)),
    {
        assert(roles@.take(i + 1).drop_last() =~= roles@.take(i as int));
        if i > 0 {
            push_text(&mut parts, ", ");
        }
        push_bind_text(&mut parts, roles[i].as_str());
        assert(part_views(parts@) =~= head + role_parts(roles@.take(i + 1)));
    }
    assert(roles@.take(roles@.len() as int) =~= roles@);
    push_text(&mut parts, ")");
    match &params.exclude_session {
        Some(key) => {
            push_text(&mut parts, SEARCH_EXCLUDE);
            push_bind_text(&mut parts, key.as_str());
        },
        None => {},
    }
    push_text(&mut parts, params.sort.order_clause());
    push_text(&mut parts, " LIMIT ");
    let ghost before = parts@;
    parts.push(SqlPart::BindInteger(integers::to_signed(params.limit as u64)));
    assert(part_views(parts@) =~= part_views(before).push(parts@.last()@));
    assert(part_views(parts@) =~= statement_for(expression@, params@));
    Some(parts)
}

/// The fixed texts that statements are made of.
pub open spec fn fixed_text(sql: Seq<char>) -> bool {
    ||| sql == SEARCH_HEAD@
    ||| sql == SEARCH_VISIBLE@
    ||| sql == ", "@
    ||| sql == ")"@
    ||| sql == SEARCH_EXCLUDE@
    ||| sql == ORDER_RANK@
    ||| sql == ORDER_NEWEST@
    ||| sql == ORDER_OLDEST@
    ||| sql == " LIMIT "@
}

/// Nothing that a caller supplies becomes part of the text of a statement:
/// each piece of text is a fixed one, whatever the parameters.
pub proof fn supplied_text_is_only_bound(params: SearchQueryView)
    ensures
        search_statement_of(params) matches Some(parts) ==> forall|i: int|
            0 <= i < parts.len() ==> (#[trigger] parts[i] matches SqlPartView::Text(sql)
                ==> fixed_text(sql)),
{
    lemma_role_parts_fixed(params.effective());
}

proof fn lemma_role_parts_fixed(roles: Seq<IndexedRole>)
    ensures
        forall|i: int|
            0 <= i < role_parts(roles).len() ==> (#[trigger] role_parts(
                roles,
            )[i] matches SqlPartView::Text(sql) ==> fixed_text(sql)),
    decreases roles.len(),
{
    if roles.len() > 1 {
        lemma_role_parts_fixed(roles.drop_last());
    }
}

} // verus!
