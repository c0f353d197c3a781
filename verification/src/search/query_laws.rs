//! What holds of every search.

use vstd::prelude::*;

use crate::search::messages::IndexedRole;
use crate::search::query;
use crate::search::query::{SearchQueryView, SearchSort, SqlPartView};
use crate::search::sanitize;
use crate::text;

verus! {

/// The text of a statement, with a mark in the place of each bound value.
pub open spec fn written(parts: Seq<SqlPartView>) -> Seq<char>
    decreases parts.len(),
{
    if parts.len() == 0 {
        Seq::empty()
    } else {
        written(parts.drop_last()) + match parts.last() {
            SqlPartView::Text(sql) => sql,
            _ => seq!['?'],
        }
    }
}

/// The bound values of a statement, in order.
pub open spec fn bound(parts: Seq<SqlPartView>) -> Seq<SqlPartView>
    decreases parts.len(),
{
    if parts.len() == 0 {
        Seq::empty()
    } else {
        match parts.last() {
            SqlPartView::Text(sql) => bound(parts.drop_last()),
            value => bound(parts.drop_last()).push(value),
        }
    }
}

proof fn lemma_parts_add(left: Seq<SqlPartView>, right: Seq<SqlPartView>)
    ensures
        written(left + right) == written(left) + written(right),
        bound(left + right) == bound(left) + bound(right),
    decreases right.len(),
{
    if right.len() == 0 {
        assert(left + right =~= left);
        assert(written(left) + written(right) =~= written(left));
        assert(bound(left) + bound(right) =~= bound(left));
    } else {
        let rest = right.drop_last();
        lemma_parts_add(left, rest);
        assert((left + right).drop_last() =~= left + rest);
        assert(written(left + right) =~= written(left) + written(right));
        assert(bound(left + right) =~= bound(left) + bound(right));
    }
}

proof fn lemma_one_part(part: SqlPartView)
    ensures
        written(seq![part]) == match part {
            SqlPartView::Text(sql) => sql,
            _ => seq!['?'],
        },
        bound(seq![part]) == match part {
            SqlPartView::Text(sql) => Seq::empty(),
            value => seq![value],
        },
{
    assert(seq![part].drop_last() =~= Seq::<SqlPartView>::empty());
    assert(written(Seq::<SqlPartView>::empty()) =~= Seq::<char>::empty());
    assert(bound(Seq::<SqlPartView>::empty()) =~= Seq::<SqlPartView>::empty());
    assert(written(seq![part]) =~= match part {
        SqlPartView::Text(sql) => sql,
        _ => seq!['?'],
    });
    assert(bound(seq![part]) =~= match part {
        SqlPartView::Text(sql) => Seq::empty(),
        value => seq![value],
    });
}

/// The names of roles as bound values.
pub open spec fn bound_names(roles: Seq<IndexedRole>) -> Seq<SqlPartView> {
    roles.map_values(|role: IndexedRole| SqlPartView::BindText(role.name()))
}

/// As many marks as there are roles.
pub open spec fn marks(count: nat) -> Seq<Seq<char>> {
    Seq::new(count, |i: int| seq!['?'])
}

proof fn lemma_role_parts(roles: Seq<IndexedRole>)
    ensures
        bound(query::role_parts(roles)) == bound_names(roles),
        written(query::role_parts(roles)) == text::joined(marks(roles.len()), ", "@),
    decreases roles.len(),
{
    if roles.len() == 0 {
        assert(bound(query::role_parts(roles)) =~= bound_names(roles));
    } else if roles.len() == 1 {
        lemma_one_part(SqlPartView::BindText(roles[0].name()));
        assert(bound(query::role_parts(roles)) =~= bound_names(roles));
    } else {
        let rest = roles.drop_last();
        let (comma, name) = (
            SqlPartView::Text(", "@),
            SqlPartView::BindText(roles.last().name()),
        );
        lemma_role_parts(rest);
        lemma_one_part(comma);
        lemma_one_part(name);
        lemma_parts_add(seq![comma], seq![name]);
        assert(seq![comma] + seq![name] =~= seq![comma, name]);
        lemma_parts_add(query::role_parts(rest), seq![comma, name]);
        assert(bound(query::role_parts(roles)) =~= bound_names(roles));
        assert(marks(roles.len()).drop_last() =~= marks(rest.len()));
        assert(written(query::role_parts(roles)) =~= text::joined(marks(roles.len()), ", "@));
    }
}

/// The roles that a search may find are those asked for; user and assistant
/// where none is asked for.
pub proof fn searched_roles_are_those_asked_for(params: SearchQueryView)
    ensures
        params.roles.len() > 0 ==> params.effective() == params.roles,
        params.roles.len() == 0 ==> params.effective() == seq![
            IndexedRole::User,
            IndexedRole::Assistant,
        ],
{
}

/// A search binds exactly what it is asked for, in order: the match expression
/// of its query, the names of its roles, the session to leave out, if any, and
/// its limit.
pub proof fn search_binds_what_is_asked_for(params: SearchQueryView)
    requires
        sanitize::fts_terms(params.query).len() > 0,
    ensures
        query::search_statement_of(params) matches Some(parts) && bound(parts) == seq![
            SqlPartView::BindText(
                sanitize::match_expression(sanitize::fts_terms(params.query)),
            ),
        ] + (if params.roles.len() > 0 {
            bound_names(params.roles)
        } else {
            bound_names(seq![IndexedRole::User, IndexedRole::Assistant])
        }) + (match params.exclude_session {
            Some(key) => seq![SqlPartView::BindText(key)],
            None => Seq::empty(),
        }) + seq![
            SqlPartView::BindInteger(
                if params.limit <= i64::MAX {
                    params.limit as i64
                } else {
                    (params.limit - 0x1_0000_0000_0000_0000) as i64
                },
            ),
        ],
{
    lemma_statement(params);
}

/// A search without anything to search for has no statement.
pub proof fn empty_searches_have_no_statement(params: SearchQueryView)
    ensures
        query::search_statement_of(params) is None <==> sanitize::fts_terms(params.query).len()
            == 0,
{
}

/// A search is worded by what it is asked for: a mark for each role, the clause
/// that leaves a session out where one is to be left out, and the order asked
/// for.
pub proof fn search_is_worded_by_what_is_asked_for(params: SearchQueryView)
    requires
        sanitize::fts_terms(params.query).len() > 0,
    ensures
        query::search_statement_of(params) matches Some(parts) && written(parts)
            == query::SEARCH_HEAD@ + seq!['?'] + query::SEARCH_VISIBLE@ + text::joined(
            marks(
                if params.roles.len() > 0 {
                    params.roles.len()
                } else {
                    2
                },
            ),
            ", "@,
        ) + ")"@ + (match params.exclude_session {
            Some(key) => query::SEARCH_EXCLUDE@ + seq!['?'],
            None => Seq::empty(),
        }) + (match params.sort {
            SearchSort::Rank => query::ORDER_RANK@,
            SearchSort::Newest => query::ORDER_NEWEST@,
            SearchSort::Oldest => query::ORDER_OLDEST@,
        }) + " LIMIT "@ + seq!['?'],
{
    lemma_statement(params);
}

proof fn lemma_statement(params: SearchQueryView)
    requires
        sanitize::fts_terms(params.query).len() > 0,
    ensures
        query::search_statement_of(params) matches Some(parts) && {
            &&& bound(parts) == seq![
                SqlPartView::BindText(
                    sanitize::match_expression(sanitize::fts_terms(params.query)),
                ),
            ] + (if params.roles.len() > 0 {
                bound_names(params.roles)
            } else {
                bound_names(seq![IndexedRole::User, IndexedRole::Assistant])
            }) + (match params.exclude_session {
                Some(key) => seq![SqlPartView::BindText(key)],
                None => Seq::empty(),
            }) + seq![
                SqlPartView::BindInteger(
                    if params.limit <= i64::MAX {
                        params.limit as i64
                    } else {
                        (params.limit - 0x1_0000_0000_0000_0000) as i64
                    },
                ),
            ]
            &&& written(parts) == query::SEARCH_HEAD@ + seq!['?'] + query::SEARCH_VISIBLE@
                + text::joined(
                marks(
                    if params.roles.len() > 0 {
                        params.roles.len()
                    } else {
                        2
                    },
                ),
                ", "@,
            ) + ")"@ + (match params.exclude_session {
                Some(key) => query::SEARCH_EXCLUDE@ + seq!['?'],
                None => Seq::empty(),
            }) + (match params.sort {
                SearchSort::Rank => query::ORDER_RANK@,
                SearchSort::Newest => query::ORDER_NEWEST@,
                SearchSort::Oldest => query::ORDER_OLDEST@,
            }) + " LIMIT "@ + seq!['?']
        },
{
    let expression = sanitize::match_expression(sanitize::fts_terms(params.query));
    let statement = query::statement_for(expression, params);
    let head = SqlPartView::Text(query::SEARCH_HEAD@);
    let matched = SqlPartView::BindText(expression);
    let visible = SqlPartView::Text(query::SEARCH_VISIBLE@);
    let roles = query::role_parts(params.effective());
    let close = SqlPartView::Text(")"@);
    let exclude = query::exclude_parts(params.exclude_session);
    let order = SqlPartView::Text(params.sort.clause());
    let limit_text = SqlPartView::Text(" LIMIT "@);
    let limit = statement.last();
    lemma_one_part(head);
    lemma_one_part(matched);
    lemma_one_part(visible);
    lemma_role_parts(params.effective());
    lemma_one_part(close);
    match params.exclude_session {
        Some(key) => {
            let clause = SqlPartView::Text(query::SEARCH_EXCLUDE@);
            lemma_one_part(clause);
            lemma_one_part(SqlPartView::BindText(key));
            lemma_parts_add(seq![clause], seq![SqlPartView::BindText(key)]);
            assert(exclude =~= seq![clause] + seq![SqlPartView::BindText(key)]);
            assert(bound(exclude) =~= seq![SqlPartView::BindText(key)]);
        },
        None => {
            assert(bound(exclude) =~= Seq::<SqlPartView>::empty());
            assert(written(exclude) =~= Seq::<char>::empty());
        },
    }
    lemma_one_part(order);
    lemma_one_part(limit_text);
    lemma_one_part(limit);
    let p1 = seq![head];
    let p2 = p1 + seq![matched];
    let p3 = p2 + seq![visible];
    let p4 = p3 + roles;
    let p5 = p4 + seq![close];
    let p6 = p5 + exclude;
    let p7 = p6 + seq![order];
    let p8 = p7 + seq![limit_text];
    let p9 = p8 + seq![limit];
    lemma_parts_add(p1, seq![matched]);
    lemma_parts_add(p2, seq![visible]);
    lemma_parts_add(p3, roles);
    lemma_parts_add(p4, seq![close]);
    lemma_parts_add(p5, exclude);
    lemma_parts_add(p6, seq![order]);
    lemma_parts_add(p7, seq![limit_text]);
    lemma_parts_add(p8, seq![limit]);
    assert(statement =~= p9);
    let wanted = if params.roles.len() > 0 {
        bound_names(params.roles)
    } else {
        bound_names(seq![IndexedRole::User, IndexedRole::Assistant])
    };
    assert(bound_names(params.effective()) == wanted);
    assert(bound(p9) =~= seq![matched] + wanted + (match params.exclude_session {
        Some(key) => seq![SqlPartView::BindText(key)],
        None => Seq::empty(),
    }) + seq![limit]);
}

} // verus!
