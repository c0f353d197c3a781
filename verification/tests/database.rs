//! The index on a real database.

use moltis::clock::now_ms;
use moltis::json::{Json, Member};
use moltis::search::backfill::{chunks, pending_rows, total_indexed};
use moltis::search::discover::{
    best_hits, discovery_scan, hit_from_row, session_match, HitRow, MessageHit, SessionMatch,
};
use moltis::search::messages::{IndexableMessage, IndexedRole};
use moltis::search::query::{search_statement, SearchQuery, SqlPart};
use moltis::search::rows::{appended_row, IndexRow, SessionRows};
use sqlx::sqlite::SqlitePoolOptions;
use sqlx::{QueryBuilder, Row, Sqlite, SqlitePool};

const SCHEMA: &str = "
CREATE TABLE session_messages (
    id INTEGER PRIMARY KEY,
    session_key TEXT NOT NULL,
    seq INTEGER NOT NULL,
    role TEXT NOT NULL,
    content TEXT NOT NULL,
    tool_name TEXT,
    created_at INTEGER NOT NULL,
    active INTEGER NOT NULL DEFAULT 1,
    compacted INTEGER NOT NULL DEFAULT 0,
    UNIQUE (session_key, seq)
);
CREATE VIRTUAL TABLE session_messages_fts USING fts5(
    content, content='session_messages', content_rowid='id'
);
CREATE TRIGGER session_messages_added AFTER INSERT ON session_messages BEGIN
    INSERT INTO session_messages_fts(rowid, content) VALUES (new.id, new.content);
END;
CREATE TRIGGER session_messages_removed AFTER DELETE ON session_messages BEGIN
    INSERT INTO session_messages_fts(session_messages_fts, rowid, content)
    VALUES ('delete', old.id, old.content);
END;
";

struct Index {
    runtime: tokio::runtime::Runtime,
    pool: SqlitePool,
}

impl Index {
    fn new() -> Index {
        let runtime = tokio::runtime::Builder::new_current_thread().enable_all().build().unwrap();
        let pool = runtime.block_on(async {
            let pool = SqlitePoolOptions::new()
                .max_connections(1)
                .connect("sqlite::memory:")
                .await
                .unwrap();
            sqlx::raw_sql(SCHEMA).execute(&pool).await.unwrap();
            pool
        });
        Index { runtime, pool }
    }

    fn insert(&self, row: &IndexRow) {
        let query = sqlx::query(
            "INSERT INTO session_messages
             (session_key, seq, role, content, tool_name, created_at, active, compacted)
             VALUES (?, ?, ?, ?, ?, ?, ?, ?)",
        )
        .bind(&row.session_key)
        .bind(row.seq)
        .bind(&row.role)
        .bind(&row.content)
        .bind(&row.tool_name)
        .bind(row.created_at)
        .bind(row.active)
        .bind(row.compacted);
        self.runtime.block_on(query.execute(&self.pool)).unwrap();
    }

    fn session(&self, key: &str) -> SessionRows {
        let rows = self
            .runtime
            .block_on(
                sqlx::query(
                    "SELECT session_key, seq, role, content, tool_name, created_at, active,
                     compacted FROM session_messages WHERE session_key = ?",
                )
                .bind(key)
                .fetch_all(&self.pool),
            )
            .unwrap();
        SessionRows::new(
            rows.iter()
                .map(|row| IndexRow {
                    session_key: row.get("session_key"),
                    seq: row.get("seq"),
                    role: row.get("role"),
                    content: row.get("content"),
                    tool_name: row.get("tool_name"),
                    created_at: row.get("created_at"),
                    active: row.get("active"),
                    compacted: row.get("compacted"),
                })
                .collect(),
        )
    }

    fn highest(&self, key: &str) -> Option<i64> {
        self.session(key).rows().last().map(|row| row.seq)
    }

    fn remove(&self, key: &str) {
        let query = sqlx::query("DELETE FROM session_messages WHERE session_key = ?").bind(key);
        self.runtime.block_on(query.execute(&self.pool)).unwrap();
    }

    fn append(&self, key: &str, value: &Json) {
        if let Some(message) = IndexableMessage::from_value(value) {
            self.insert(&appended_row(key, self.highest(key), &message));
        }
    }

    fn replace(&self, key: &str, history: Vec<Json>) {
        let mut session = self.session(key);
        session.replace_history(key, &history, now_ms());
        self.remove(key);
        for row in session.rows() {
            self.insert(row);
        }
    }

    fn search(&self, params: &SearchQuery) -> Result<Vec<MessageHit>, sqlx::Error> {
        let Some(parts) = search_statement(params) else {
            return Ok(vec![]);
        };
        let mut builder: QueryBuilder<Sqlite> = QueryBuilder::new("");
        for part in parts {
            match part {
                SqlPart::Text(sql) => {
                    builder.push(sql);
                }
                SqlPart::BindText(value) => {
                    builder.push_bind(value);
                }
                SqlPart::BindInteger(value) => {
                    builder.push_bind(value);
                }
            }
        }
        let rows = self.runtime.block_on(builder.build().fetch_all(&self.pool))?;
        Ok(rows
            .iter()
            .map(|row| {
                hit_from_row(HitRow {
                    session_key: row.get("session_key"),
                    seq: row.get("seq"),
                    role: row.get("role"),
                    snip: row.get("snip"),
                    created_at: row.get("created_at"),
                    compacted: row.get("compacted"),
                })
            })
            .collect())
    }

    fn discover(&self, params: &SearchQuery, prefixes: Vec<String>) -> Vec<SessionMatch> {
        let hits = self.search(&discovery_scan(params)).unwrap();
        best_hits(&hits, &prefixes, params.limit)
            .into_iter()
            .map(|hit| {
                let session = self.session(&hit.session_key);
                session_match(hit, &session, 2)
            })
            .collect()
    }

    fn sync(&self, key: &str, lines: &Vec<Json>) -> u64 {
        let pending = pending_rows(key, lines, &self.session(key), now_ms());
        let mut inserted = 0;
        for part in chunks(&pending) {
            for row in &part {
                self.insert(row);
                inserted += 1;
            }
        }
        inserted
    }

    fn count(&self) -> i64 {
        let query = sqlx::query_scalar("SELECT COUNT(*) FROM session_messages");
        self.runtime.block_on(query.fetch_one(&self.pool)).unwrap()
    }
}

fn object(members: Vec<(&str, &str)>) -> Json {
    Json::Object(
        members
            .into_iter()
            .map(|(key, value)| Member {
                key: key.to_string(),
                value: Json::Text(value.to_string()),
            })
            .collect(),
    )
}

fn message(role: &str, content: &str, created_at: u64) -> Json {
    let member = |key: &str, value: Json| Member { key: key.to_string(), value };
    Json::Object(vec![
        member("role", Json::Text(role.to_string())),
        member("content", Json::Text(content.to_string())),
        member("created_at", Json::Unsigned(created_at)),
    ])
}

fn user_msg(content: &str) -> Json {
    message("user", content, 1000)
}

fn assistant_msg(content: &str) -> Json {
    message("assistant", content, 2000)
}

#[test]
fn index_and_search_roundtrip() {
    let index = Index::new();
    index.append("s1", &user_msg("the mitochondria is the powerhouse"));
    index.append("s2", &user_msg("unrelated content"));

    let hits = index.search(&SearchQuery::new("mitochondria powerhouse")).unwrap();
    assert_eq!(hits.len(), 1);
    assert_eq!(hits[0].session_key, "s1");
    assert!(hits[0].snippet.contains(">>>mitochondria<<<"));
    assert!(!hits[0].compacted);
}

#[test]
fn search_excludes_current_session_and_filters_roles() {
    let index = Index::new();
    index.append("current", &user_msg("shared topic"));
    index.append("other", &assistant_msg("shared topic"));
    index.append(
        "tools",
        &object(vec![("role", "tool"), ("content", "shared topic"), ("tool_name", "exec")]),
    );

    let mut params = SearchQuery::new("shared topic");
    params.exclude_session = Some("current".into());
    let hits = index.search(&params).unwrap();
    // Tool rows are excluded by the default role filter.
    assert_eq!(hits.len(), 1);
    assert_eq!(hits[0].session_key, "other");

    params.roles = vec![IndexedRole::Tool];
    let tool_hits = index.search(&params).unwrap();
    assert_eq!(tool_hits.len(), 1);
    assert_eq!(tool_hits[0].session_key, "tools");
}

#[test]
fn malicious_queries_do_not_error() {
    let index = Index::new();
    index.append("s1", &user_msg("hello world"));
    for query in [
        "\"unbalanced",
        "a OR",
        "NEAR(a b)",
        "content:hello",
        "{malformed}",
        "-- ; DROP TABLE session_messages",
    ] {
        let result = index.search(&SearchQuery::new(query));
        assert!(result.is_ok(), "query {query:?} errored: {result:?}");
    }
}

#[test]
fn replacement_archives_but_keeps_searchable() {
    let index = Index::new();
    index.append("s1", &user_msg("original secret plan"));
    index.replace("s1", vec![assistant_msg("summary of the plan")]);

    // Old content still searchable, flagged compacted.
    let old = index.search(&SearchQuery::new("original secret")).unwrap();
    assert_eq!(old.len(), 1);
    assert!(old[0].compacted);

    // New content is active.
    let new = index.search(&SearchQuery::new("summary plan")).unwrap();
    assert_eq!(new.len(), 1);
    assert!(!new[0].compacted);
}

#[test]
fn remove_session_purges_fts() {
    let index = Index::new();
    index.append("s1", &user_msg("ephemeral data"));
    index.remove("s1");
    let hits = index.search(&SearchQuery::new("ephemeral")).unwrap();
    assert!(hits.is_empty());
    assert_eq!(index.count(), 0);
}

#[test]
fn discover_groups_by_session_with_context_and_bookends() {
    let index = Index::new();
    for i in 0..10 {
        index.append("s1", &user_msg(&format!("filler message {i}")));
    }
    index.append("s1", &user_msg("the needle is here"));
    index.append("s1", &assistant_msg("resolution after the needle"));

    let matches = index.discover(&SearchQuery::new("needle"), vec![]);
    assert_eq!(matches.len(), 1);
    let m = &matches[0];
    assert_eq!(m.session_key, "s1");
    assert_eq!(m.hit.seq, 10);
    assert!(m.context.iter().any(|c| c.is_match && c.seq == 10));
    assert_eq!(m.bookend_start.len(), 3);
    assert_eq!(m.bookend_start[0].seq, 0);
    assert!(m.messages_before > 0);
    // Window [8..12] truncated at 11 → nothing after.
    assert_eq!(m.messages_after, 0);
    // Bookend overlap with start is dropped, no duplicate seqs.
    let end_seqs: Vec<i64> = m.bookend_end.iter().map(|c| c.seq).collect();
    assert!(end_seqs.iter().all(|seq| *seq >= 9));
}

#[test]
fn discover_demotes_prefixed_sessions() {
    let index = Index::new();
    index.append("cron:job1", &user_msg("deploy checklist steps"));
    index.append("main", &user_msg("deploy checklist"));

    let matches = index.discover(&SearchQuery::new("deploy checklist"), vec!["cron:".into()]);
    assert_eq!(matches.len(), 2);
    assert_eq!(matches[0].session_key, "main");
    assert_eq!(matches[1].session_key, "cron:job1");
}

#[test]
fn sync_session_is_incremental_and_idempotent() {
    let index = Index::new();
    let mut lines = vec![user_msg("first line"), assistant_msg("second line")];

    assert_eq!(index.sync("s1", &lines), 2);
    assert_eq!(index.sync("s1", &lines), 0);

    lines.push(user_msg("third line"));
    assert_eq!(index.sync("s1", &lines), 1);

    let hits = index.search(&SearchQuery::new("third line")).unwrap();
    assert_eq!(hits.len(), 1);
    assert_eq!(hits[0].seq, 2);
}

#[test]
fn sync_all_walks_every_session() {
    let index = Index::new();
    let counts = vec![
        Some(index.sync("a", &vec![user_msg("alpha content")])),
        Some(index.sync("b", &vec![user_msg("beta content")])),
    ];
    assert_eq!(total_indexed(&counts), 2);
    assert_eq!(index.count(), 2);
}

#[test]
fn seq_preserved_across_backfill_and_live_appends() {
    let index = Index::new();
    let mut lines = vec![user_msg("backfilled")];
    index.sync("s1", &lines);

    let live = user_msg("live append");
    index.append("s1", &live);
    lines.push(live);

    // Live append continues seq after backfilled rows; re-sync adds nothing.
    assert_eq!(index.sync("s1", &lines), 0);
    let hits = index.search(&SearchQuery::new("live append")).unwrap();
    assert_eq!(hits[0].seq, 1);
}

#[test]
fn sync_adds_nothing_to_a_transcript_indexed_live() {
    let index = Index::new();
    let lines = vec![object(vec![("role", "notice"), ("content", "x")]), user_msg("hi")];
    for line in &lines {
        index.append("s1", line);
    }
    assert_eq!(index.sync("s1", &lines), 0);
    assert_eq!(index.count(), 1);
    assert_eq!(index.search(&SearchQuery::new("hi")).unwrap().len(), 1);
}

#[test]
fn sync_numbers_rows_by_line() {
    let index = Index::new();
    let mut lines = vec![object(vec![("role", "notice"), ("content", "x")]), user_msg("hi")];
    assert_eq!(index.sync("s1", &lines), 1);
    assert_eq!(index.search(&SearchQuery::new("hi")).unwrap()[0].seq, 1);
    lines.push(object(vec![("role", "system"), ("content", "y")]));
    lines.push(user_msg("more"));
    assert_eq!(index.sync("s1", &lines), 1);
    assert_eq!(index.search(&SearchQuery::new("more")).unwrap()[0].seq, 3);
}

#[test]
fn sync_catches_up_after_a_replacement() {
    let index = Index::new();
    for i in 0..5 {
        index.append("s1", &user_msg(&format!("long talk {i}")));
    }
    index.replace("s1", vec![assistant_msg("summary")]);
    let mut lines = vec![assistant_msg("summary")];
    assert_eq!(index.sync("s1", &lines), 0);

    lines.push(user_msg("written while indexing was off"));
    assert_eq!(index.sync("s1", &lines), 1);
    assert_eq!(index.sync("s1", &lines), 0);
    let hits = index.search(&SearchQuery::new("indexing off")).unwrap();
    assert_eq!(hits.len(), 1);
    assert_eq!(hits[0].seq, 6);
}

#[test]
fn phrase_with_a_tab_is_found() {
    let index = Index::new();
    index.append("s1", &user_msg("the exact phrase stands here"));
    index.append("s2", &user_msg("a phrase that is exact"));
    let hits = index.search(&SearchQuery::new("\"exact\tphrase\"")).unwrap();
    assert_eq!(hits.len(), 1);
    assert_eq!(hits[0].session_key, "s1");
}
