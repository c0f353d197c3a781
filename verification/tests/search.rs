use moltis::json::{Json, Member};
use moltis::search::backfill::{chunks, pending_rows, total_indexed, BACKFILL_CHUNK};
use moltis::search::discover::{
    best_hits, discovery_scan, hit_from_row, session_match, HitRow, MessageHit,
    DISCOVER_SCAN_LIMIT,
};
use moltis::search::messages::{extract_text, IndexableMessage, IndexedRole};
use moltis::search::query::{search_statement, SearchQuery, SearchSort, SqlPart};
use moltis::search::rows::{
    appended_row, new_row, next_seq, IndexRow, SessionRows, BOOKEND_CHARS, BOOKEND_MESSAGES,
    CONTEXT_CHARS,
};
use moltis::search::sanitize::{sanitize_fts_query, MAX_QUERY_CHARS};

fn text(value: &str) -> Json {
    Json::Text(value.to_string())
}

fn object(members: Vec<(&str, Json)>) -> Json {
    Json::Object(
        members
            .into_iter()
            .map(|(key, value)| Member { key: key.to_string(), value })
            .collect(),
    )
}

fn line(role: &str, content: &str, created_at: u64) -> Json {
    object(vec![
        ("role", text(role)),
        ("content", text(content)),
        ("created_at", Json::Unsigned(created_at)),
    ])
}

fn user_msg(content: &str) -> Json {
    line("user", content, 1000)
}

fn assistant_msg(content: &str) -> Json {
    line("assistant", content, 2000)
}

fn stored(seq: i64, role: &str, content: &str) -> IndexRow {
    IndexRow {
        session_key: "s1".to_string(),
        seq,
        role: role.to_string(),
        content: content.to_string(),
        tool_name: None,
        created_at: 1000,
        active: true,
        compacted: false,
    }
}

fn hit(key: &str, seq: i64) -> MessageHit {
    MessageHit {
        session_key: key.to_string(),
        seq,
        role: "user".to_string(),
        snippet: String::new(),
        created_at: 0,
        compacted: false,
    }
}

/// Append the lines one after the other, as they arrive.
fn appended(key: &str, lines: &[Json]) -> Vec<IndexRow> {
    let mut rows: Vec<IndexRow> = Vec::new();
    for value in lines {
        if let Some(message) = IndexableMessage::from_value(value) {
            let highest = rows.iter().map(|row| row.seq).max();
            rows.push(appended_row(key, highest, &message));
        }
    }
    rows
}

// Sanitizing.

#[test]
fn sanitizer_quotes_plain_terms() {
    assert_eq!(sanitize_fts_query("hello world"), Some("\"hello\" \"world\"".into()));
}

#[test]
fn sanitizer_neutralizes_fts_operators() {
    assert_eq!(
        sanitize_fts_query("a AND b OR NOT (c)"),
        Some("\"a\" \"AND\" \"b\" \"OR\" \"NOT\" \"c\"".into())
    );
    assert_eq!(sanitize_fts_query("col:value"), Some("\"col:value\"".into()));
    assert_eq!(sanitize_fts_query("wild*"), Some("\"wild\"".into()));
}

#[test]
fn sanitizer_preserves_quoted_phrases() {
    assert_eq!(
        sanitize_fts_query("\"exact phrase\" extra"),
        Some("\"exact phrase\" \"extra\"".into())
    );
}

#[test]
fn sanitizer_keeps_dotted_and_hyphenated_terms() {
    assert_eq!(
        sanitize_fts_query("chat-send helpers.ts"),
        Some("\"chat-send\" \"helpers.ts\"".into())
    );
}

#[test]
fn sanitizer_rejects_empty_and_symbol_only() {
    assert_eq!(sanitize_fts_query(""), None);
    assert_eq!(sanitize_fts_query("   "), None);
    assert_eq!(sanitize_fts_query("^{}()*"), None);
}

#[test]
fn sanitizer_bounds_query_length() {
    let long = "a ".repeat(MAX_QUERY_CHARS);
    let sanitized = sanitize_fts_query(&long).unwrap();
    assert!(sanitized.len() < MAX_QUERY_CHARS * 4);
}

#[test]
fn sanitizer_looks_at_the_first_characters_only() {
    assert_eq!(MAX_QUERY_CHARS, 1024);
    let padded = format!("{}x", " ".repeat(1023));
    assert_eq!(sanitize_fts_query(&padded), Some("\"x\"".to_string()));
    let too_far = format!("{}x", " ".repeat(1024));
    assert_eq!(sanitize_fts_query(&too_far), None);
    let cut = "é".repeat(2000);
    assert_eq!(sanitize_fts_query(&cut), Some(format!("\"{}\"", "é".repeat(1024))));
}

#[test]
fn sanitizer_splits_at_every_quote() {
    assert_eq!(
        sanitize_fts_query("a\"b c\"d"),
        Some("\"a\" \"b c\" \"d\"".to_string())
    );
    assert_eq!(sanitize_fts_query("\"unbalanced phrase"), Some("\"unbalanced phrase\"".to_string()));
    assert_eq!(sanitize_fts_query("\"\"\"\""), None);
    assert_eq!(sanitize_fts_query("\" padded  \""), Some("\"padded\"".to_string()));
}

#[test]
fn sanitizer_goes_by_unicode_classes() {
    assert_eq!(
        sanitize_fts_query("héllo\u{3000}wörld →"),
        Some("\"héllo\" \"wörld\"".to_string())
    );
    assert_eq!(
        sanitize_fts_query("a@b.c/d\\e_f-g:h'i!"),
        Some("\"a@b.c/d\\e_f-g:h'i\"".to_string())
    );
}

#[test]
fn sanitizer_keeps_the_words_of_a_phrase_apart() {
    assert_eq!(
        sanitize_fts_query("\"exact\tphrase\""),
        Some("\"exact phrase\"".to_string())
    );
    assert_eq!(
        sanitize_fts_query("\"\na\u{3000}(b)\r\nc* \""),
        Some("\"a b  c\"".to_string())
    );
    assert_eq!(sanitize_fts_query("\"\t\n\""), None);
}

#[test]
fn sanitizing_twice_is_sanitizing_once() {
    for raw in ["a AND (b)", "\"exact phrase\" extra", "héllo wörld", "x \" y z"] {
        let once = sanitize_fts_query(raw).unwrap();
        assert_eq!(sanitize_fts_query(&once), Some(once.clone()));
    }
}

// Extraction.

#[test]
fn extracts_multimodal_text_blocks() {
    let value = object(vec![
        ("role", text("user")),
        (
            "content",
            Json::Array(vec![
                object(vec![("type", text("text")), ("text", text("part one"))]),
                object(vec![
                    ("type", text("image_url")),
                    ("image_url", object(vec![("url", text("data:..."))])),
                ]),
                object(vec![("type", text("text")), ("text", text("part two"))]),
            ]),
        ),
    ]);
    let msg = IndexableMessage::from_value(&value).unwrap();
    assert_eq!(msg.content, "part one\npart two");
}

#[test]
fn skips_system_notice_and_empty() {
    let value =
        |role: &str, content: &str| object(vec![("role", text(role)), ("content", text(content))]);
    assert!(IndexableMessage::from_value(&value("system", "x")).is_none());
    assert!(IndexableMessage::from_value(&value("notice", "x")).is_none());
    assert!(IndexableMessage::from_value(&value("user", "  ")).is_none());
}

#[test]
fn messages_are_extracted_with_their_columns() {
    let value = object(vec![
        ("role", text("tool_result")),
        ("content", text(" out ")),
        ("tool_name", text("exec")),
        ("created_at", Json::Unsigned(5)),
    ]);
    let message = IndexableMessage::from_value_at(&value, 99).unwrap();
    assert_eq!(message.role, IndexedRole::Tool);
    assert_eq!(message.content, " out ");
    assert_eq!(message.tool_name, Some("exec".to_string()));
    assert_eq!(message.created_at, 5);
}

#[test]
fn lines_without_a_time_get_the_present() {
    for time in [Json::OtherNumber, Json::Null, text("5")] {
        let value =
            object(vec![("role", text("user")), ("content", text("x")), ("created_at", time)]);
        assert_eq!(IndexableMessage::from_value_at(&value, 99).unwrap().created_at, 99);
    }
    let bare = object(vec![("role", text("user")), ("content", text("x"))]);
    assert_eq!(IndexableMessage::from_value_at(&bare, 7).unwrap().created_at, 7);
    assert!(IndexableMessage::from_value(&bare).unwrap().created_at > 1_600_000_000_000);
}

#[test]
fn incomplete_lines_are_not_indexed() {
    for value in [
        Json::Null,
        object(vec![("content", text("x"))]),
        object(vec![("role", text("user"))]),
        object(vec![("role", Json::Unsigned(1)), ("content", text("x"))]),
        object(vec![("role", text("user")), ("content", Json::Unsigned(1))]),
        object(vec![("role", text("user")), ("content", Json::Array(vec![]))]),
    ] {
        assert!(IndexableMessage::from_value_at(&value, 0).is_none());
    }
}

#[test]
fn content_text_by_kind() {
    assert_eq!(extract_text(&text("")), Some(String::new()));
    assert_eq!(extract_text(&Json::Null), None);
    let odd = Json::Array(vec![
        object(vec![("type", text("text"))]),
        object(vec![("type", text("text")), ("text", Json::Null)]),
        text("text"),
    ]);
    assert_eq!(extract_text(&odd), None);
}

#[test]
fn roles_are_found_by_name() {
    for role in [IndexedRole::User, IndexedRole::Assistant, IndexedRole::Tool] {
        assert_eq!(IndexedRole::from_role_str(role.as_str()), Some(role));
    }
    assert_eq!(IndexedRole::from_role_str("tool_result"), Some(IndexedRole::Tool));
    assert_eq!(IndexedRole::from_role_str("system"), None);
    assert_eq!(IndexedRole::Tool.as_str(), "tool");
}

// Requests.

#[test]
fn requests_have_defaults() {
    let params = SearchQuery::new("needle");
    assert_eq!(params.query, "needle");
    assert_eq!(params.limit, 20);
    assert_eq!(params.sort, SearchSort::Rank);
    assert!(params.roles.is_empty());
    assert_eq!(params.exclude_session, None);
    assert_eq!(SearchSort::default(), SearchSort::Rank);
    assert_eq!(params.effective_roles(), vec![IndexedRole::User, IndexedRole::Assistant]);
}

fn flat(parts: &[SqlPart]) -> String {
    parts
        .iter()
        .map(|part| match part {
            SqlPart::Text(sql) => sql.clone(),
            SqlPart::BindText(value) => format!("<{value}>"),
            SqlPart::BindInteger(value) => format!("<{value}>"),
        })
        .collect()
}

#[test]
fn search_statement_is_exact() {
    let head = "SELECT m.session_key, m.seq, m.role, m.created_at, m.compacted, snippet(session_messages_fts, 0, '>>>', '<<<', ' … ', 40) AS snip FROM session_messages_fts JOIN session_messages m ON m.id = session_messages_fts.rowid WHERE session_messages_fts MATCH ";
    let mut params = SearchQuery::new("shared topic");
    assert_eq!(
        flat(&search_statement(&params).unwrap()),
        format!("{head}<\"shared\" \"topic\"> AND (m.active = 1 OR m.compacted = 1) AND m.role IN (<user>, <assistant>) ORDER BY rank LIMIT <20>")
    );
    params.roles = vec![IndexedRole::Tool];
    params.exclude_session = Some("current".to_string());
    params.sort = SearchSort::Newest;
    params.limit = 3;
    assert_eq!(
        flat(&search_statement(&params).unwrap()),
        format!("{head}<\"shared\" \"topic\"> AND (m.active = 1 OR m.compacted = 1) AND m.role IN (<tool>) AND m.session_key != <current> ORDER BY m.created_at DESC, rank LIMIT <3>")
    );
    params.sort = SearchSort::Oldest;
    params.exclude_session = None;
    assert!(flat(&search_statement(&params).unwrap())
        .ends_with("IN (<tool>) ORDER BY m.created_at ASC, rank LIMIT <3>"));
    assert!(search_statement(&SearchQuery::new("()")).is_none());
}

#[test]
fn supplied_text_is_never_statement_text() {
    let mut params = SearchQuery::new("'; DROP TABLE x");
    params.exclude_session = Some("'; DROP TABLE x".to_string());
    let parts = search_statement(&params).unwrap();
    for part in &parts {
        if let SqlPart::Text(sql) = part {
            assert!(!sql.contains("DROP"));
        }
    }
    assert_eq!(parts.iter().filter(|part| matches!(part, SqlPart::BindText(_))).count(), 4);
}

// Rows.

#[test]
fn sequence_numbers_follow_the_highest() {
    assert_eq!(next_seq(None), 0);
    assert_eq!(next_seq(Some(0)), 1);
    assert_eq!(next_seq(Some(-5)), -4);
    let rows = appended("s1", &[user_msg("a"), line("system", "x", 1), assistant_msg("b")]);
    let seqs: Vec<i64> = rows.iter().map(|row| row.seq).collect();
    assert_eq!(seqs, vec![0, 1]);
}

#[test]
fn rows_hold_their_message() {
    let message = IndexableMessage {
        role: IndexedRole::Tool,
        content: "out".to_string(),
        tool_name: Some("exec".to_string()),
        created_at: u64::MAX,
    };
    let row = new_row("s1", 4, &message);
    assert_eq!(row.session_key, "s1");
    assert_eq!(row.seq, 4);
    assert_eq!(row.role, "tool");
    assert_eq!(row.content, "out");
    assert_eq!(row.tool_name, Some("exec".to_string()));
    assert_eq!(row.created_at, -1);
    assert!(row.active);
    assert!(!row.compacted);
}

#[test]
fn session_rows_stand_in_sequence() {
    let session = SessionRows::new(vec![
        stored(5, "user", "c"),
        stored(-1, "user", "a"),
        stored(2, "user", "b"),
    ]);
    let seqs: Vec<i64> = session.rows().iter().map(|row| row.seq).collect();
    assert_eq!(seqs, vec![-1, 2, 5]);
}

#[test]
fn replacement_archives_the_old_rows() {
    let mut session =
        SessionRows::new(appended("s1", &[user_msg("original secret plan")]));
    let history = vec![
        assistant_msg("summary of the plan"),
        line("notice", "not indexed", 1),
        user_msg("go on"),
    ];
    session.replace_history("s1", &history, 0);
    let rows = session.rows();
    assert_eq!(rows.len(), 3);
    assert_eq!(rows[0].content, "original secret plan");
    assert!(rows[0].compacted && !rows[0].active);
    assert_eq!((rows[1].seq, rows[1].content.as_str()), (1, "summary of the plan"));
    assert_eq!((rows[2].seq, rows[2].content.as_str()), (2, "go on"));
    assert!(rows[1].active && !rows[1].compacted);
    // Old and new rows are both shown around a match.
    let (messages, _, _) = session.context(0, 5);
    assert_eq!(messages.len(), 3);
}

#[test]
fn replacement_leaves_other_rows_alone() {
    let mut removed = stored(0, "user", "gone");
    removed.active = false;
    let mut session = SessionRows::new(vec![removed]);
    session.replace_history("s1", &vec![], 0);
    assert!(!session.rows()[0].active && !session.rows()[0].compacted);
    let (messages, before, after) = session.context(0, 1);
    assert!(messages.is_empty());
    assert_eq!((before, after), (0, 0));
}

#[test]
fn context_counts_what_lies_outside() {
    let rows: Vec<IndexRow> =
        (0..10).map(|seq| stored(seq, "user", &format!("message {seq}"))).collect();
    let session = SessionRows::new(rows);
    let (messages, before, after) = session.context(4, 2);
    let seqs: Vec<i64> = messages.iter().map(|message| message.seq).collect();
    assert_eq!(seqs, vec![2, 3, 4, 5, 6]);
    assert_eq!((before, after), (2, 3));
    assert!(messages.iter().all(|message| !message.is_match));
    let (all, before, after) = session.context(4, usize::MAX / 2);
    assert_eq!((all.len(), before, after), (10, 0, 0));
    // A window beyond the largest signed number is negative.
    let (none, before, after) = session.context(4, usize::MAX);
    assert_eq!((none.len(), before, after), (0, 5, 6));
}

#[test]
fn context_cuts_long_messages() {
    let mut long = stored(0, "user", &"é".repeat(CONTEXT_CHARS + 1));
    long.created_at = -5;
    let session = SessionRows::new(vec![long]);
    let (messages, _, _) = session.context(0, 0);
    assert_eq!(messages[0].content, format!("{}…", "é".repeat(4000)));
    assert_eq!(messages[0].created_at, 0);
    let (start, _) = session.bookends();
    assert_eq!(start[0].content.chars().count(), BOOKEND_CHARS + 1);
}

#[test]
fn bookends_show_the_conversation_without_overlap() {
    let mut rows: Vec<IndexRow> = (0..4).map(|seq| stored(seq, "user", "x")).collect();
    rows.push(stored(4, "tool", "x"));
    let session = SessionRows::new(rows);
    let (start, end) = session.bookends();
    let seqs = |list: &Vec<moltis::search::rows::ContextMessage>| {
        list.iter().map(|message| message.seq).collect::<Vec<i64>>()
    };
    assert_eq!(BOOKEND_MESSAGES, 3);
    assert_eq!(seqs(&start), vec![0, 1, 2]);
    assert_eq!(seqs(&end), vec![3]);
    let short = SessionRows::new(vec![stored(0, "assistant", "x")]);
    let (start, end) = short.bookends();
    assert_eq!((start.len(), end.len()), (1, 0));
    let long = SessionRows::new((0..9).map(|seq| stored(seq, "user", "x")).collect());
    let (start, end) = long.bookends();
    assert_eq!(seqs(&start), vec![0, 1, 2]);
    assert_eq!(seqs(&end), vec![6, 7, 8]);
}

// Discovery.

#[test]
fn hits_are_read_from_their_columns() {
    let columns = HitRow {
        session_key: "s".to_string(),
        seq: 3,
        role: "user".to_string(),
        snip: ">>>x<<<".to_string(),
        created_at: -1,
        compacted: 2,
    };
    let hit = hit_from_row(columns);
    assert_eq!(hit.session_key, "s");
    assert_eq!(hit.seq, 3);
    assert_eq!(hit.role, "user");
    assert_eq!(hit.snippet, ">>>x<<<");
    assert_eq!(hit.created_at, 0);
    assert!(hit.compacted);
}

#[test]
fn discovery_scans_more_hits() {
    let mut params = SearchQuery::new("needle");
    params.limit = 2;
    params.roles = vec![IndexedRole::Tool];
    params.exclude_session = Some("x".to_string());
    let scan = discovery_scan(&params);
    assert_eq!(DISCOVER_SCAN_LIMIT, 300);
    assert_eq!(scan.limit, 300);
    assert_eq!(scan.query, "needle");
    assert_eq!(scan.roles, vec![IndexedRole::Tool]);
    assert_eq!(scan.exclude_session, Some("x".to_string()));
}

#[test]
fn best_hit_of_each_session_comes_first() {
    let hits = vec![hit("cron:1", 0), hit("a", 5), hit("cron:1", 9), hit("a", 1), hit("b", 2)];
    let order = |prefixes: Vec<String>, limit: usize| -> Vec<(String, i64)> {
        best_hits(&hits, &prefixes, limit)
            .into_iter()
            .map(|hit| (hit.session_key, hit.seq))
            .collect()
    };
    let named = |list: &[(&str, i64)]| -> Vec<(String, i64)> {
        list.iter().map(|(key, seq)| (key.to_string(), *seq)).collect()
    };
    assert_eq!(order(vec![], 10), named(&[("cron:1", 0), ("a", 5), ("b", 2)]));
    let cron = vec!["cron:".to_string()];
    assert_eq!(order(cron.clone(), 10), named(&[("a", 5), ("b", 2), ("cron:1", 0)]));
    assert_eq!(order(cron, 2), named(&[("a", 5), ("b", 2)]));
    assert!(order(vec![], 0).is_empty());
}

#[test]
fn match_is_marked_in_its_context() {
    let rows: Vec<IndexRow> = (0..12).map(|seq| stored(seq, "user", "x")).collect();
    let session = SessionRows::new(rows);
    let found = session_match(hit("s1", 10), &session, 2);
    assert_eq!(found.session_key, "s1");
    let marks: Vec<(i64, bool)> =
        found.context.iter().map(|message| (message.seq, message.is_match)).collect();
    assert_eq!(marks, vec![(8, false), (9, false), (10, true), (11, false)]);
    assert_eq!((found.messages_before, found.messages_after), (8, 0));
    assert_eq!(found.bookend_start[0].seq, 0);
    assert_eq!(found.bookend_end.len(), 3);
}

// Backfill.

fn seqs(rows: &[IndexRow]) -> Vec<i64> {
    rows.iter().map(|row| row.seq).collect()
}

#[test]
fn backfill_adds_what_follows_the_live_rows() {
    let lines = vec![user_msg("a"), line("system", "b", 1), assistant_msg("c")];
    let empty = SessionRows::new(vec![]);
    let all = pending_rows("s1", &lines, &empty, 0);
    // A row is numbered by its line.
    assert_eq!(seqs(&all), vec![0, 2]);
    assert_eq!(all[1].content, "c");
    let behind = SessionRows::new(vec![stored(0, "user", "a")]);
    assert_eq!(seqs(&pending_rows("s1", &lines, &behind, 0)), vec![2]);
    // Where that number is passed already, by the next free one.
    let one = SessionRows::new(vec![stored(7, "user", "a")]);
    let rest = pending_rows("s1", &lines, &one, 0);
    assert_eq!(seqs(&rest), vec![8]);
    assert_eq!(rest[0].content, "c");
    let more = SessionRows::new((0..3).map(|seq| stored(seq, "user", "x")).collect());
    assert!(pending_rows("s1", &lines, &more, 0).is_empty());
    // Archived rows stand for no line.
    let mut archived = stored(4, "user", "old");
    archived.active = false;
    archived.compacted = true;
    let replaced = SessionRows::new(vec![archived]);
    assert_eq!(seqs(&pending_rows("s1", &lines, &replaced, 0)), vec![5, 6]);
}

#[test]
fn nothing_is_pending_after_live_appends() {
    let transcript = |count: usize| -> Vec<Json> {
        let lines = vec![
            line("notice", "x", 1),
            user_msg("hi"),
            line("system", "y", 1),
            assistant_msg("ho"),
        ];
        lines.into_iter().take(count).collect()
    };
    for count in 0..=4 {
        let lines = transcript(count);
        let session = SessionRows::new(appended("s1", &lines));
        assert!(pending_rows("s1", &lines, &session, 0).is_empty());
    }
}

#[test]
fn nothing_is_pending_after_a_replacement() {
    let mut session = SessionRows::new(appended("s1", &[user_msg("a"), user_msg("b")]));
    let mut history = vec![assistant_msg("summary"), line("notice", "x", 1)];
    session.replace_history("s1", &history, 0);
    assert!(pending_rows("s1", &history, &session, 0).is_empty());
    history.push(user_msg("next"));
    let pending = pending_rows("s1", &history, &session, 0);
    assert_eq!(seqs(&pending), vec![3]);
    assert_eq!(pending[0].content, "next");
}

#[test]
fn interrupted_backfill_resumes_behind_its_last_row() {
    let lines = vec![user_msg("a"), line("system", "b", 1), assistant_msg("c"), user_msg("d")];
    let pending = pending_rows("s1", &lines, &SessionRows::new(vec![]), 0);
    assert_eq!(seqs(&pending), vec![0, 2, 3]);
    let stopped = SessionRows::new(pending.iter().take(2).map(|row| row.duplicate()).collect());
    let resumed = pending_rows("s1", &lines, &stopped, 0);
    assert_eq!(seqs(&resumed), vec![3]);
    assert_eq!(resumed[0].content, "d");
    assert!(pending_rows("s1", &lines, &SessionRows::new(pending), 0).is_empty());
}

#[test]
fn backfill_is_split_into_chunks() {
    assert_eq!(BACKFILL_CHUNK, 500);
    assert!(chunks(&vec![]).is_empty());
    let rows: Vec<IndexRow> = (0..1001).map(|seq| stored(seq, "user", "x")).collect();
    let parts = chunks(&rows);
    let sizes: Vec<usize> = parts.iter().map(|part| part.len()).collect();
    assert_eq!(sizes, vec![500, 500, 1]);
    assert_eq!(parts[1][0].seq, 500);
    assert_eq!(parts[2][0].seq, 1000);
}

#[test]
fn totals_leave_out_failed_sessions() {
    assert_eq!(total_indexed(&vec![Some(2), None, Some(5)]), 7);
    assert_eq!(total_indexed(&vec![]), 0);
}
