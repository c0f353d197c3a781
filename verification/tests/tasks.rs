use moltis::clock::{parse_stored, store, Timestamp};
use moltis::tasks::error::Error;
use moltis::tasks::routes::{
    failure_status, ListQuery, RouteFailure, TaskRoute, STATUS_INTERNAL_SERVER_ERROR,
    STATUS_NOT_FOUND,
};
use moltis::tasks::service::{
    add_response, add_response_at, create, create_at, list, require_row, responses_from_rows,
    responses_from_rows_at, task_from_row, task_from_row_at, update, update_at, ResponseRow,
    TaskChanges, TaskRow,
};
use moltis::tasks::types::{
    AddResponseRequest, CreateTaskRequest, Task, TaskResponse, TaskStatus, UpdateTaskRequest,
};

fn at(secs: i64) -> Timestamp {
    Timestamp { secs, nanos: 0 }
}

fn request(title: &str) -> CreateTaskRequest {
    CreateTaskRequest { title: title.to_string(), description: None, priority: None }
}

fn nothing() -> UpdateTaskRequest {
    UpdateTaskRequest {
        title: None,
        description: None,
        status: None,
        assigned_to: None,
        priority: None,
    }
}

fn row(id: &str, status: &str, priority: i32, created: &str) -> TaskRow {
    TaskRow {
        id: id.to_string(),
        title: format!("title {id}"),
        description: Some("about".to_string()),
        status: status.to_string(),
        assigned_to: None,
        priority,
        created_at: created.to_string(),
        updated_at: created.to_string(),
        completed_at: None,
    }
}

fn write(row: TaskRow, changes: TaskChanges) -> TaskRow {
    TaskRow {
        id: row.id,
        title: changes.title,
        description: changes.description,
        status: changes.status,
        assigned_to: changes.assigned_to,
        priority: changes.priority,
        created_at: row.created_at,
        updated_at: changes.updated_at,
        completed_at: changes.completed_at,
    }
}

fn copy(row: &TaskRow) -> TaskRow {
    TaskRow {
        id: row.id.clone(),
        title: row.title.clone(),
        description: row.description.clone(),
        status: row.status.clone(),
        assigned_to: row.assigned_to.clone(),
        priority: row.priority,
        created_at: row.created_at.clone(),
        updated_at: row.updated_at.clone(),
        completed_at: row.completed_at.clone(),
    }
}

#[test]
fn create_and_get_task() {
    let new = create(request("Test task"), "t1".to_string());
    assert_eq!(new.task.title, "Test task");
    let found = require_row(Ok(Some(new.row))).unwrap();
    let fetched = task_from_row(found, vec![]);
    assert_eq!(fetched.id, new.task.id);
    assert_eq!(fetched.title, "Test task");
    assert_eq!(fetched.status, TaskStatus::Open);
    assert_eq!(fetched.created_at, new.task.created_at);
    assert_eq!(fetched.updated_at, new.task.created_at);
}

#[test]
fn created_row_reads_back() {
    let now = Timestamp { secs: 1_700_000_000, nanos: 123_456_789 };
    let asked = CreateTaskRequest {
        title: "t".to_string(),
        description: Some("d".to_string()),
        priority: Some(-3),
    };
    let new = create_at(asked, "id".to_string(), now);
    assert_eq!(new.task.priority, -3);
    assert_eq!(new.row.priority, -3);
    assert_eq!(new.row.status, "open");
    assert_eq!(new.row.created_at, "2023-11-14T22:13:20.123456789+00:00");
    assert_eq!(new.row.updated_at, new.row.created_at);
    assert_eq!(new.row.assigned_to, None);
    assert_eq!(new.row.completed_at, None);
    let read = task_from_row_at(new.row, vec![], at(5));
    assert_eq!(read.id, "id");
    assert_eq!(read.description, Some("d".to_string()));
    assert_eq!(read.priority, -3);
    assert_eq!(read.created_at, now);
    assert_eq!(read.updated_at, now);
    assert_eq!(read.completed_at, None);
    assert!(read.responses.is_empty());
    let default = create_at(request("t"), "id".to_string(), now);
    assert_eq!(default.task.priority, 0);
    assert_eq!(default.row.priority, 0);
}

#[test]
fn unreadable_columns_have_fallbacks() {
    let mut stored = row("a", "archived", 1, "not a time");
    stored.completed_at = Some("never".to_string());
    let read = task_from_row_at(stored, vec![], at(77));
    assert_eq!(read.status, TaskStatus::Open);
    assert_eq!(read.created_at, at(77));
    assert_eq!(read.updated_at, at(77));
    assert_eq!(read.completed_at, None);
}

#[test]
fn lookups_fail_in_two_ways() {
    assert!(matches!(require_row(Ok(None)), Err(Error::NotFound)));
    match require_row(Err("locked".to_string())) {
        Err(Error::Database(reason)) => assert_eq!(reason, "locked"),
        other => panic!("{other:?}"),
    }
    assert_eq!(require_row(Ok(Some(row("a", "open", 0, "")))).unwrap().id, "a");
}

#[test]
fn errors_have_messages() {
    assert_eq!(Error::NotFound.message(), "Task not found");
    assert_eq!(Error::Database("x".to_string()).message(), "Database error: x");
    assert_eq!(Error::InvalidStatus("x".to_string()).message(), "Invalid status: x");
    assert_eq!(Error::InvalidRequest("x".to_string()).message(), "Invalid request: x");
}

#[test]
fn statuses_are_found_by_name() {
    for (status, name) in [
        (TaskStatus::Open, "open"),
        (TaskStatus::Assigned, "assigned"),
        (TaskStatus::InProgress, "in_progress"),
        (TaskStatus::Completed, "completed"),
        (TaskStatus::Closed, "closed"),
    ] {
        assert_eq!(status.as_str(), name);
        assert_eq!(TaskStatus::from_str(name), Some(status));
    }
    assert_eq!(TaskStatus::from_str("Open"), None);
    assert_eq!(TaskStatus::from_str(""), None);
}

#[test]
fn task_moves_over_the_board() {
    let new = create_at(request("work"), "t".to_string(), at(100));
    let mut stored = new.row;
    let steps = [
        (Some(TaskStatus::Assigned), Some("agent-name"), 200),
        (Some(TaskStatus::InProgress), None, 300),
        (Some(TaskStatus::Completed), None, 400),
    ];
    for (status, agent, time) in steps {
        let current = task_from_row_at(copy(&stored), vec![], at(time));
        let asked = UpdateTaskRequest {
            status,
            assigned_to: agent.map(|agent| agent.to_string()),
            ..nothing()
        };
        let changes = update_at(&current, asked, at(time));
        stored = write(stored, changes);
        let read = task_from_row_at(copy(&stored), vec![], at(9999));
        assert_eq!(Some(read.status), status);
        assert_eq!(read.assigned_to, Some("agent-name".to_string()));
        assert_eq!(read.title, "work");
        assert_eq!(read.created_at, at(100));
        assert_eq!(read.updated_at, at(time));
        let completed = if status == Some(TaskStatus::Completed) { Some(at(400)) } else { None };
        assert_eq!(read.completed_at, completed);
    }
    // Reopening keeps the time of completion.
    let current = task_from_row_at(copy(&stored), vec![], at(500));
    let reopen = UpdateTaskRequest { status: Some(TaskStatus::Open), ..nothing() };
    let changes = update_at(&current, reopen, at(500));
    assert_eq!(changes.status, "open");
    assert_eq!(changes.completed_at, Some(store(at(400))));
}

#[test]
fn given_columns_are_taken_over() {
    let current = task_from_row_at(row("a", "open", 4, &store(at(1))), vec![], at(1));
    let asked = UpdateTaskRequest {
        title: Some("new".to_string()),
        description: Some("text".to_string()),
        status: Some(TaskStatus::Closed),
        assigned_to: Some("x".to_string()),
        priority: Some(-1),
    };
    let changes = update_at(&current, asked, at(2));
    assert_eq!(changes.title, "new");
    assert_eq!(changes.description, Some("text".to_string()));
    assert_eq!(changes.status, "closed");
    assert_eq!(changes.assigned_to, Some("x".to_string()));
    assert_eq!(changes.priority, -1);
    assert_eq!(changes.updated_at, "1970-01-01T00:00:02+00:00");
    assert_eq!(changes.completed_at, None);
}

#[test]
fn empty_update_sets_only_the_times() {
    let current = task_from_row_at(row("a", "assigned", 4, &store(at(1))), vec![], at(1));
    let changes = update_at(&current, nothing(), at(2));
    assert_eq!(changes.title, "title a");
    assert_eq!(changes.description, Some("about".to_string()));
    assert_eq!(changes.status, "assigned");
    assert_eq!(changes.priority, 4);
    assert_eq!(changes.updated_at, store(at(2)));
    assert_eq!(changes.completed_at, None);
    // A completed task is stamped anew.
    let done = task_from_row_at(row("a", "completed", 4, &store(at(1))), vec![], at(1));
    assert_eq!(update_at(&done, nothing(), at(3)).completed_at, Some(store(at(3))));
}

#[test]
fn update_uses_the_clock() {
    let current = task_from_row_at(row("a", "open", 0, &store(at(1))), vec![], at(1));
    let changes = update(&current, nothing());
    assert!(parse_stored(&changes.updated_at).unwrap().secs > 1_600_000_000);
}

#[test]
fn posted_response_reads_back() {
    let asked = AddResponseRequest { agent_name: "a".to_string(), content: "c".to_string() };
    let new = add_response_at("task", asked.clone(), "r".to_string(), at(60));
    assert_eq!(new.response.task_id, "task");
    assert_eq!(new.row.created_at, "1970-01-01T00:01:00+00:00");
    let read = responses_from_rows_at(&vec![new.row], at(9));
    assert_eq!(read.len(), 1);
    assert_eq!(read[0].id, "r");
    assert_eq!(read[0].task_id, "task");
    assert_eq!(read[0].agent_name, "a");
    assert_eq!(read[0].content, "c");
    assert_eq!(read[0].created_at, at(60));

    let now = add_response("task", asked, "r".to_string());
    assert_eq!(parse_stored(&now.row.created_at), Some(now.response.created_at));
}

#[test]
fn responses_are_shown_oldest_first() {
    let stored = |id: &str, created: &str| ResponseRow {
        id: id.to_string(),
        task_id: "t".to_string(),
        agent_name: "a".to_string(),
        content: "c".to_string(),
        created_at: created.to_string(),
    };
    let rows = vec![
        stored("late", &store(at(30))),
        stored("early", &store(at(10))),
        stored("unreadable", "z"),
        stored("middle", &store(at(20))),
    ];
    let read = responses_from_rows_at(&rows, at(5));
    let ids: Vec<&str> = read.iter().map(|response| response.id.as_str()).collect();
    assert_eq!(ids, vec!["early", "middle", "late", "unreadable"]);
    assert_eq!(read[3].created_at, at(5));
    assert_eq!(responses_from_rows(&rows).len(), 4);
}

#[test]
fn task_keeps_its_responses() {
    let response = TaskResponse::new(
        "r".to_string(),
        "a".to_string(),
        "agent".to_string(),
        "done".to_string(),
        at(3),
    );
    let read = task_from_row_at(row("a", "open", 0, &store(at(1))), vec![response], at(1));
    assert_eq!(read.responses.len(), 1);
    assert_eq!(read.responses[0].content, "done");
    let fresh = Task::new("b".to_string(), "t".to_string(), None, at(4));
    assert_eq!(fresh.status, TaskStatus::Open);
    assert_eq!(fresh.updated_at, at(4));
    assert!(fresh.responses.is_empty());
}

#[test]
fn board_lists_most_urgent_first() {
    let rows = vec![
        row("low", "open", 5, &store(at(50))),
        row("old", "open", 0, &store(at(10))),
        row("new", "assigned", 0, &store(at(20))),
        row("urgent", "open", -2, &store(at(1))),
        row("strange", "other", 0, &store(at(15))),
    ];
    let ids = |status: Option<TaskStatus>| -> Vec<String> {
        list(&rows, status).into_iter().map(|row| row.id).collect()
    };
    assert_eq!(ids(None), vec!["urgent", "new", "strange", "old", "low"]);
    // A filter goes by the stored name.
    assert_eq!(ids(Some(TaskStatus::Open)), vec!["urgent", "old", "low"]);
    assert_eq!(ids(Some(TaskStatus::Assigned)), vec!["new"]);
    assert!(ids(Some(TaskStatus::Closed)).is_empty());
}

#[test]
fn list_query_names_a_status() {
    let filter = |status: Option<&str>| {
        ListQuery { status: status.map(|status| status.to_string()) }.status_filter()
    };
    assert_eq!(filter(Some("in_progress")), Some(TaskStatus::InProgress));
    assert_eq!(filter(Some("unknown")), None);
    assert_eq!(filter(None), None);
}

#[test]
fn failures_have_status_codes() {
    assert_eq!(STATUS_NOT_FOUND, 404);
    assert_eq!(STATUS_INTERNAL_SERVER_ERROR, 500);
    for route in [
        TaskRoute::Create,
        TaskRoute::List,
        TaskRoute::Get,
        TaskRoute::Update,
        TaskRoute::AddResponse,
    ] {
        assert_eq!(failure_status(route, RouteFailure::Service), 500);
    }
    assert_eq!(failure_status(TaskRoute::Create, RouteFailure::Operation), 500);
    assert_eq!(failure_status(TaskRoute::List, RouteFailure::Operation), 500);
    assert_eq!(failure_status(TaskRoute::Get, RouteFailure::Operation), 404);
    assert_eq!(failure_status(TaskRoute::Update, RouteFailure::Operation), 404);
    assert_eq!(failure_status(TaskRoute::AddResponse, RouteFailure::Operation), 404);
}
