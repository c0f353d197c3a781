//! What holds of the task board as a whole.

use vstd::prelude::*;

use crate::clock;
use crate::clock::Timestamp;
use crate::ordering;
use crate::ordering::TextOrder;
use crate::tasks::service;
use crate::tasks::service::{NewResponse, NewTask, ResponseRowView, TaskChangesView, TaskRowView};
use crate::tasks::types;
use crate::tasks::types::{
    AddResponseRequest, CreateTaskRequest, TaskResponseView, TaskStatus, TaskView,
    UpdateTaskRequest,
};

verus! {

/// An update never changes a task's id, its creation time or its responses,
/// and always sets its update time.
pub proof fn creation_time_is_immutable(task: TaskView, request: UpdateTaskRequest, now: Timestamp)
    ensures
        service::updated(task, request, now).id == task.id,
        service::updated(task, request, now).created_at == task.created_at,
        service::updated(task, request, now).responses == task.responses,
        service::updated(task, request, now).updated_at == now,
{
}

/// A row keeps its id and its creation time whatever is written to it by an
/// update.
pub proof fn update_leaves_identity_columns(row: TaskRowView, changes: TaskChangesView)
    ensures
        service::changed_row(row, changes).id == row.id,
        service::changed_row(row, changes).created_at == row.created_at,
{
}

/// After an update a task is completed at the time of the update exactly if it
/// stands as completed; otherwise its completion time is what it was.
pub proof fn completion_is_stamped(task: TaskView, request: UpdateTaskRequest, now: Timestamp)
    ensures
        service::updated(task, request, now).status == TaskStatus::Completed
            ==> service::updated(task, request, now).completed_at == Some(now),
        service::updated(task, request, now).status != TaskStatus::Completed
            ==> service::updated(task, request, now).completed_at == task.completed_at,
{
}

/// A request that gives nothing leaves everything but the update time as it
/// was; a completed task is stamped anew.
pub proof fn empty_update_changes_only_times(
    task: TaskView,
    request: UpdateTaskRequest,
    now: Timestamp,
)
    requires
        request.title is None,
        request.description is None,
        request.status is None,
        request.assigned_to is None,
        request.priority is None,
    ensures
        service::updated(task, request, now) == (TaskView {
            updated_at: now,
            completed_at: if task.status == TaskStatus::Completed {
                Some(now)
            } else {
                task.completed_at
            },
            ..task
        }),
{
}

/// Making the same update again changes nothing but the times.
pub proof fn repeated_update_changes_only_times(
    task: TaskView,
    request: UpdateTaskRequest,
    first: Timestamp,
    second: Timestamp,
)
    ensures
        service::updated(service::updated(task, request, first), request, second)
            == service::updated(task, request, second),
{
}

/// The board lists the most urgent tasks, those with the lowest numbers, first,
/// and the newest first among equally urgent ones.
pub proof fn list_is_most_urgent_first(
    listed: Seq<TaskRowView>,
    rows: Seq<TaskRowView>,
    status: Option<TaskStatus>,
    i: int,
    j: int,
)
    requires
        service::is_list(listed, rows, status),
        0 <= i < j < listed.len(),
    ensures
        listed[i].priority <= listed[j].priority,
        listed[i].priority == listed[j].priority ==> !ordering::text_before(
            listed[i].created_at,
            listed[j].created_at,
        ),
{
    let chosen = service::chosen(rows, status);
    let keys = service::board_keys(chosen);
    let order = choose|order: Seq<usize>|
        #![trigger ordering::arranged(chosen, order)]
        {
            &&& ordering::is_order(keys, TextOrder::Descending, order)
            &&& listed == ordering::arranged(chosen, order)
        };
    let (a, b) = (order[i] as int, order[j] as int);
    assert(ordering::position_before(keys, a, b, TextOrder::Descending));
    ordering::text_order_is_total(keys[a].text, keys[b].text, keys[a].text);
}

/// Among equally urgent tasks the board lists the newest first: of two rows
/// that keep their creation times, the one that is listed first was not created
/// earlier.
pub proof fn list_is_newest_first(
    listed: Seq<TaskRowView>,
    rows: Seq<TaskRowView>,
    status: Option<TaskStatus>,
    responses: Seq<TaskResponseView>,
    now: Timestamp,
    i: int,
    j: int,
)
    requires
        service::is_list(listed, rows, status),
        0 <= i < j < listed.len(),
        listed[i].priority == listed[j].priority,
        clock::is_kept(listed[i].created_at),
        clock::is_kept(listed[j].created_at),
    ensures
        !clock::earlier(
            service::task_of(listed[i], responses, now).created_at,
            service::task_of(listed[j], responses, now).created_at,
        ),
{
    list_is_most_urgent_first(listed, rows, status, i, j);
    let second = clock::instant_of(listed[j].created_at)->0;
    assert(listed[j].created_at == clock::stored_text(second));
}

/// The board lists every row with the status asked for, and no other.
pub proof fn list_holds_exactly_the_chosen(
    listed: Seq<TaskRowView>,
    rows: Seq<TaskRowView>,
    status: Option<TaskStatus>,
    row: TaskRowView,
)
    requires
        service::is_list(listed, rows, status),
    ensures
        listed.contains(row) <==> rows.contains(row) && service::has_status(row, status),
        listed.len() == service::chosen(rows, status).len(),
{
    let chosen = service::chosen(rows, status);
    let keys = service::board_keys(chosen);
    let order = choose|order: Seq<usize>|
        #![trigger ordering::arranged(chosen, order)]
        {
            &&& ordering::is_order(keys, TextOrder::Descending, order)
            &&& listed == ordering::arranged(chosen, order)
        };
    let wanted = service::status_test(status);
    if rows.contains(row) && service::has_status(row, status) {
        let from = choose|from: int| 0 <= from < rows.len() && rows[from] == row;
        rows.lemma_filter_contains(wanted, from);
        let at = choose|at: int| 0 <= at < chosen.len() && chosen[at] == row;
        ordering::order_covers(keys, TextOrder::Descending, order, at);
        let i = choose|i: int| 0 <= i < order.len() && #[trigger] order[i] == at;
        assert(listed[i] == row);
    }
    if listed.contains(row) {
        let i = choose|i: int| 0 <= i < listed.len() && listed[i] == row;
        assert(order[i] < keys.len());
        rows.lemma_filter_pred(wanted, order[i] as int);
        rows.lemma_filter_contains_rev(wanted, row);
    }
}

/// Responses are shown oldest first: of two, the one shown first was not
/// stored under a later time.
pub proof fn responses_are_oldest_first(
    responses: Seq<TaskResponseView>,
    rows: Seq<ResponseRowView>,
    now: Timestamp,
    i: int,
    j: int,
)
    requires
        service::are_responses(responses, rows, now),
        0 <= i < j < responses.len(),
    ensures
        exists|a: int, b: int|
            #![trigger rows[a], rows[b]]
            {
                &&& 0 <= a < rows.len()
                &&& 0 <= b < rows.len()
                &&& a != b
                &&& responses[i] == service::response_of(rows[a], now)
                &&& responses[j] == service::response_of(rows[b], now)
                &&& !ordering::text_before(rows[b].created_at, rows[a].created_at)
            },
{
    let keys = service::response_keys(rows);
    let order = choose|order: Seq<usize>|
        #![trigger ordering::arranged(rows, order)]
        {
            &&& ordering::is_order(keys, TextOrder::Ascending, order)
            &&& responses == service::responses_of(ordering::arranged(rows, order), now)
        };
    let (a, b) = (order[i] as int, order[j] as int);
    assert(ordering::position_before(keys, a, b, TextOrder::Ascending));
    ordering::key_order_is_total(keys[a], keys[b], keys[a], TextOrder::Ascending);
    ordering::text_order_is_total(keys[a].text, keys[b].text, keys[a].text);
    assert(responses[i] == service::response_of(rows[a], now));
    assert(responses[j] == service::response_of(rows[b], now));
    assert(keys[a].text == rows[a].created_at && keys[b].text == rows[b].created_at);
}

/// Responses are shown in the order in which they were posted, as long as their
/// rows keep their times: none was posted earlier than one shown before it.
pub proof fn responses_are_shown_as_posted(
    responses: Seq<TaskResponseView>,
    rows: Seq<ResponseRowView>,
    now: Timestamp,
    i: int,
    j: int,
)
    requires
        service::are_responses(responses, rows, now),
        forall|k: int| 0 <= k < rows.len() ==> clock::is_kept((#[trigger] rows[k]).created_at),
        0 <= i < j < responses.len(),
    ensures
        !clock::earlier(responses[j].created_at, responses[i].created_at),
{
    responses_are_oldest_first(responses, rows, now, i, j);
    let (a, b) = choose|a: int, b: int|
        #![trigger rows[a], rows[b]]
        {
            &&& 0 <= a < rows.len()
            &&& 0 <= b < rows.len()
            &&& a != b
            &&& responses[i] == service::response_of(rows[a], now)
            &&& responses[j] == service::response_of(rows[b], now)
            &&& !ordering::text_before(rows[b].created_at, rows[a].created_at)
        };
    let first = clock::instant_of(rows[a].created_at)->0;
    assert(clock::is_kept(rows[a].created_at) && clock::is_kept(rows[b].created_at));
    assert(rows[a].created_at == clock::stored_text(first));
}

/// Every stored response of a task is shown, and no other.
pub proof fn every_response_is_shown(
    responses: Seq<TaskResponseView>,
    rows: Seq<ResponseRowView>,
    now: Timestamp,
    at: int,
)
    requires
        service::are_responses(responses, rows, now),
        0 <= at < rows.len(),
    ensures
        responses.len() == rows.len(),
        responses.contains(service::response_of(rows[at], now)),
{
    let keys = service::response_keys(rows);
    let order = choose|order: Seq<usize>|
        #![trigger ordering::arranged(rows, order)]
        {
            &&& ordering::is_order(keys, TextOrder::Ascending, order)
            &&& responses == service::responses_of(ordering::arranged(rows, order), now)
        };
    ordering::order_covers(keys, TextOrder::Ascending, order, at);
    let i = choose|i: int| 0 <= i < order.len() && #[trigger] order[i] == at;
    assert(responses[i] == service::response_of(rows[at], now));
}

/// After an update every column that the request gives has the given value,
/// whatever it was before, and every column that it leaves out keeps its own.
pub proof fn update_takes_what_is_given(task: TaskView, request: UpdateTaskRequest, now: Timestamp)
    ensures
        ({
            let after = service::updated(task, request, now);
            &&& request.title matches Some(title) ==> after.title == title@
            &&& request.title is None ==> after.title == task.title
            &&& request.description matches Some(description) ==> after.description == Some(
                description@,
            )
            &&& request.description is None ==> after.description == task.description
            &&& request.status matches Some(status) ==> after.status == status
            &&& request.status is None ==> after.status == task.status
            &&& request.assigned_to matches Some(agent) ==> after.assigned_to == Some(agent@)
            &&& request.assigned_to is None ==> after.assigned_to == task.assigned_to
            &&& request.priority matches Some(priority) ==> after.priority == priority
            &&& request.priority is None ==> after.priority == task.priority
        }),
{
}

/// An update writes what the request gives and what the task keeps, each to its
/// own column, with the times as text.
pub proof fn update_writes_each_column(
    changes: TaskChangesView,
    task: TaskView,
    request: UpdateTaskRequest,
    now: Timestamp,
)
    requires
        service::are_changes(changes, task, request, now),
    ensures
        changes.title == match request.title {
            Some(title) => title@,
            None => task.title,
        },
        request.description matches Some(description) ==> changes.description == Some(description@),
        request.description is None ==> changes.description == task.description,
        changes.status == match request.status {
            Some(status) => status.name(),
            None => task.status.name(),
        },
        request.assigned_to matches Some(agent) ==> changes.assigned_to == Some(agent@),
        request.assigned_to is None ==> changes.assigned_to == task.assigned_to,
        changes.priority == match request.priority {
            Some(priority) => priority,
            None => task.priority,
        },
        changes.updated_at == clock::stored_text(now),
        request.status == Some(TaskStatus::Completed) || (request.status is None && task.status
            == TaskStatus::Completed) ==> changes.completed_at == Some(clock::stored_text(now)),
        !(request.status == Some(TaskStatus::Completed) || (request.status is None && task.status
            == TaskStatus::Completed)) ==> changes.completed_at == match task.completed_at {
            Some(instant) => Some(clock::stored_text(instant)),
            None => None,
        },
{
}

/// What is written to a row is what the row then holds.
pub proof fn changed_row_holds_the_changes(row: TaskRowView, changes: TaskChangesView)
    ensures
        ({
            let after = service::changed_row(row, changes);
            &&& after.title == changes.title
            &&& after.description == changes.description
            &&& after.status == changes.status
            &&& after.assigned_to == changes.assigned_to
            &&& after.priority == changes.priority
            &&& after.updated_at == changes.updated_at
            &&& after.completed_at == changes.completed_at
        }),
{
}

/// What is written by an update is read back as given: after it the row reads
/// as the task with every given column taken over.
pub proof fn update_is_read_back(
    row: TaskRowView,
    changes: TaskChangesView,
    task: TaskView,
    request: UpdateTaskRequest,
    now: Timestamp,
    later: Timestamp,
)
    requires
        service::are_changes(changes, task, request, now),
    ensures
        ({
            let read = service::task_of(
                service::changed_row(row, changes),
                task.responses,
                later,
            );
            &&& request.title matches Some(title) ==> read.title == title@
            &&& request.title is None ==> read.title == task.title
            &&& request.description matches Some(description) ==> read.description == Some(
                description@,
            )
            &&& request.description is None ==> read.description == task.description
            &&& request.status matches Some(status) ==> read.status == status
            &&& request.status is None ==> read.status == task.status
            &&& request.assigned_to matches Some(agent) ==> read.assigned_to == Some(agent@)
            &&& request.assigned_to is None ==> read.assigned_to == task.assigned_to
            &&& request.priority matches Some(priority) ==> read.priority == priority
            &&& request.priority is None ==> read.priority == task.priority
            &&& read.responses == task.responses
        }),
{
    types::status_is_found_by_its_name(service::updated(task, request, now).status);
}

/// A created task is as it was asked for: open, unassigned, without responses,
/// with the title, the description and the priority of the request, zero where
/// it gives none. Its row holds the same.
pub proof fn created_task_is_as_asked_for(
    new: NewTask,
    id: Seq<char>,
    request: CreateTaskRequest,
    now: Timestamp,
)
    requires
        service::is_created(new, id, request, now),
    ensures
        ({
            let (task, row) = (new.task@, new.row@);
            &&& task.id == id && row.id == id
            &&& task.title == request.title@ && row.title == request.title@
            &&& request.description matches Some(description) ==> task.description == Some(
                description@,
            ) && row.description == Some(description@)
            &&& request.description is None ==> task.description is None && row.description is None
            &&& task.status == TaskStatus::Open && row.status == TaskStatus::Open.name()
            &&& task.assigned_to is None && row.assigned_to is None
            &&& request.priority matches Some(priority) ==> task.priority == priority
                && row.priority == priority
            &&& request.priority is None ==> task.priority == 0 && row.priority == 0
            &&& task.created_at == now && row.created_at == clock::stored_text(now)
            &&& task.updated_at == now && row.updated_at == clock::stored_text(now)
            &&& task.completed_at is None && row.completed_at is None
            &&& task.responses.len() == 0
        }),
{
}

/// A posted response is as it was asked for, and its row holds the same.
pub proof fn posted_response_is_as_asked_for(
    new: NewResponse,
    task_id: Seq<char>,
    request: AddResponseRequest,
    id: Seq<char>,
    now: Timestamp,
)
    requires
        service::is_posted(new, task_id, request, id, now),
    ensures
        ({
            let (response, row) = (new.response@, new.row@);
            &&& response.id == id && row.id == id
            &&& response.task_id == task_id && row.task_id == task_id
            &&& response.agent_name == request.agent_name@ && row.agent_name
                == request.agent_name@
            &&& response.content == request.content@ && row.content == request.content@
            &&& response.created_at == now && row.created_at == clock::stored_text(now)
        }),
{
}

/// A task is read from its row column by column. A status that is none of the
/// board's counts as open; a time that is none counts as the present, and as
/// not completed where it is that of the completion.
pub proof fn task_is_read_column_by_column(
    row: TaskRowView,
    responses: Seq<TaskResponseView>,
    now: Timestamp,
    status: TaskStatus,
)
    ensures
        ({
            let task = service::task_of(row, responses, now);
            &&& task.id == row.id
            &&& task.title == row.title
            &&& task.description == row.description
            &&& row.status == status.name() ==> task.status == status
            &&& (forall|known: TaskStatus| row.status != #[trigger] known.name()) ==> task.status
                == TaskStatus::Open
            &&& task.assigned_to == row.assigned_to
            &&& task.priority == row.priority
            &&& task.created_at == match clock::instant_of(row.created_at) {
                Some(instant) => instant,
                None => now,
            }
            &&& task.updated_at == match clock::instant_of(row.updated_at) {
                Some(instant) => instant,
                None => now,
            }
            &&& row.completed_at is None ==> task.completed_at is None
            &&& row.completed_at matches Some(text) ==> task.completed_at == clock::instant_of(text)
            &&& task.responses == responses
        }),
{
    types::status_is_found_by_its_name(status);
    assert(TaskStatus::Open.name() == "open"@);
    assert(TaskStatus::Assigned.name() == "assigned"@);
    assert(TaskStatus::InProgress.name() == "in_progress"@);
    assert(TaskStatus::Completed.name() == "completed"@);
    assert(TaskStatus::Closed.name() == "closed"@);
}

/// A response is read from its row column by column; a time that is none counts
/// as the present.
pub proof fn response_is_read_column_by_column(row: ResponseRowView, now: Timestamp)
    ensures
        ({
            let response = service::response_of(row, now);
            &&& response.id == row.id
            &&& response.task_id == row.task_id
            &&& response.agent_name == row.agent_name
            &&& response.content == row.content
            &&& response.created_at == match clock::instant_of(row.created_at) {
                Some(instant) => instant,
                None => now,
            }
        }),
{
}

/// The board lists a row exactly where it is stored with the status asked for,
/// or where none is asked for, and as many rows as there are such.
pub proof fn list_goes_by_the_stored_status(
    listed: Seq<TaskRowView>,
    rows: Seq<TaskRowView>,
    status: Option<TaskStatus>,
    row: TaskRowView,
)
    requires
        service::is_list(listed, rows, status),
    ensures
        status is None ==> (listed.contains(row) <==> rows.contains(row)),
        status is None ==> listed.len() == rows.len(),
        status matches Some(wanted) ==> (listed.contains(row) <==> rows.contains(row) && row.status
            == wanted.name()),
        status matches Some(wanted) ==> listed.len() == rows.filter(
            |row: TaskRowView| row.status == wanted.name(),
        ).len(),
{
    list_holds_exactly_the_chosen(listed, rows, status, row);
    match status {
        Some(wanted) => {
            assert(service::status_test(status) =~= |row: TaskRowView| row.status == wanted.name());
        },
        None => {
            lemma_all_chosen(rows);
        },
    }
}

proof fn lemma_all_chosen(rows: Seq<TaskRowView>)
    ensures
        service::chosen(rows, None).len() == rows.len(),
    decreases rows.len(),
{
    reveal(Seq::filter);
    if rows.len() > 0 {
        lemma_all_chosen(rows.drop_last());
    }
}

} // verus!
