//! Task board operations, from and to stored rows.
//!
//! Times are stored as RFC 3339 text. A row whose text stands for no instant
//! is read with the time of reading in its place.

use vstd::prelude::*;

use crate::clock;
use crate::clock::Timestamp;
use crate::ordering;
use crate::ordering::{OrderKey, OrderKeyView, TextOrder};
use crate::tasks::error::Error;
use crate::tasks::types;
use crate::tasks::types::{
    AddResponseRequest, CreateTaskRequest, Task, TaskResponse, TaskResponseView, TaskStatus, TaskView,
    UpdateTaskRequest,
};
use crate::text;

verus! {

/// A stored task.
#[derive(Debug)]
pub struct TaskRow {
    pub id: String,
    pub title: String,
    pub description: Option<String>,
    pub status: String,
    pub assigned_to: Option<String>,
    pub priority: i32,
    pub created_at: String,
    pub updated_at: String,
    pub completed_at: Option<String>,
}

/// The view of a [`TaskRow`].
#[verifier::ext_equal]
pub struct TaskRowView {
    pub id: Seq<char>,
    pub title: Seq<char>,
    pub description: Option<Seq<char>>,
    pub status: Seq<char>,
    pub assigned_to: Option<Seq<char>>,
    pub priority: i32,
    pub created_at: Seq<char>,
    pub updated_at: Seq<char>,
    pub completed_at: Option<Seq<char>>,
}

impl View for TaskRow {
    type V = TaskRowView;

    open spec fn view(&self) -> TaskRowView {
        TaskRowView {
            id: self.id@,
            title: self.title@,
            description: text::view_of(self.description),
            status: self.status@,
            assigned_to: text::view_of(self.assigned_to),
            priority: self.priority,
            created_at: self.created_at@,
            updated_at: self.updated_at@,
            completed_at: text::view_of(self.completed_at),
        }
    }
}

/// The views of a list of stored tasks.
pub open spec fn task_row_views(rows: Seq<TaskRow>) -> Seq<TaskRowView> {
    rows.map_values(|row: TaskRow| row@)
}

/// A stored response.
#[derive(Debug)]
pub struct ResponseRow {
    pub id: String,
    pub task_id: String,
    pub agent_name: String,
    pub content: String,
    pub created_at: String,
}

/// The view of a [`ResponseRow`].
pub struct ResponseRowView {
    pub id: Seq<char>,
    pub task_id: Seq<char>,
    pub agent_name: Seq<char>,
    pub content: Seq<char>,
    pub created_at: Seq<char>,
}

impl View for ResponseRow {
    type V = ResponseRowView;

    open spec fn view(&self) -> ResponseRowView {
        ResponseRowView {
            id: self.id@,
            task_id: self.task_id@,
            agent_name: self.agent_name@,
            content: self.content@,
            created_at: self.created_at@,
        }
    }
}

/// The views of a list of stored responses.
pub open spec fn response_row_views(rows: Seq<ResponseRow>) -> Seq<ResponseRowView> {
    rows.map_values(|row: ResponseRow| row@)
}

/// The instant of a stored text, `now` where it stands for none.
pub open spec fn instant_or(text: Seq<char>, now: Timestamp) -> Timestamp {
    match clock::instant_of(text) {
        Some(instant) => instant,
        None => now,
    }
}

/// The instant of an optional stored text, if it stands for one.
pub open spec fn optional_instant(text: Option<Seq<char>>) -> Option<Timestamp> {
    match text {
        Some(text) => clock::instant_of(text),
        None => None,
    }
}

/// The status with a stored name; an unknown name counts as open.
pub open spec fn status_or_open(name: Seq<char>) -> TaskStatus {
    match TaskStatus::named(name) {
        Some(status) => status,
        None => TaskStatus::Open,
    }
}

/// The task that a row and its responses stand for, read at `now`.
pub open spec fn task_of(
    row: TaskRowView,
    responses: Seq<TaskResponseView>,
    now: Timestamp,
) -> TaskView {
    TaskView {
        id: row.id,
        title: row.title,
        description: row.description,
        status: status_or_open(row.status),
        assigned_to: row.assigned_to,
        priority: row.priority,
        created_at: instant_or(row.created_at, now),
        updated_at: instant_or(row.updated_at, now),
        completed_at: optional_instant(row.completed_at),
        responses,
    }
}

/// The response that a row stands for, read at `now`.
pub open spec fn response_of(row: ResponseRowView, now: Timestamp) -> TaskResponseView {
    TaskResponseView {
        id: row.id,
        task_id: row.task_id,
        agent_name: row.agent_name,
        content: row.content,
        created_at: instant_or(row.created_at, now),
    }
}

fn parse_or(text: &str, now: Timestamp) -> (instant: Timestamp)
    requires
        now.wf(),
    ensures
        instant == instant_or(text@, now),
        instant.wf(),
{
    match clock::parse_stored(text) {
        Some(instant) => instant,
        None => now,
    }
}

/// The row of a lookup, if the lookup worked and found one.
pub fn require_row(found: Result<Option<TaskRow>, String>) -> (row: Result<TaskRow, Error>)
    ensures
        match found {
            Ok(Some(stored)) => row == Ok::<TaskRow, Error>(stored),
            Ok(None) => row == Err::<TaskRow, Error>(Error::NotFound),
            Err(reason) => row == Err::<TaskRow, Error>(Error::Database(reason)),
        },
{
    match found {
        Ok(Some(row)) => Ok(row),
        Ok(None) => Err(Error::NotFound),
        Err(reason) => Err(Error::Database(reason)),
    }
}

/// The task that a row and its responses stand for.
pub fn task_from_row(row: TaskRow, responses: Vec<TaskResponse>) -> (task: Task)
    ensures
        exists|now: Timestamp|
            #[trigger] now.wf() && now.secs >= 0 && task@ == task_of(
                row@,
                types::response_views(responses@),
                now,
            ),
        task@.wf(),
{
    task_from_row_at(row, responses, clock::utc_now())
}

/// [`task_from_row`] at the time `now`.
pub fn task_from_row_at(row: TaskRow, responses: Vec<TaskResponse>, now: Timestamp) -> (task: Task)
    requires
        now.wf(),
    ensures
        task@ == task_of(row@, types::response_views(responses@), now),
        task@.wf(),
{
    Task {
        id: row.id,
        title: row.title,
        description: row.description,
        status: match TaskStatus::from_str(row.status.as_str()) {
            Some(status) => status,
            None => TaskStatus::Open,
        },
        assigned_to: row.assigned_to,
        priority: row.priority,
        created_at: parse_or(row.created_at.as_str(), now),
        updated_at: parse_or(row.updated_at.as_str(), now),
        completed_at: match &row.completed_at {
            Some(text) => clock::parse_stored(text.as_str()),
            None => None,
        },
        responses,
    }
}

/// A task that has been created, with the row to store.
#[derive(Debug)]
pub struct NewTask {
    pub task: Task,
    pub row: TaskRow,
}

/// The row that stores a task that has just been created.
pub open spec fn created_row(task: TaskView) -> TaskRowView {
    TaskRowView {
        id: task.id,
        title: task.title,
        description: task.description,
        status: task.status.name(),
        assigned_to: None,
        priority: task.priority,
        created_at: clock::stored_text(task.created_at),
        updated_at: clock::stored_text(task.updated_at),
        completed_at: None,
    }
}

/// The task that a request creates at `now`.
pub open spec fn created_task(id: Seq<char>, request: CreateTaskRequest, now: Timestamp) -> TaskView {
    TaskView {
        priority: or_else(request.priority, 0),
        ..TaskView::fresh(id, request.title@, text::view_of(request.description), now)
    }
}

/// What `new` holds is the task that a request creates at `now`, and the row
/// that stores it. The row is read back as the created task, whenever it is
/// read, and is ordered by its time, as long as the year has four digits.
pub open spec fn is_created(
    new: NewTask,
    id: Seq<char>,
    request: CreateTaskRequest,
    now: Timestamp,
) -> bool {
    &&& new.task@ == created_task(id, request, now)
    &&& new.row@ == created_row(created_task(id, request, now))
    &&& now.has_four_digit_year() ==> forall|later: Timestamp| #[trigger]
        task_of(new.row@, Seq::empty(), later) == new.task@
    &&& now.has_four_digit_year() ==> clock::keeps(new.row@.created_at, now)
}

/// Create a task under the fresh id `id`.
pub fn create(request: CreateTaskRequest, id: String) -> (new: NewTask)
    ensures
        exists|now: Timestamp|
            #[trigger] now.wf() && now.secs >= 0 && is_created(new, id@, request, now),
{
    create_at(request, id, clock::utc_now())
}

/// [`create`] at the time `now`.
pub fn create_at(request: CreateTaskRequest, id: String, now: Timestamp) -> (new: NewTask)
    requires
        now.wf(),
    ensures
        is_created(new, id@, request, now),
{
    let priority: i32 = match request.priority {
        Some(priority) => priority,
        None => 0,
    };
    let row = TaskRow {
        id: id.clone(),
        title: request.title.clone(),
        description: copy_text(&request.description),
        status: TaskStatus::Open.as_str().to_owned(),
        assigned_to: None,
        priority,
        created_at: clock::store(now),
        updated_at: clock::store(now),
        completed_at: None,
    };
    let mut task = Task::new(id, request.title, request.description, now);
    task.priority = priority;
    proof {
        types::status_is_found_by_its_name(TaskStatus::Open);
    }
    NewTask { task, row }
}

/// The columns that an update writes.
#[derive(Debug)]
pub struct TaskChanges {
    pub title: String,
    pub description: Option<String>,
    pub status: String,
    pub assigned_to: Option<String>,
    pub priority: i32,
    pub updated_at: String,
    pub completed_at: Option<String>,
}

/// The view of [`TaskChanges`].
#[verifier::ext_equal]
pub struct TaskChangesView {
    pub title: Seq<char>,
    pub description: Option<Seq<char>>,
    pub status: Seq<char>,
    pub assigned_to: Option<Seq<char>>,
    pub priority: i32,
    pub updated_at: Seq<char>,
    pub completed_at: Option<Seq<char>>,
}

impl View for TaskChanges {
    type V = TaskChangesView;

    open spec fn view(&self) -> TaskChangesView {
        TaskChangesView {
            title: self.title@,
            description: text::view_of(self.description),
            status: self.status@,
            assigned_to: text::view_of(self.assigned_to),
            priority: self.priority,
            updated_at: self.updated_at@,
            completed_at: text::view_of(self.completed_at),
        }
    }
}

/// A row after an update has been written to it: its id and its creation time
/// stay.
pub open spec fn changed_row(row: TaskRowView, changes: TaskChangesView) -> TaskRowView {
    TaskRowView {
        title: changes.title,
        description: changes.description,
        status: changes.status,
        assigned_to: changes.assigned_to,
        priority: changes.priority,
        updated_at: changes.updated_at,
        completed_at: changes.completed_at,
        ..row
    }
}

/// The given value, else the other one.
pub open spec fn or_else<T>(given: Option<T>, other: T) -> T {
    match given {
        Some(value) => value,
        None => other,
    }
}

/// The given value, else the other one, if any.
pub open spec fn or_keep<T>(given: Option<T>, other: Option<T>) -> Option<T> {
    match given {
        Some(value) => Some(value),
        None => other,
    }
}

/// A task after an update at `now`: what the request gives is taken over, the
/// rest stays; a task that is completed by it was completed at `now`.
pub open spec fn updated(task: TaskView, request: UpdateTaskRequest, now: Timestamp) -> TaskView {
    let status = or_else(request.status, task.status);
    TaskView {
        title: or_else(text::view_of(request.title), task.title),
        description: or_keep(text::view_of(request.description), task.description),
        status,
        assigned_to: or_keep(text::view_of(request.assigned_to), task.assigned_to),
        priority: or_else(request.priority, task.priority),
        updated_at: now,
        completed_at: if status == TaskStatus::Completed {
            Some(now)
        } else {
            task.completed_at
        },
        ..task
    }
}

/// The text under which an optional instant is stored.
pub open spec fn optional_text(instant: Option<Timestamp>) -> Option<Seq<char>> {
    match instant {
        Some(instant) => Some(clock::stored_text(instant)),
        None => None,
    }
}

/// The columns that store a task after an update.
pub open spec fn changes_of(task: TaskView) -> TaskChangesView {
    TaskChangesView {
        title: task.title,
        description: task.description,
        status: task.status.name(),
        assigned_to: task.assigned_to,
        priority: task.priority,
        updated_at: clock::stored_text(task.updated_at),
        completed_at: optional_text(task.completed_at),
    }
}

fn copy_text(text: &Option<String>) -> (copy: Option<String>)
    ensures
        text::view_of(copy) == text::view_of(*text),
{
    match text {
        Some(text) => Some(text.clone()),
        None => None,
    }
}

/// `changes` are what an update of `task` at `now` writes. They are read back as
/// the updated task, whenever they are read, as long as the years of its times
/// have four digits.
pub open spec fn are_changes(
    changes: TaskChangesView,
    task: TaskView,
    request: UpdateTaskRequest,
    now: Timestamp,
) -> bool {
    &&& changes == changes_of(updated(task, request, now))
    &&& now.has_four_digit_year() && (task.completed_at matches Some(instant)
        ==> instant.has_four_digit_year()) ==> forall|row: TaskRowView, later: Timestamp|
        row.id == task.id && clock::instant_of(row.created_at) == Some(task.created_at)
            ==> #[trigger] task_of(changed_row(row, changes), task.responses, later) == updated(
            task,
            request,
            now,
        )
}

/// What an update at the present time writes.
pub fn update(current: &Task, request: UpdateTaskRequest) -> (changes: TaskChanges)
    requires
        current@.wf(),
    ensures
        exists|now: Timestamp|
            #[trigger] now.wf() && now.secs >= 0 && are_changes(changes@, current@, request, now),
{
    update_at(current, request, clock::utc_now())
}

/// [`update`] at the time `now`.
pub fn update_at(current: &Task, request: UpdateTaskRequest, now: Timestamp) -> (changes:
    TaskChanges)
    requires
        current@.wf(),
        now.wf(),
    ensures
        are_changes(changes@, current@, request, now),
{
    let status = match request.status {
        Some(status) => status,
        None => current.status,
    };
    let completed_at = if status == TaskStatus::Completed {
        Some(now)
    } else {
        current.completed_at
    };
    let changes = TaskChanges {
        title: match &request.title {
            Some(title) => title.clone(),
            None => current.title.clone(),
        },
        description: match &request.description {
            Some(description) => Some(description.clone()),
            None => copy_text(&current.description),
        },
        status: status.as_str().to_owned(),
        assigned_to: match &request.assigned_to {
            Some(agent) => Some(agent.clone()),
            None => copy_text(&current.assigned_to),
        },
        priority: match request.priority {
            Some(priority) => priority,
            None => current.priority,
        },
        updated_at: clock::store(now),
        completed_at: match completed_at {
            Some(instant) => Some(clock::store(instant)),
            None => None,
        },
    };
    proof {
        types::status_is_found_by_its_name(status);
        assert(changes@ =~= changes_of(updated(current@, request, now)));
        if now.has_four_digit_year() && (current@.completed_at matches Some(instant)
            ==> instant.has_four_digit_year()) {
            assert forall|row: TaskRowView, later: Timestamp|
                row.id == current@.id && clock::instant_of(row.created_at) == Some(
                    current@.created_at,
                ) implies #[trigger] task_of(
                changed_row(row, changes@),
                current@.responses,
                later,
            ) == updated(current@, request, now) by {
                assert(task_of(changed_row(row, changes@), current@.responses, later) =~= updated(
                    current@,
                    request,
                    now,
                ));
            }
        }
    }
    changes
}

/// A response that has been posted, with the row to store.
#[derive(Debug)]
pub struct NewResponse {
    pub response: TaskResponse,
    pub row: ResponseRow,
}

/// The row that stores a response.
pub open spec fn response_row(response: TaskResponseView) -> ResponseRowView {
    ResponseRowView {
        id: response.id,
        task_id: response.task_id,
        agent_name: response.agent_name,
        content: response.content,
        created_at: clock::stored_text(response.created_at),
    }
}

/// What `new` holds is the response that a request posts at `now`, and the row
/// that stores it. The row is read back as the posted response, whenever it is
/// read, and is ordered by its time, as long as the year has four digits.
pub open spec fn is_posted(
    new: NewResponse,
    task_id: Seq<char>,
    request: AddResponseRequest,
    id: Seq<char>,
    now: Timestamp,
) -> bool {
    &&& new.response@ == TaskResponseView {
        id,
        task_id,
        agent_name: request.agent_name@,
        content: request.content@,
        created_at: now,
    }
    &&& new.row@ == response_row(new.response@)
    &&& now.has_four_digit_year() ==> forall|later: Timestamp| #[trigger]
        response_of(new.row@, later) == new.response@
    &&& now.has_four_digit_year() ==> clock::keeps(new.row@.created_at, now)
}

/// Post a response to the task `task_id` under the fresh id `id`.
pub fn add_response(task_id: &str, request: AddResponseRequest, id: String) -> (new: NewResponse)
    ensures
        exists|now: Timestamp|
            #[trigger] now.wf() && now.secs >= 0 && is_posted(new, task_id@, request, id@, now),
{
    add_response_at(task_id, request, id, clock::utc_now())
}

/// [`add_response`] at the time `now`.
pub fn add_response_at(
    task_id: &str,
    request: AddResponseRequest,
    id: String,
    now: Timestamp,
) -> (new: NewResponse)
    requires
        now.wf(),
    ensures
        is_posted(new, task_id@, request, id@, now),
{
    let row = ResponseRow {
        id: id.clone(),
        task_id: task_id.to_owned(),
        agent_name: request.agent_name.clone(),
        content: request.content.clone(),
        created_at: clock::store(now),
    };
    let response = TaskResponse::new(
        id,
        task_id.to_owned(),
        request.agent_name,
        request.content,
        now,
    );
    NewResponse { response, row }
}

/// The keys by which responses are ordered: the oldest first.
pub open spec fn response_keys(rows: Seq<ResponseRowView>) -> Seq<OrderKeyView> {
    rows.map_values(|row: ResponseRowView| OrderKeyView { number: 0, text: row.created_at })
}

/// The responses of a list of rows, read at `now`.
pub open spec fn responses_of(rows: Seq<ResponseRowView>, now: Timestamp) -> Seq<
    TaskResponseView,
> {
    rows.map_values(|row: ResponseRowView| response_of(row, now))
}

/// `responses` are what the rows of a task stand for at `now`, oldest first.
pub open spec fn are_responses(
    responses: Seq<TaskResponseView>,
    rows: Seq<ResponseRowView>,
    now: Timestamp,
) -> bool {
    exists|order: Seq<usize>|
        #![trigger ordering::arranged(rows, order)]
        {
            &&& ordering::is_order(response_keys(rows), TextOrder::Ascending, order)
            &&& responses == responses_of(ordering::arranged(rows, order), now)
        }
}

/// The responses that the rows of a task stand for, oldest first.
pub fn responses_from_rows(rows: &Vec<ResponseRow>) -> (responses: Vec<TaskResponse>)
    ensures
        exists|now: Timestamp|
            #[trigger] now.wf() && now.secs >= 0 && are_responses(
                types::response_views(responses@),
                response_row_views(rows@),
                now,
            ),
{
    responses_from_rows_at(rows, clock::utc_now())
}

/// [`responses_from_rows`] at the time `now`.
pub fn responses_from_rows_at(rows: &Vec<ResponseRow>, now: Timestamp) -> (responses: Vec<
    TaskResponse,
>)
    requires
        now.wf(),
    ensures
        are_responses(types::response_views(responses@), response_row_views(rows@), now),
{
    let ghost views = response_row_views(rows@);
    let mut keys: Vec<OrderKey> = Vec::new();
    for i in 0..rows.len()
        invariant
            views == response_row_views(rows@),
            ordering::key_views(keys@) == response_keys(views.take(i as int)),
    {
        let ghost before = keys@;
        keys.push(OrderKey { number: 0, text: text::chars_of(rows[i].created_at.as_str()) });
        proof {
            let key = OrderKeyView { number: 0, text: views[i as int].created_at };
            assert(keys@.last()@ == key);
            assert(ordering::key_views(keys@) =~= ordering::key_views(before).push(key));
            assert(response_keys(views.take(i + 1)) =~= response_keys(views.take(i as int)).push(
                key,
            ));
        }
    }
    assert(views.take(views.len() as int) =~= views);
    let order = ordering::order_of(&keys, TextOrder::Ascending);
    let ghost arranged = ordering::arranged(views, order@);
    let mut responses: Vec<TaskResponse> = Vec::new();
    for i in 0..order.len()
        invariant
            now.wf(),
            views == response_row_views(rows@),
            order@.len() == rows@.len(),
            forall|j: int| 0 <= j < order@.len() ==> (#[trigger] order@[j]) < rows@.len(),
            arranged == ordering::arranged(views, order@),
            types::response_views(responses@) == responses_of(arranged.take(i as int), now),
    {
        let ghost before = responses@;
        let row = &rows[order[i]];
        responses.push(
            TaskResponse {
                id: row.id.clone(),
                task_id: row.task_id.clone(),
                agent_name: row.agent_name.clone(),
                content: row.content.clone(),
                created_at: parse_or(row.created_at.as_str(), now),
            },
        );
        proof {
            let response = response_of(arranged[i as int], now);
            assert(types::response_views(responses@) =~= types::response_views(before).push(
                response,
            ));
            assert(responses_of(arranged.take(i + 1), now) =~= responses_of(
                arranged.take(i as int),
                now,
            ).push(response));
        }
    }
    assert(arranged.take(arranged.len() as int) =~= arranged);
    responses
}

/// The stored status of the row is the one asked for, if one is.
pub open spec fn has_status(row: TaskRowView, status: Option<TaskStatus>) -> bool {
    match status {
        Some(status) => row.status == status.name(),
        None => true,
    }
}

/// [`has_status`] as a test on rows.
pub open spec fn status_test(status: Option<TaskStatus>) -> spec_fn(TaskRowView) -> bool {
    |row: TaskRowView| has_status(row, status)
}

/// The rows with the status asked for.
pub open spec fn chosen(rows: Seq<TaskRowView>, status: Option<TaskStatus>) -> Seq<TaskRowView> {
    rows.filter(status_test(status))
}

/// The keys by which the board lists tasks: the most urgent first (the lowest
/// number), the newest first among equally urgent ones.
pub open spec fn board_keys(rows: Seq<TaskRowView>) -> Seq<OrderKeyView> {
    rows.map_values(
        |row: TaskRowView| OrderKeyView { number: row.priority as i64, text: row.created_at },
    )
}

/// `listed` is the board's list of the rows with the status asked for.
pub open spec fn is_list(
    listed: Seq<TaskRowView>,
    rows: Seq<TaskRowView>,
    status: Option<TaskStatus>,
) -> bool {
    exists|order: Seq<usize>|
        #![trigger ordering::arranged(chosen(rows, status), order)]
        {
            &&& ordering::is_order(board_keys(chosen(rows, status)), TextOrder::Descending, order)
            &&& listed == ordering::arranged(chosen(rows, status), order)
        }
}

impl TaskRow {
    fn duplicate(&self) -> (copy: TaskRow)
        ensures
            copy@ == self@,
    {
        TaskRow {
            id: self.id.clone(),
            title: self.title.clone(),
            description: copy_text(&self.description),
            status: self.status.clone(),
            assigned_to: copy_text(&self.assigned_to),
            priority: self.priority,
            created_at: self.created_at.clone(),
            updated_at: self.updated_at.clone(),
            completed_at: copy_text(&self.completed_at),
        }
    }
}

fn choose_rows(rows: &Vec<TaskRow>, status: Option<TaskStatus>) -> (kept: Vec<TaskRow>)
    ensures
        task_row_views(kept@) == chosen(task_row_views(rows@), status),
{
    let ghost views = task_row_views(rows@);
    let mut kept: Vec<TaskRow> = Vec::new();
    assert(task_row_views(kept@) =~= chosen(views.take(0), status)) by {
        reveal(Seq::filter);
    }
    for i in 0..rows.len()
        invariant
            views == task_row_views(rows@),
            task_row_views(kept@) == chosen(views.take(i as int), status),
    {
        let ghost before = kept@;
        let wanted = match status {
            Some(status) => text::same_text(rows[i].status.as_str(), status.as_str()),
            None => true,
        };
        if wanted {
            kept.push(rows[i].duplicate());
            assert(task_row_views(kept@) =~= task_row_views(before).push(views[i as int]));
        }
        proof {
            reveal(Seq::filter);
            assert(views.take(i + 1).drop_last() =~= views.take(i as int));
            assert(views.take(i + 1).last() == views[i as int]);
        }
    }
    assert(views.take(views.len() as int) =~= views);
    kept
}

/// The rows of the board with the status asked for, in the order in which they
/// are listed.
pub fn list(rows: &Vec<TaskRow>, status: Option<TaskStatus>) -> (listed: Vec<TaskRow>)
    ensures
        is_list(task_row_views(listed@), task_row_views(rows@), status),
{
    let kept = choose_rows(rows, status);
    let ghost views = task_row_views(kept@);
    let mut keys: Vec<OrderKey> = Vec::new();
    for i in 0..kept.len()
        invariant
            views == task_row_views(kept@),
            ordering::key_views(keys@) == board_keys(views.take(i as int)),
    {
        let ghost before = keys@;
        keys.push(
            OrderKey {
                number: kept[i].priority as i64,
                text: text::chars_of(kept[i].created_at.as_str()),
            },
        );
        proof {
            let key = OrderKeyView {
                number: views[i as int].priority as i64,
                text: views[i as int].created_at,
            };
            assert(keys@.last()@ == key);
            assert(ordering::key_views(keys@) =~= ordering::key_views(before).push(key));
            assert(board_keys(views.take(i + 1)) =~= board_keys(views.take(i as int)).push(key));
        }
    }
    assert(views.take(views.len() as int) =~= views);
    let order = ordering::order_of(&keys, TextOrder::Descending);
    let ghost arranged = ordering::arranged(views, order@);
    let mut listed: Vec<TaskRow> = Vec::new();
    for i in 0..order.len()
        invariant
            views == task_row_views(kept@),
            order@.len() == kept@.len(),
            forall|j: int| 0 <= j < order@.len() ==> (#[trigger] order@[j]) < kept@.len(),
            arranged == ordering::arranged(views, order@),
            task_row_views(listed@) == arranged.take(i as int),
    {
        let ghost before = listed@;
        listed.push(kept[order[i]].duplicate());
        proof {
            assert(task_row_views(listed@) =~= task_row_views(before).push(arranged[i as int]));
            assert(arranged.take(i + 1) =~= arranged.take(i as int).push(arranged[i as int]));
        }
    }
    assert(arranged.take(arranged.len() as int) =~= arranged);
    listed
}

} // verus!
