//! Tasks, their responses, and the requests that change them.

use vstd::prelude::*;

use crate::clock::Timestamp;
use crate::text;

verus! {

/// Where a task stands.
#[derive(Debug, Clone, Copy, PartialEq, Eq, Structural)]
pub enum TaskStatus {
    Open,
    Assigned,
    InProgress,
    Completed,
    Closed,
}

impl TaskStatus {
    /// The name under which the status is stored.
    pub open spec fn name(self) -> Seq<char> {
        match self {
            TaskStatus::Open => "open"@,
            TaskStatus::Assigned => "assigned"@,
            TaskStatus::InProgress => "in_progress"@,
            TaskStatus::Completed => "completed"@,
            TaskStatus::Closed => "closed"@,
        }
    }

    /// The status with a given name, if there is one.
    pub open spec fn named(name: Seq<char>) -> Option<TaskStatus> {
        if name == "open"@ {
            Some(TaskStatus::Open)
        } else if name == "assigned"@ {
            Some(TaskStatus::Assigned)
        } else if name == "in_progress"@ {
            Some(TaskStatus::InProgress)
        } else if name == "completed"@ {
            Some(TaskStatus::Completed)
        } else if name == "closed"@ {
            Some(TaskStatus::Closed)
        } else {
            None
        }
    }

    pub fn as_str(self) -> (name: &'static str)
        ensures
            name@ == self.name(),
    {
        match self {
            TaskStatus::Open => "open",
            TaskStatus::Assigned => "assigned",
            TaskStatus::InProgress => "in_progress",
            TaskStatus::Completed => "completed",
            TaskStatus::Closed => "closed",
        }
    }

    pub fn from_str(name: &str) -> (status: Option<TaskStatus>)
        ensures
            status == TaskStatus::named(name@),
    {
        if text::same_text(name, "open") {
            Some(TaskStatus::Open)
        } else if text::same_text(name, "assigned") {
            Some(TaskStatus::Assigned)
        } else if text::same_text(name, "in_progress") {
            Some(TaskStatus::InProgress)
        } else if text::same_text(name, "completed") {
            Some(TaskStatus::Completed)
        } else if text::same_text(name, "closed") {
            Some(TaskStatus::Closed)
        } else {
            None
        }
    }
}

/// Every status is found again under the name it is stored by.
pub proof fn status_is_found_by_its_name(status: TaskStatus)
    ensures
        TaskStatus::named(status.name()) == Some(status),
{
    reveal_strlit("open");
    reveal_strlit("assigned");
    reveal_strlit("in_progress");
    reveal_strlit("completed");
    reveal_strlit("closed");
    assert("open"@.len() == 4);
    assert("assigned"@.len() == 8);
    assert("in_progress"@.len() == 11);
    assert("completed"@.len() == 9);
    assert("closed"@.len() == 6);
}

/// A response that an agent posted to a task.
#[derive(Debug, Clone)]
pub struct TaskResponse {
    pub id: String,
    pub task_id: String,
    pub agent_name: String,
    pub content: String,
    pub created_at: Timestamp,
}

/// The view of a [`TaskResponse`].
pub struct TaskResponseView {
    pub id: Seq<char>,
    pub task_id: Seq<char>,
    pub agent_name: Seq<char>,
    pub content: Seq<char>,
    pub created_at: Timestamp,
}

impl View for TaskResponse {
    type V = TaskResponseView;

    open spec fn view(&self) -> TaskResponseView {
        TaskResponseView {
            id: self.id@,
            task_id: self.task_id@,
            agent_name: self.agent_name@,
            content: self.content@,
            created_at: self.created_at,
        }
    }
}

impl TaskResponse {
    /// A response posted at `now` under the fresh id `id`.
    pub fn new(
        id: String,
        task_id: String,
        agent_name: String,
        content: String,
        now: Timestamp,
    ) -> (response: TaskResponse)
        ensures
            response@ == (TaskResponseView {
                id: id@,
                task_id: task_id@,
                agent_name: agent_name@,
                content: content@,
                created_at: now,
            }),
    {
        TaskResponse { id, task_id, agent_name, content, created_at: now }
    }
}

/// The views of a list of responses.
pub open spec fn response_views(responses: Seq<TaskResponse>) -> Seq<TaskResponseView> {
    responses.map_values(|response: TaskResponse| response@)
}

/// A task on the board.
#[derive(Debug, Clone)]
pub struct Task {
    pub id: String,
    pub title: String,
    pub description: Option<String>,
    pub status: TaskStatus,
    pub assigned_to: Option<String>,
    /// The lower the number, the more urgent the task.
    pub priority: i32,
    pub created_at: Timestamp,
    pub updated_at: Timestamp,
    pub completed_at: Option<Timestamp>,
    pub responses: Vec<TaskResponse>,
}

/// The view of a [`Task`].
#[verifier::ext_equal]
pub struct TaskView {
    pub id: Seq<char>,
    pub title: Seq<char>,
    pub description: Option<Seq<char>>,
    pub status: TaskStatus,
    pub assigned_to: Option<Seq<char>>,
    pub priority: i32,
    pub created_at: Timestamp,
    pub updated_at: Timestamp,
    pub completed_at: Option<Timestamp>,
    pub responses: Seq<TaskResponseView>,
}

impl View for Task {
    type V = TaskView;

    open spec fn view(&self) -> TaskView {
        TaskView {
            id: self.id@,
            title: self.title@,
            description: text::view_of(self.description),
            status: self.status,
            assigned_to: text::view_of(self.assigned_to),
            priority: self.priority,
            created_at: self.created_at,
            updated_at: self.updated_at,
            completed_at: self.completed_at,
            responses: response_views(self.responses@),
        }
    }
}

impl TaskView {
    /// The times of the task are instants of the calendar.
    pub open spec fn wf(self) -> bool {
        &&& self.created_at.wf()
        &&& self.updated_at.wf()
        &&& self.completed_at matches Some(instant) ==> instant.wf()
    }

    /// A task that has just been put on the board.
    pub open spec fn fresh(
        id: Seq<char>,
        title: Seq<char>,
        description: Option<Seq<char>>,
        now: Timestamp,
    ) -> TaskView {
        TaskView {
            id,
            title,
            description,
            status: TaskStatus::Open,
            assigned_to: None,
            priority: 0,
            created_at: now,
            updated_at: now,
            completed_at: None,
            responses: Seq::empty(),
        }
    }
}

impl Task {
    /// A task put on the board at `now` under the fresh id `id`.
    pub fn new(id: String, title: String, description: Option<String>, now: Timestamp) -> (task:
        Task)
        ensures
            task@ == TaskView::fresh(id@, title@, text::view_of(description), now),
    {
        let task = Task {
            id,
            title,
            description,
            status: TaskStatus::Open,
            assigned_to: None,
            priority: 0,
            created_at: now,
            updated_at: now,
            completed_at: None,
            responses: Vec::new(),
        };
        assert(task@.responses =~= Seq::<TaskResponseView>::empty());
        task
    }
}

/// A request for a new task.
#[derive(Debug, Clone)]
pub struct CreateTaskRequest {
    pub title: String,
    pub description: Option<String>,
    pub priority: Option<i32>,
}

/// A request to change a task; what is absent stays.
#[derive(Debug, Clone)]
pub struct UpdateTaskRequest {
    pub title: Option<String>,
    pub description: Option<String>,
    pub status: Option<TaskStatus>,
    pub assigned_to: Option<String>,
    pub priority: Option<i32>,
}

/// A request to post a response to a task.
#[derive(Debug, Clone)]
pub struct AddResponseRequest {
    pub agent_name: String,
    pub content: String,
}

} // verus!
