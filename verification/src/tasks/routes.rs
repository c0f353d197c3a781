//! What the task board answers over HTTP.

use vstd::prelude::*;

use crate::tasks::types::TaskStatus;
use crate::text;

verus! {

/// The query of a list request.
#[derive(Debug)]
pub struct ListQuery {
    pub status: Option<String>,
}

impl ListQuery {
    /// The status to list, if the query names one; any other text lists all.
    pub fn status_filter(&self) -> (status: Option<TaskStatus>)
        ensures
            status == match text::view_of(self.status) {
                Some(name) => TaskStatus::named(name),
                None => None,
            },
    {
        match &self.status {
            Some(name) => TaskStatus::from_str(name.as_str()),
            None => None,
        }
    }
}

/// The operations of the board.
#[derive(Debug, Clone, Copy, PartialEq, Eq, Structural)]
pub enum TaskRoute {
    Create,
    List,
    Get,
    Update,
    AddResponse,
}

/// What failed when a request could not be answered.
#[derive(Debug, Clone, Copy, PartialEq, Eq, Structural)]
pub enum RouteFailure {
    /// The board could not be reached at all.
    Service,
    /// The operation itself.
    Operation,
}

pub const STATUS_NOT_FOUND: u16 = 404;

pub const STATUS_INTERNAL_SERVER_ERROR: u16 = 500;

/// The route is about one task that has to be there.
pub open spec fn needs_task(route: TaskRoute) -> bool {
    match route {
        TaskRoute::Create | TaskRoute::List => false,
        TaskRoute::Get | TaskRoute::Update | TaskRoute::AddResponse => true,
    }
}

/// The status code that answers a failed request: whatever goes wrong in an
/// operation on one task counts as the task not being found.
pub fn failure_status(route: TaskRoute, failure: RouteFailure) -> (code: u16)
    ensures
        code == if failure == RouteFailure::Operation && needs_task(route) {
            STATUS_NOT_FOUND
        } else {
            STATUS_INTERNAL_SERVER_ERROR
        },
{
    match failure {
        RouteFailure::Service => STATUS_INTERNAL_SERVER_ERROR,
        RouteFailure::Operation => match route {
            TaskRoute::Create => STATUS_INTERNAL_SERVER_ERROR,
            TaskRoute::List => STATUS_INTERNAL_SERVER_ERROR,
            TaskRoute::Get => STATUS_NOT_FOUND,
            TaskRoute::Update => STATUS_NOT_FOUND,
            TaskRoute::AddResponse => STATUS_NOT_FOUND,
        },
    }
}

} // verus!
