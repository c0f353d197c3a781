//! Task board errors.

use vstd::prelude::*;

verus! {

/// What can go wrong on the task board.
#[derive(Debug)]
pub enum Error {
    NotFound,
    Database(String),
    InvalidStatus(String),
    InvalidRequest(String),
}

impl Error {
    /// The message of an error.
    pub open spec fn text(self) -> Seq<char> {
        match self {
            Error::NotFound => "Task not found"@,
            Error::Database(reason) => "Database error: "@ + reason@,
            Error::InvalidStatus(reason) => "Invalid status: "@ + reason@,
            Error::InvalidRequest(reason) => "Invalid request: "@ + reason@,
        }
    }

    /// The message to show.
    pub fn message(&self) -> (message: String)
        ensures
            message@ == self.text(),
    {
        match self {
            Error::NotFound => "Task not found".to_owned(),
            Error::Database(reason) => "Database error: ".to_owned().concat(reason.as_str()),
            Error::InvalidStatus(reason) => "Invalid status: ".to_owned().concat(reason.as_str()),
            Error::InvalidRequest(reason) => "Invalid request: ".to_owned().concat(
                reason.as_str(),
            ),
        }
    }
}

/// An error with a reason shows that reason, behind the words for its kind.
pub proof fn errors_show_their_reasons(reason: String)
    ensures
        Error::Database(reason).text() == "Database error: "@ + reason@,
        Error::InvalidStatus(reason).text() == "Invalid status: "@ + reason@,
        Error::InvalidRequest(reason).text() == "Invalid request: "@ + reason@,
{
}

} // verus!
