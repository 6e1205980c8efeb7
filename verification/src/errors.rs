//! The closed error model of the repository layer.
//!
//! Two kinds of failure cover every operation: a database-query error (a
//! message, an optional echo of the request payload, and an HTTP-style
//! status classification) and a process error (a message, the name of the
//! originating operation, and optional context) for violations of an
//! operation's own invariants.  Callers dispatch by pattern match.

use vstd::prelude::*;

verus! {

/// HTTP-style classification of a query failure.  The HTTP boundary maps
/// each variant to the matching status code.
#[derive(Clone, Copy, PartialEq, Eq, Structural, Debug)]
pub enum StatusClass {
    /// An invalid filter or input combination.
    BadRequest,
    /// A row that the operation needed was absent.
    NotFound,
    /// The store failed or returned something the operation could not use.
    InternalServerError,
}

/// A failed database query: what went wrong, optionally the payload that was
/// being processed, and how the failure classifies.
#[derive(Debug, PartialEq, Eq)]
pub struct QueryFault {
    pub message: String,
    /// Echo of the request payload's identifier, for diagnostics.
    pub echo: Option<String>,
    pub status: StatusClass,
}

/// A violated invariant of an operation's own process: what went wrong and
/// which operation found it.
#[derive(Debug, PartialEq, Eq)]
pub struct ProcessFault {
    pub message: String,
    /// Name of the originating operation.
    pub operation: String,
    /// Optional context, for diagnostics.
    pub context: Option<String>,
}

/// Every error a repository operation can surface.
#[derive(Debug, PartialEq, Eq)]
pub enum RepoError {
    Query(QueryFault),
    Process(ProcessFault),
}

impl RepoError {
    /// True for a query error with the given classification.
    pub open spec fn is_query(self, status: StatusClass) -> bool {
        match self {
            RepoError::Query(f) => f.status == status,
            RepoError::Process(_) => false,
        }
    }

    /// True for a process (consistency) error.
    pub open spec fn is_process(self) -> bool {
        self is Process
    }

    /// Builds a query error from a message literal.
    pub fn query(message: &str, status: StatusClass) -> (res: RepoError)
        ensures
            res.is_query(status),
    {
        RepoError::Query(QueryFault { message: message.to_owned(), echo: None, status })
    }

    /// Builds a query error echoing the identifier of the payload it was
    /// processing.
    pub fn query_with_echo(message: &str, echo: &String, status: StatusClass) -> (res: RepoError)
        ensures
            res.is_query(status),
            res matches RepoError::Query(f) && f.echo matches Some(e) && e@ == echo@,
    {
        RepoError::Query(
            QueryFault { message: message.to_owned(), echo: Some(echo.clone()), status },
        )
    }

    /// Builds a process error naming the originating operation.
    pub fn process(message: &str, operation: &str) -> (res: RepoError)
        ensures
            res.is_process(),
            res matches RepoError::Process(f) && f.operation@ == operation@,
    {
        RepoError::Process(
            ProcessFault { message: message.to_owned(), operation: operation.to_owned(), context: None },
        )
    }

    /// The carried message, for display at the boundary.
    pub fn describe(&self) -> (res: &String)
        ensures
            res@ == match *self {
                RepoError::Query(f) => f.message@,
                RepoError::Process(f) => f.message@,
            },
    {
        match self {
            RepoError::Query(f) => &f.message,
            RepoError::Process(f) => &f.message,
        }
    }
}

} // verus!
