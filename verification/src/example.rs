//! The request and response bodies of the example HTTP server.
use vstd::prelude::*;

verus! {

/// A task sent to the example server.
#[derive(Clone, Debug)]
pub struct TaskBody {
    pub body: String,
}

/// The example server's answer to a task.
#[derive(Clone, Debug)]
pub struct TaskResponse {
    pub success: bool,
    pub worker: String,
    pub body: Option<String>,
    pub error: Option<String>,
}

impl TaskResponse {
    /// The answer for work done by `worker` with the given result.
    pub fn done(worker: String, body: String) -> (r: Self)
        ensures
            r.success,
            r.worker == worker,
            r.body == Some(body),
            r.error is None,
    {
        TaskResponse { success: true, worker, body: Some(body), error: None }
    }

    /// The answer for work that `worker` could not get done, with the error.
    pub fn failed(worker: String, error: String) -> (r: Self)
        ensures
            !r.success,
            r.worker == worker,
            r.body is None,
            r.error == Some(error),
    {
        TaskResponse { success: false, worker, body: None, error: Some(error) }
    }
}

} // verus!
