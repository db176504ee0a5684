//! The messages workers exchange over RPC.
use vstd::prelude::*;

verus! {

/// A request without content.
#[derive(Debug, Clone, Copy, PartialEq, Eq, Structural)]
pub struct Empty {}

/// The answer to a ping: 0 when the worker is not reserved, 1 when it is.
#[derive(Debug, Clone, Copy, PartialEq, Eq, Structural)]
pub struct PingReply {
    pub status: i32,
}

/// The answer to a reservation request.
#[derive(Debug, Clone, Copy, PartialEq, Eq, Structural)]
pub struct ReserveReply {
    pub success: bool,
    pub token: u64,
}

/// A request to release a reservation.
#[derive(Debug, Clone, Copy, PartialEq, Eq, Structural)]
pub struct ReleaseRequest {
    pub token: u64,
}

/// The answer to a release request.
#[derive(Debug, Clone, Copy, PartialEq, Eq, Structural)]
pub struct ReleaseReply {
    pub success: bool,
}

/// A request to do work under a reservation; the worker delivers the result
/// to `host:port`.
#[derive(Debug, Clone, PartialEq)]
pub struct WorkRequest {
    pub token: u64,
    pub body: String,
    pub host: String,
    pub port: u32,
}

/// The answer to a work request: whether the work was started, and the task.
#[derive(Debug, Clone, PartialEq)]
pub struct WorkReply {
    pub token: u64,
    pub task_id: u64,
    pub success: bool,
    pub message: String,
    pub worker: String,
}

/// The result of a task, delivered to the worker that asked for it.
#[derive(Debug, Clone, PartialEq)]
pub struct DeliverRequest {
    pub token: u64,
    pub task_id: u64,
    pub success: bool,
    pub error: String,
    pub body: String,
    pub worker: String,
}

/// The answer to a delivery.
#[derive(Debug, Clone, Copy, PartialEq, Eq, Structural)]
pub struct DeliverReply {
    pub token: u64,
    pub task_id: u64,
    pub success: bool,
}

} // verus!
