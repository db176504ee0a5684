//! Ants: a cluster of equal workers that hand work to each other.
//!
//! Any worker can take a task; a worker that is busy reserves the node of its
//! list that has been idle the longest and hands the task over. Workers find
//! each other by multicast, and a task can be repeated on several workers
//! until enough results agree.
//!
//! This library holds the logic of the workers: the node list, the postbox
//! where replies are staged, reservations and the choice of nodes, the
//! consensus count, the multicast messages and an agent's records. Sockets,
//! RPC and timers belong to the program that drives it; it passes in the
//! clock readings and the outcomes of its calls.
use vstd::prelude::*;

pub mod assoc;
pub mod config;
pub mod errors;
pub mod example;
pub mod multicast;
pub mod nodes;
pub mod postbox;
pub mod text;
pub mod token;
pub mod worker;

pub use config::CliArgs;
pub use errors::AntsError;
pub use worker::model::Worker;

verus! {
} // verus!
