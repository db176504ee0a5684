//! Errors of the library.
use vstd::prelude::*;

verus! {

/// The errors of the library. Errors that come from another layer (I/O,
/// serialisation, RPC, tasks) carry that error's message.
#[derive(Debug)]
pub enum AntsError {
    InvalidNodeAddress(String),
    Termination(String),
    Io(String),
    Serde(String),
    Tonic(String),
    TonicServerStartUpError(String),
    Tokio(String),
    WorkerError(String),
    NoNodesAvailable,
    CalledWithoutReservation,
    CalledWhileBusy,
    ReservationTokenMismatch,
    TaskExecutionError(String),
    InvalidWorkData(String),
    InvalidWorkResult(String),
    ConnectionError(String, u16, String),
    // Postbox
    MessageNotFound(String),
    MessageAlreadySet(String),
    MessageNotSet(String),
    IncompatibleMessage(String, String),
    IncompatibleRecipientType(String, String),
    // Multicaster
    MulticasterNotAvailable(String),
    MulticasterAddressError(String),
    MulticastSendError(String),
    // Consensus
    ConsensusPending(usize),
    ConsensusNotReached(usize, usize, Vec<String>),
}

} // verus!
