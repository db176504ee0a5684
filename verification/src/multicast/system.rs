//! Messages that multicast agents send to each other, and the self-test an
//! agent runs by sending one to itself.
use vstd::prelude::*;

use super::message::{kind_number, message_checksum, spec_parse_uuid, Kind, MulticastMessage, Timestamp};

verus! {

/// A system message.
#[derive(Debug, Clone, Copy, PartialEq, Eq, Structural)]
pub enum SystemMessage {
    /// A message an agent sends to itself to check that it can hear the group.
    SelfTest(u128),
}

/// Why a self-test could not start or finish.
#[derive(Debug, Clone, Copy, PartialEq, Eq, Structural)]
pub enum SelfTestError {
    /// The agent is not listening, so it could not hear its own message.
    NotListening,
    /// Another self-test is running.
    AlreadyRunning,
    /// The self-test was reset before it finished.
    Reset,
}

/// The self-test of an agent: which secret, if any, it waits to hear back.
pub struct SelfTest {
    pending: Option<u128>,
}

impl SelfTest {
    /// The secret the running self-test waits for; `None` when none runs.
    pub closed spec fn spec_pending(self) -> Option<u128> {
        self.pending
    }

    /// No self-test running.
    pub fn new() -> (s: Self)
        ensures
            s.spec_pending() is None,
    {
        SelfTest { pending: None }
    }

    /// Whether a self-test is running.
    pub fn is_running(&self) -> (r: bool)
        ensures
            r == self.spec_pending() is Some,
    {
        self.pending.is_some()
    }

    /// Starts a self-test with the given secret: the system message to send
    /// to the agent itself, of kind `System` with a time-to-live of 0 and the
    /// given body (the system message `SelfTest(secret)` as JSON). Fails when
    /// the agent is not listening, or when a self-test is already running;
    /// then nothing changes.
    pub fn begin(&mut self, listening: bool, secret: u128, body: String, timestamp: Timestamp) -> (r:
        Result<MulticastMessage, SelfTestError>)
        ensures
            !listening ==> r == Err::<MulticastMessage, SelfTestError>(SelfTestError::NotListening),
            listening && old(self).spec_pending() is Some ==> r == Err::<
                MulticastMessage,
                SelfTestError,
            >(SelfTestError::AlreadyRunning),
            r is Err ==> final(self).spec_pending() == old(self).spec_pending(),
            r is Ok <==> listening && old(self).spec_pending() is None,
            r matches Ok(m) ==> {
                &&& final(self).spec_pending() == Some(secret)
                &&& spec_parse_uuid(m@.uuid) == Some(secret)
                &&& m@.kind == kind_number(Kind::System)
                &&& m@.timestamp == Some((timestamp.seconds, timestamp.nanos))
                &&& m@.body == body@
                &&& m@.ttl == 0
                &&& m@.checksum == message_checksum(m@)
            },
    {
        if !listening {
            return Err(SelfTestError::NotListening);
        }
        if self.pending.is_some() {
            return Err(SelfTestError::AlreadyRunning);
        }
        self.pending = Some(secret);
        Ok(MulticastMessage::new(secret, Kind::System, body, Some(0), timestamp))
    }

    /// Takes in a system message the agent received: whether it is the one
    /// the running self-test waits for. A self-test message that no running
    /// test waits for is ignored.
    pub fn resolve(&self, message: SystemMessage) -> (passed: bool)
        ensures
            passed == (match message {
                SystemMessage::SelfTest(uuid) => self.spec_pending() == Some(uuid),
            }),
    {
        match message {
            SystemMessage::SelfTest(uuid) => match self.pending {
                Some(secret) => secret == uuid,
                None => false,
            },
        }
    }

    /// Ends the running self-test; fails when none runs (it was reset).
    pub fn finish(&mut self) -> (r: Result<(), SelfTestError>)
        ensures
            r is Ok <==> old(self).spec_pending() is Some,
            r is Err ==> r == Err::<(), SelfTestError>(SelfTestError::Reset),
            final(self).spec_pending() is None,
    {
        match self.pending.take() {
            Some(_) => Ok(()),
            None => Err(SelfTestError::Reset),
        }
    }
}

} // verus!
