//! The messages workers broadcast to find each other.
use vstd::prelude::*;

use super::model::Worker;
use crate::errors::AntsError;
use crate::multicast::agent::PeerAddr;
use crate::nodes::{address_view, NodeAddress};
use crate::text::{decimal, push_decimal, push_str};

verus! {

/// A broadcast message.
#[derive(Debug, Clone)]
pub enum WorkerBroadcastMessage {
    /// A worker announces itself.
    Heartbeat { host: String, port: u16 },
    /// A worker leaves.
    Leave { host: String, port: u16 },
}

/// Checks the address of the group that workers broadcast to, given as
/// `host` and `port`; `address` is the host read as an IP address, if it
/// could be. Refused with [`AntsError::MulticasterAddressError`] when the host
/// is no IP address, or when the address is not a multicast address.
pub fn check_broadcast_address(host: &str, port: u16, address: Option<PeerAddr>) -> (r: Result<
    PeerAddr,
    AntsError,
>)
    ensures
        address is None ==> (r matches Err(AntsError::MulticasterAddressError(m)) && m@ == host@
            + " is not a valid IP address."@),
        address is Some && !(address->0).spec_is_multicast() ==> (r matches Err(
            AntsError::MulticasterAddressError(m),
        ) && m@ == host@ + ":"@ + decimal(port as nat) + " is not a multicast address."@),
        address is Some && (address->0).spec_is_multicast() ==> r == Ok::<PeerAddr, AntsError>(
            PeerAddr { port, ..(address->0) },
        ),
{
    match address {
        None => {
            let mut m = String::new();
            push_str(&mut m, host);
            push_str(&mut m, " is not a valid IP address.");
            Err(AntsError::MulticasterAddressError(m))
        },
        Some(a) => {
            if a.is_multicast() {
                Ok(PeerAddr { port, ..a })
            } else {
                let mut m = String::new();
                push_str(&mut m, host);
                push_str(&mut m, ":");
                push_decimal(&mut m, port as u64);
                push_str(&mut m, " is not a multicast address.");
                Err(AntsError::MulticasterAddressError(m))
            }
        },
    }
}

impl Worker {
    /// The announcement that this worker is here.
    pub fn join_announcement(&self) -> (m: WorkerBroadcastMessage)
        ensures
            m matches WorkerBroadcastMessage::Heartbeat { host, port } && host == self.address.0 && port
                == self.address.1,
    {
        WorkerBroadcastMessage::Heartbeat { host: self.host(), port: self.port() }
    }

    /// The announcement that this worker leaves.
    pub fn leave_announcement(&self) -> (m: WorkerBroadcastMessage)
        ensures
            m matches WorkerBroadcastMessage::Leave { host, port } && host == self.address.0 && port
                == self.address.1,
    {
        WorkerBroadcastMessage::Leave { host: self.host(), port: self.port() }
    }

    /// Takes in a broadcast message at `now`: a worker that announces itself
    /// joins the list, one that leaves is taken out. Returns whether this
    /// worker should announce itself in turn, which it should when the
    /// announcing worker was new to it.
    pub fn process_broadcast(&mut self, message: WorkerBroadcastMessage, now: u64) -> (announce: bool)
        requires
            old(self).nodes.wf(),
            now >= old(self).nodes.spec_clock(),
        ensures
            final(self).nodes.wf(),
            final(self).address == old(self).address,
            match message {
                WorkerBroadcastMessage::Heartbeat { host, port } => {
                    &&& announce == !old(self).nodes.nodes().contains_key((host@, port))
                    &&& announce ==> final(self).nodes.nodes() == old(self).nodes.nodes().insert((host@, port), now)
                    &&& !announce ==> final(self).nodes == old(self).nodes
                },
                WorkerBroadcastMessage::Leave { host, port } => {
                    &&& !announce
                    &&& final(self).nodes.nodes() == old(self).nodes.nodes().remove((host@, port))
                },
            },
    {
        match message {
            WorkerBroadcastMessage::Heartbeat { host, port } => {
                let node: NodeAddress = (host, port);
                self.add_node(node, now)
            },
            WorkerBroadcastMessage::Leave { host, port } => {
                let node: NodeAddress = (host, port);
                self.remove_node(&node);
                false
            },
        }
    }
}

} // verus!
