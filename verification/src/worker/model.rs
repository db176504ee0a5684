//! The state of a worker and the decisions it takes.
//!
//! A worker can be reserved by one caller at a time, with a token; work is
//! only done under the reservation's token, and the reservation is released
//! afterwards. A worker that cannot do the work itself reserves another node
//! from its list and hands the work over. Times are monotonic clock readings
//! in milliseconds that the caller passes in.
use vstd::prelude::*;

use super::proto::{DeliverReply, DeliverRequest, PingReply, ReleaseReply, ReserveReply, WorkReply};
use super::broadcast::check_broadcast_address;
use crate::errors::AntsError;
use crate::multicast::agent::PeerAddr;
use crate::nodes::checkout::CheckedOutNode;
use crate::nodes::{address_view, clone_address, record_le, AddressView, NodeAddress, NodeList, NodeMetadata};
use crate::postbox::{body_kind, MessageBody, MessageKey, MessageKind, PostBox};
use crate::text::{decimal, push_decimal, push_str};

verus! {

/// How long, in milliseconds, a node has to answer a reservation request.
pub const RESERVE_TIMEOUT_MS: u64 = 500;

/// How many nodes are tried before a reservation gives up.
pub const RESERVE_ATTEMPTS: usize = 32;

/// How long, in milliseconds, a reservation is held if no work comes.
pub const RESERVATION_TIMEOUT_MS: u64 = 15000;

/// The name of a worker: `worker://host:port`.
pub open spec fn worker_name(address: AddressView) -> Seq<char> {
    "worker://"@ + address.0 + ":"@ + decimal(address.1 as nat)
}

/// A worker.
pub struct Worker {
    /// Where the worker listens.
    pub address: NodeAddress,
    /// The nodes the worker can hand work to.
    pub nodes: NodeList,
    /// The token of the current reservation; 0 when not reserved.
    pub reservation: u64,
    /// Whether work is being done.
    pub busy: bool,
    /// How long, in milliseconds, to wait for a node to do work.
    pub work_timeout: u64,
    /// Replies awaited by this worker.
    pub postbox: PostBox,
    /// The multicast group the worker broadcasts to.
    pub broadcast: PeerAddr,
}

impl Worker {
    /// A worker at `host:port` that knows the given nodes, all last used at
    /// `now`, and broadcasts to the group at `broadcast_host` and
    /// `broadcast_port`; `address` is `broadcast_host` read as an IP
    /// address, if it could be. Refused with
    /// [`AntsError::MulticasterAddressError`] when the host is no IP address or
    /// no multicast address.
    pub fn new(
        host: String,
        port: u16,
        nodes: Vec<NodeAddress>,
        broadcast_host: &str,
        broadcast_port: u16,
        address: Option<PeerAddr>,
        work_timeout: u64,
        now: u64,
    ) -> (r: Result<Self, AntsError>)
        ensures
            address is None ==> (r matches Err(AntsError::MulticasterAddressError(m)) && m@ == broadcast_host@
                + " is not a valid IP address."@),
            address is Some && !(address->0).spec_is_multicast() ==> (r matches Err(
                AntsError::MulticasterAddressError(m),
            ) && m@ == broadcast_host@ + ":"@ + decimal(broadcast_port as nat) + " is not a multicast address."@),
            r is Ok <==> address is Some && (address->0).spec_is_multicast(),
            r matches Ok(w) ==> {
                &&& w.nodes.wf()
                &&& w.postbox.wf()
                &&& w.address == (host, port)
                &&& w.broadcast == PeerAddr { port: broadcast_port, ..(address->0) }
                &&& w.reservation == 0
                &&& !w.busy
                &&& w.work_timeout == work_timeout
                &&& w.nodes.spec_clock() == now
                &&& forall|a: AddressView| #[trigger]
                    w.nodes.nodes().contains_key(a) <==> nodes@.map_values(|n: NodeAddress| address_view(n)).contains(a)
                &&& forall|a: AddressView| #[trigger] w.nodes.nodes().contains_key(a) ==> w.nodes.nodes()[a] == now
                &&& w.postbox.messages() == Map::<MessageKey, crate::postbox::Message>::empty()
            },
    {
        let broadcast = check_broadcast_address(broadcast_host, broadcast_port, address)?;
        Ok(
            Worker {
                address: (host, port),
                nodes: NodeList::from_vec(nodes, now),
                reservation: 0,
                busy: false,
                work_timeout,
                postbox: PostBox::new(),
                broadcast,
            },
        )
    }

    /// The worker's name, `worker://host:port`.
    pub fn name(&self) -> (s: String)
        ensures
            s@ == worker_name(address_view(self.address)),
    {
        let mut s = String::new();
        push_str(&mut s, "worker://");
        push_str(&mut s, self.address.0.as_str());
        push_str(&mut s, ":");
        push_decimal(&mut s, self.address.1 as u64);
        s
    }

    /// The worker's host.
    pub fn host(&self) -> (h: String)
        ensures
            h == self.address.0,
    {
        self.address.0.clone()
    }

    /// The worker's port.
    pub fn port(&self) -> (p: u16)
        ensures
            p == self.address.1,
    {
        self.address.1
    }

    /// Reserves the worker with the given token if it is not reserved.
    /// Returns the token when the reservation is taken.
    pub fn reserve_with(&mut self, token: u64) -> (r: Option<u64>)
        ensures
            old(self).reservation == 0 ==> r == Some(token) && final(self).reservation == token,
            old(self).reservation != 0 ==> r is None && final(self).reservation == old(self).reservation,
            final(self).busy == old(self).busy,
            final(self).address == old(self).address,
            final(self).nodes == old(self).nodes,
            final(self).postbox == old(self).postbox,
            final(self).work_timeout == old(self).work_timeout,
    {
        if self.reservation == 0 {
            self.reservation = token;
            Some(token)
        } else {
            None
        }
    }

    /// Reserves the worker with a fresh token if it is not reserved.
    pub fn reserve(&mut self) -> (r: Option<u64>)
        ensures
            r is Some <==> old(self).reservation == 0,
            r matches Some(t) ==> t != 0 && final(self).reservation == t,
            r is None ==> final(self).reservation == old(self).reservation,
            final(self).busy == old(self).busy,
            final(self).address == old(self).address,
            final(self).nodes == old(self).nodes,
            final(self).postbox == old(self).postbox,
            final(self).work_timeout == old(self).work_timeout,
    {
        let token = crate::token::generate_token();
        self.reserve_with(token)
    }

    /// Ends the reservation held with `token` when it has timed out, unless
    /// work has started under it. Returns whether the reservation was ended.
    pub fn expire_reservation(&mut self, token: u64) -> (r: bool)
        ensures
            r == (!old(self).busy && old(self).reservation == token),
            r ==> final(self).reservation == 0,
            !r ==> final(self).reservation == old(self).reservation,
            final(self).busy == old(self).busy,
            final(self).address == old(self).address,
            final(self).nodes == old(self).nodes,
            final(self).postbox == old(self).postbox,
            final(self).work_timeout == old(self).work_timeout,
    {
        if self.busy {
            false
        } else if self.reservation == token {
            self.reservation = 0;
            true
        } else {
            false
        }
    }

    /// Releases the reservation held with `token`.
    pub fn release(&mut self, token: u64) -> (r: Result<u64, AntsError>)
        ensures
            old(self).reservation == token ==> r == Ok::<u64, AntsError>(token) && final(self).reservation == 0,
            old(self).reservation != token ==> (r matches Err(AntsError::ReservationTokenMismatch))
                && final(self).reservation == old(self).reservation,
            final(self).busy == old(self).busy,
            final(self).address == old(self).address,
            final(self).nodes == old(self).nodes,
            final(self).postbox == old(self).postbox,
            final(self).work_timeout == old(self).work_timeout,
    {
        if self.reservation == token {
            self.reservation = 0;
            Ok(token)
        } else {
            Err(AntsError::ReservationTokenMismatch)
        }
    }

    /// Checks that work may be done under `token`.
    pub fn check_reservation(&self, token: u64) -> (r: Result<(), AntsError>)
        ensures
            r is Ok <==> self.reservation == token,
            r matches Err(e) ==> e matches AntsError::ReservationTokenMismatch,
    {
        if token != self.reservation {
            Err(AntsError::ReservationTokenMismatch)
        } else {
            Ok(())
        }
    }

    /// Marks the worker busy; refused if it already is.
    pub fn begin_work(&mut self) -> (r: Result<(), AntsError>)
        ensures
            r is Ok <==> !old(self).busy,
            r matches Err(e) ==> e matches AntsError::CalledWhileBusy,
            final(self).busy,
            final(self).reservation == old(self).reservation,
            final(self).address == old(self).address,
            final(self).nodes == old(self).nodes,
            final(self).postbox == old(self).postbox,
            final(self).work_timeout == old(self).work_timeout,
    {
        if self.busy {
            Err(AntsError::CalledWhileBusy)
        } else {
            self.busy = true;
            Ok(())
        }
    }

    /// Starts work under the reservation `token`: refused when the worker is
    /// not reserved at all, or reserved with another token (then nothing
    /// changes), or already busy; otherwise the worker is busy from now on.
    pub fn start_reserved_work(&mut self, token: u64) -> (r: Result<(), AntsError>)
        ensures
            old(self).reservation == 0 || old(self).reservation != token ==> (r matches Err(
                AntsError::ReservationTokenMismatch,
            )) && *final(self) == *old(self),
            old(self).reservation != 0 && old(self).reservation == token && old(self).busy ==> (r matches Err(
                AntsError::CalledWhileBusy,
            )) && final(self).busy,
            old(self).reservation != 0 && old(self).reservation == token && !old(self).busy ==> r is Ok
                && final(self).busy,
            final(self).reservation == old(self).reservation,
            final(self).address == old(self).address,
            final(self).nodes == old(self).nodes,
            final(self).postbox == old(self).postbox,
            final(self).work_timeout == old(self).work_timeout,
    {
        if self.reservation == 0 {
            return Err(AntsError::ReservationTokenMismatch);
        }
        self.check_reservation(token)?;
        self.begin_work()
    }

    /// Marks the worker no longer busy.
    pub fn end_work(&mut self)
        ensures
            !final(self).busy,
            final(self).reservation == old(self).reservation,
            final(self).address == old(self).address,
            final(self).nodes == old(self).nodes,
            final(self).postbox == old(self).postbox,
            final(self).work_timeout == old(self).work_timeout,
    {
        self.busy = false;
    }

    /// The answer to a ping.
    pub fn ping(&self) -> (r: PingReply)
        ensures
            r.status == if self.reservation == 0 {
                0i32
            } else {
                1i32
            },
    {
        PingReply {
            status: if self.reservation == 0 {
                0
            } else {
                1
            },
        }
    }

    /// The answer to a reservation request.
    pub fn answer_reserve(&mut self) -> (r: ReserveReply)
        ensures
            r.success == (old(self).reservation == 0),
            r.success ==> r.token != 0 && final(self).reservation == r.token,
            !r.success ==> r.token == 0 && final(self).reservation == old(self).reservation,
            final(self).busy == old(self).busy,
            final(self).address == old(self).address,
            final(self).nodes == old(self).nodes,
            final(self).postbox == old(self).postbox,
            final(self).work_timeout == old(self).work_timeout,
    {
        match self.reserve() {
            Some(token) => ReserveReply { success: true, token },
            None => ReserveReply { success: false, token: 0 },
        }
    }

    /// The answer to a release request.
    pub fn answer_release(&mut self, token: u64) -> (r: ReleaseReply)
        ensures
            r.success == (old(self).reservation == token),
            r.success ==> final(self).reservation == 0,
            !r.success ==> final(self).reservation == old(self).reservation,
            final(self).busy == old(self).busy,
            final(self).address == old(self).address,
            final(self).nodes == old(self).nodes,
            final(self).postbox == old(self).postbox,
            final(self).work_timeout == old(self).work_timeout,
    {
        ReleaseReply { success: self.release(token).is_ok() }
    }

    /// The answer to a delivered work result: the result is set on the
    /// message awaiting it, which may fail.
    pub fn answer_deliver(&mut self, request: DeliverRequest, now: u64) -> (r: DeliverReply)
        requires
            old(self).postbox.wf(),
        ensures
            final(self).postbox.wf(),
            r.token == request.token,
            r.task_id == request.task_id,
            r.success == (old(self).postbox.messages().contains_key(
                (MessageKind::Deliver, (request.token, request.task_id)),
            ) && old(self).postbox.messages()[(MessageKind::Deliver, (request.token, request.task_id))].spec_body() is None),
            ({
                let key = (MessageKind::Deliver, (request.token, request.task_id));
                let old_box = old(self).postbox.messages();
                let new_box = final(self).postbox.messages();
                &&& r.success ==> new_box.dom() == old_box.dom() && new_box[key].spec_key() == key
                    && new_box[key].spec_body() == Some((MessageBody::Deliver(request), now))
                    && forall|k: MessageKey| k != key && #[trigger] old_box.contains_key(k) ==> new_box[k] == old_box[k]
                &&& !r.success ==> new_box == old_box
            }),
            final(self).reservation == old(self).reservation,
            final(self).busy == old(self).busy,
            final(self).address == old(self).address,
            final(self).nodes == old(self).nodes,
            final(self).work_timeout == old(self).work_timeout,
    {
        let token = request.token;
        let task_id = request.task_id;
        let key = (MessageKind::Deliver, (token, task_id));
        let body = MessageBody::Deliver(request);
        proof {
            assert(body_kind(body) == MessageKind::Deliver);
        }
        let result = self.postbox.set_body(key, body, now);
        DeliverReply { token, task_id, success: result.is_ok() }
    }

    /// The answer to a work request: the task is started when its body could
    /// be read (`parsed` is `Ok`), otherwise the reading error is reported.
    pub fn answer_work(&self, token: u64, task_id: u64, parsed: Result<(), String>) -> (r: WorkReply)
        ensures
            r.token == token,
            r.task_id == task_id,
            r.worker@ == worker_name(address_view(self.address)),
            r.success == parsed is Ok,
            parsed is Ok ==> r.message@ == "Task spawned successfully."@,
            parsed matches Err(e) ==> r.message@ == "Work data is not valid: "@ + e@,
    {
        match parsed {
            Ok(()) => WorkReply {
                token,
                task_id,
                success: true,
                message: "Task spawned successfully.".to_owned(),
                worker: self.name(),
            },
            Err(e) => {
                let mut message = String::new();
                push_str(&mut message, "Work data is not valid: ");
                push_str(&mut message, e.as_str());
                WorkReply { token, task_id, success: false, message, worker: self.name() }
            },
        }
    }

    /// The result of a task to deliver: its serialised result, or the text
    /// of the error that stopped it.
    pub fn deliver_request(&self, token: u64, task_id: u64, outcome: Result<String, String>) -> (r: DeliverRequest)
        ensures
            r.token == token,
            r.task_id == task_id,
            r.worker@ == worker_name(address_view(self.address)),
            r.success == outcome is Ok,
            outcome matches Ok(b) ==> r.body == b && r.error@ == Seq::<char>::empty(),
            outcome matches Err(e) ==> r.error == e && r.body@ == Seq::<char>::empty(),
    {
        match outcome {
            Ok(body) => DeliverRequest { token, task_id, success: true, error: String::new(), body, worker: self.name() },
            Err(error) => DeliverRequest { token, task_id, success: false, error, body: String::new(), worker: self.name() },
        }
    }

    /// Adds a node to the list at `now`, unless it is there already.
    pub fn add_node(&mut self, node: NodeAddress, now: u64) -> (r: bool)
        requires
            old(self).nodes.wf(),
            now >= old(self).nodes.spec_clock(),
        ensures
            final(self).nodes.wf(),
            r == !old(self).nodes.nodes().contains_key(address_view(node)),
            r ==> final(self).nodes.nodes() == old(self).nodes.nodes().insert(address_view(node), now),
            !r ==> final(self).nodes == old(self).nodes,
            final(self).address == old(self).address,
    {
        self.nodes.insert(node, now)
    }

    /// Whether the node is in the list.
    pub fn has_node(&self, node: &NodeAddress) -> (r: bool)
        requires
            self.nodes.wf(),
        ensures
            r == self.nodes.nodes().contains_key(address_view(*node)),
    {
        self.nodes.contains(node)
    }

    /// Removes a node from the list.
    pub fn remove_node(&mut self, node: &NodeAddress)
        requires
            old(self).nodes.wf(),
        ensures
            final(self).nodes.wf(),
            final(self).nodes.nodes() == old(self).nodes.nodes().remove(address_view(*node)),
            final(self).nodes.spec_clock() == old(self).nodes.spec_clock(),
            final(self).address == old(self).address,
    {
        self.nodes.remove(node)
    }

    /// Takes the least recently used node out of the list.
    pub fn next_node(&mut self) -> (r: Option<NodeAddress>)
        requires
            old(self).nodes.wf(),
        ensures
            final(self).nodes.wf(),
            r is None ==> old(self).nodes.nodes() == Map::<AddressView, u64>::empty(),
            r matches Some(a) ==> old(self).nodes.nodes().contains_key(address_view(a)) && final(self).nodes.nodes() == old(self).nodes.nodes().remove(address_view(a)),
    {
        self.nodes.next()
    }

    /// Takes the least recently used node out of the list, with its metadata.
    pub fn next_node_with_metadata(&mut self) -> (r: Option<(NodeMetadata, NodeAddress)>)
        requires
            old(self).nodes.wf(),
        ensures
            final(self).nodes.wf(),
            r is None ==> old(self).nodes.nodes() == Map::<AddressView, u64>::empty(),
            r matches Some((m, a)) ==> old(self).nodes.nodes().contains_key(address_view(a))
                && m.spec_last_used() == old(self).nodes.nodes()[address_view(a)] && final(self).nodes.nodes() == old(self).nodes.nodes().remove(address_view(a)),
    {
        self.nodes.next_with_metadata()
    }

    /// Takes the least recently used node out of the list, with how long ago,
    /// at `now`, it was last used.
    pub fn next_node_with_duration(&mut self, now: u64) -> (r: Option<(u64, NodeAddress)>)
        requires
            old(self).nodes.wf(),
        ensures
            final(self).nodes.wf(),
            r is None ==> old(self).nodes.nodes() == Map::<AddressView, u64>::empty(),
            r matches Some((d, a)) ==> old(self).nodes.nodes().contains_key(address_view(a)) && d == (if now
                >= old(self).nodes.nodes()[address_view(a)] {
                now - old(self).nodes.nodes()[address_view(a)]
            } else {
                0
            }) && final(self).nodes.nodes() == old(self).nodes.nodes().remove(address_view(a)),
    {
        match self.nodes.next_with_metadata() {
            Some((m, a)) => {
                let t = m.last_used();
                Some((
                    if now >= t {
                        now - t
                    } else {
                        0
                    },
                    a,
                ))
            },
            None => None,
        }
    }
}

/// What to do next while looking for a node to reserve.
#[derive(Debug)]
pub enum ReserveAction {
    /// Wait this many milliseconds, then contact the checked out node.
    Contact { node: CheckedOutNode, wait: u64 },
    /// No node is available: wait this many milliseconds before the next attempt.
    Pause(u64),
    /// All attempts are spent.
    GiveUp,
}

/// A search for a node to reserve: at most [`RESERVE_ATTEMPTS`] attempts,
/// each with the least recently used node of the list.
pub struct NodeReservation {
    tries: usize,
}

/// How long to wait before contacting a node on attempt `tries` when it was
/// last used `since` milliseconds ago: after the first attempt, a node used
/// less than [`RESERVE_TIMEOUT_MS`] ago is left alone until that much time
/// has passed.
pub open spec fn contact_delay(tries: nat, since: u64) -> u64 {
    if tries > 0 && since < RESERVE_TIMEOUT_MS {
        (RESERVE_TIMEOUT_MS - since) as u64
    } else {
        0
    }
}

impl NodeReservation {
    /// The attempts made so far.
    pub closed spec fn spec_tries(self) -> nat {
        self.tries as nat
    }

    /// A search with no attempt made yet.
    pub fn new() -> (s: Self)
        ensures
            s.spec_tries() == 0,
    {
        NodeReservation { tries: 0 }
    }

    /// The attempts made so far.
    pub fn tries(&self) -> (n: usize)
        ensures
            n == self.spec_tries(),
    {
        self.tries
    }

    /// The next attempt at `now`: give up after [`RESERVE_ATTEMPTS`]
    /// attempts; otherwise check out the least recently used node, or pause
    /// when there is none.
    pub fn next_attempt(&mut self, nodes: &mut NodeList, now: u64) -> (r: ReserveAction)
        requires
            old(nodes).wf(),
            old(self).spec_tries() <= RESERVE_ATTEMPTS,
        ensures
            final(nodes).wf(),
            final(self).spec_tries() <= RESERVE_ATTEMPTS,
            final(nodes).spec_clock() == old(nodes).spec_clock(),
            old(self).spec_tries() == RESERVE_ATTEMPTS ==> r is GiveUp && final(self).spec_tries()
                == old(self).spec_tries() && *final(nodes) == *old(nodes),
            old(self).spec_tries() < RESERVE_ATTEMPTS ==> final(self).spec_tries() == old(self).spec_tries() + 1,
            old(self).spec_tries() < RESERVE_ATTEMPTS && old(nodes).nodes() == Map::<AddressView, u64>::empty()
                ==> r == ReserveAction::Pause(RESERVE_TIMEOUT_MS),
            old(self).spec_tries() < RESERVE_ATTEMPTS && old(nodes).nodes() != Map::<AddressView, u64>::empty()
                ==> r is Contact,
            r matches ReserveAction::Contact { node, wait } ==> {
                &&& old(self).spec_tries() < RESERVE_ATTEMPTS
                &&& node.spec_node() is Some
                &&& old(nodes).nodes().contains_key(address_view(node.spec_node()->0))
                &&& node.spec_metadata().spec_last_used() == old(nodes).nodes()[address_view(node.spec_node()->0)]
                &&& final(nodes).nodes() == old(nodes).nodes().remove(address_view(node.spec_node()->0))
                &&& forall|b: AddressView| #[trigger]
                    old(nodes).nodes().contains_key(b) ==> record_le(
                        (node.spec_metadata().spec_last_used(), address_view(node.spec_node()->0)),
                        (old(nodes).nodes()[b], b),
                    )
                &&& wait == contact_delay(
                    old(self).spec_tries(),
                    if now >= node.spec_metadata().spec_last_used() {
                        (now - node.spec_metadata().spec_last_used()) as u64
                    } else {
                        0
                    },
                )
            },
    {
        if self.tries >= RESERVE_ATTEMPTS {
            return ReserveAction::GiveUp;
        }
        let attempt = self.tries;
        self.tries = self.tries + 1;
        match nodes.checkout() {
            Some(node) => {
                let since = node.since_last_used(now);
                let wait = if attempt > 0 && since < RESERVE_TIMEOUT_MS {
                    RESERVE_TIMEOUT_MS - since
                } else {
                    0
                };
                ReserveAction::Contact { node, wait }
            },
            None => ReserveAction::Pause(RESERVE_TIMEOUT_MS),
        }
    }

    /// Concludes an attempt at `now`: the node goes back into the list, and
    /// the reservation is taken when the node answered with success.
    pub fn conclude(
        node: CheckedOutNode,
        nodes: &mut NodeList,
        now: u64,
        reply: Option<ReserveReply>,
    ) -> (r: Option<(NodeAddress, u64)>)
        requires
            node.spec_node() is Some,
            old(nodes).wf(),
            now >= old(nodes).spec_clock(),
        ensures
            final(nodes).wf(),
            final(nodes).nodes() == old(nodes).nodes().insert(address_view(node.spec_node()->0), now),
            r is Some <==> (reply matches Some(rep) && rep.success),
            r matches Some((a, t)) ==> a == node.spec_node()->0 && t == reply->0.token,
    {
        let address = node.complete(nodes, now);
        match reply {
            Some(rep) => {
                if rep.success {
                    Some((address, rep.token))
                } else {
                    None
                }
            },
            None => None,
        }
    }
}

/// How a node answered a work request.
#[derive(Debug, PartialEq, Eq, Structural)]
pub enum WorkVerdict {
    /// Accepted, with the task identifier.
    Accepted(u64),
    /// The node answered for another reservation.
    TokenMismatch,
    /// The node refused the work.
    Refused,
}

/// Judges a node's answer to a work request sent under `token`.
pub fn judge_work_reply(reply: &WorkReply, token: u64) -> (v: WorkVerdict)
    ensures
        reply.success && reply.token == token ==> v == WorkVerdict::Accepted(reply.task_id),
        reply.token != token ==> v == WorkVerdict::TokenMismatch,
        !reply.success && reply.token == token ==> v == WorkVerdict::Refused,
{
    if reply.success && reply.token == token {
        WorkVerdict::Accepted(reply.task_id)
    } else if reply.token != token {
        WorkVerdict::TokenMismatch
    } else {
        WorkVerdict::Refused
    }
}

/// Reads a delivered work result: the worker that did the work and the
/// serialised result, or `None` if the work failed there.
pub fn judge_delivery(delivery: &DeliverRequest) -> (r: Option<(String, String)>)
    ensures
        r is Some <==> delivery.success,
        r matches Some((w, b)) ==> w == delivery.worker && b == delivery.body,
{
    if delivery.success {
        Some((delivery.worker.clone(), delivery.body.clone()))
    } else {
        None
    }
}

/// What a worker does next to get a task done.
#[derive(Debug)]
pub enum DispatchAction {
    /// Try to reserve this worker.
    ReserveSelf,
    /// Do the work here, under this reservation token.
    WorkHere(u64),
    /// Reserve another node.
    ReserveNode,
    /// Send the work to the node reserved with this token.
    SendWork(NodeAddress, u64),
    /// Wait for the result delivered under this postbox key.
    AwaitDelivery(MessageKey),
    /// The work is done: the worker that did it, and the serialised result.
    Finish(String, String),
}

/// What happened since the last action.
#[derive(Debug)]
pub enum DispatchEvent {
    /// This worker was reserved with the token, or could not be.
    SelfReservation(Option<u64>),
    /// Another node was reserved with the token.
    NodeReservation(NodeAddress, u64),
    /// The node answered the work request.
    WorkReplied(WorkReply),
    /// The result was delivered.
    Delivered(DeliverRequest),
}

/// Getting one task done: this worker does it when it is free, otherwise
/// another node; whenever handing it over fails, this worker is tried first
/// again.
pub struct Dispatch {
    sent_under: u64,
}

impl Dispatch {
    /// The token the work was last sent under; 0 before it is sent.
    pub closed spec fn spec_sent_under(self) -> u64 {
        self.sent_under
    }

    /// A task not yet placed; the first action is [`DispatchAction::ReserveSelf`].
    pub fn new() -> (r: (Self, DispatchAction))
        ensures
            r.0.spec_sent_under() == 0,
            r.1 is ReserveSelf,
    {
        (Dispatch { sent_under: 0 }, DispatchAction::ReserveSelf)
    }

    /// The next action after `event`.
    pub fn step(&mut self, event: DispatchEvent) -> (a: DispatchAction)
        ensures
            match event {
                DispatchEvent::SelfReservation(Some(t)) => a == DispatchAction::WorkHere(t)
                    && final(self).spec_sent_under() == old(self).spec_sent_under(),
                DispatchEvent::SelfReservation(None) => a is ReserveNode && final(self).spec_sent_under()
                    == old(self).spec_sent_under(),
                DispatchEvent::NodeReservation(n, t) => a == DispatchAction::SendWork(n, t)
                    && final(self).spec_sent_under() == t,
                DispatchEvent::WorkReplied(r) => {
                    &&& final(self).spec_sent_under() == old(self).spec_sent_under()
                    &&& r.success && r.token == old(self).spec_sent_under() ==> a == DispatchAction::AwaitDelivery(
                        (MessageKind::Deliver, (r.token, r.task_id)),
                    )
                    &&& !(r.success && r.token == old(self).spec_sent_under()) ==> a is ReserveSelf
                },
                DispatchEvent::Delivered(d) => {
                    &&& final(self).spec_sent_under() == old(self).spec_sent_under()
                    &&& d.success ==> a == DispatchAction::Finish(d.worker, d.body)
                    &&& !d.success ==> a is ReserveSelf
                },
            },
    {
        match event {
            DispatchEvent::SelfReservation(Some(t)) => DispatchAction::WorkHere(t),
            DispatchEvent::SelfReservation(None) => DispatchAction::ReserveNode,
            DispatchEvent::NodeReservation(n, t) => {
                self.sent_under = t;
                DispatchAction::SendWork(n, t)
            },
            DispatchEvent::WorkReplied(r) => match judge_work_reply(&r, self.sent_under) {
                WorkVerdict::Accepted(task_id) => DispatchAction::AwaitDelivery(
                    (MessageKind::Deliver, (self.sent_under, task_id)),
                ),
                _ => DispatchAction::ReserveSelf,
            },
            DispatchEvent::Delivered(d) => match judge_delivery(&d) {
                Some((worker, body)) => DispatchAction::Finish(worker, body),
                None => DispatchAction::ReserveSelf,
            },
        }
    }
}

} // verus!
