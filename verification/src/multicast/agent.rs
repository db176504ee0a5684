//! The bookkeeping of a multicast agent: the messages it has seen, the
//! acknowledgements it has received, and what to do with an incoming message.
//!
//! Times are monotonic clock readings that the caller passes in.
use vstd::prelude::*;

use super::build_error;
use super::message::{kind_number, message_checksum, spec_parse_uuid, Kind, MessageView, MulticastMessage, Timestamp};
use crate::assoc::{
    assoc_map, has_key, lemma_assoc_empty, lemma_assoc_index, lemma_assoc_push, lemma_assoc_remove,
    lemma_assoc_update, unique_keys,
};

verus! {

/// The default size of a packet to receive: the largest multicast message
/// of IP over InfiniBand.
pub const DEFAULT_PACKET_SIZE: usize = 2043;

/// The default time-to-live of the messages an agent sends.
pub const DEFAULT_TTL: u32 = 1;

/// A socket address: an IP address (an IPv4 address in the low 32 bits when
/// `v6` is false) and a port.
#[derive(Clone, Copy, Debug, PartialEq, Eq, Structural)]
pub struct PeerAddr {
    pub ip: u128,
    pub v6: bool,
    pub port: u16,
}

impl PeerAddr {
    /// Whether the address is a multicast address: 224.0.0.0/4 for IPv4,
    /// ff00::/8 for IPv6.
    pub open spec fn spec_is_multicast(self) -> bool {
        if self.v6 {
            self.ip >= 0xff00_0000_0000_0000_0000_0000_0000_0000
        } else {
            0xe000_0000 <= self.ip <= 0xefff_ffff
        }
    }

    /// Whether the address is a multicast address.
    pub fn is_multicast(&self) -> (r: bool)
        ensures
            r == self.spec_is_multicast(),
            self.v6 ==> (r <==> (self.ip >> 120u128) == 0xffu128),
            !self.v6 ==> (r <==> (self.ip >> 28u128) == 0xeu128),
    {
        proof {
            lemma_multicast_by_top_bits(*self);
        }
        if self.v6 {
            self.ip >= 0xff00_0000_0000_0000_0000_0000_0000_0000
        } else {
            0xe000_0000 <= self.ip && self.ip <= 0xefff_ffff
        }
    }
}

/// An IPv6 address is a multicast address exactly when its top byte is
/// `0xff`; an IPv4 address exactly when its top four bits are `1110`.
pub proof fn lemma_multicast_by_top_bits(a: PeerAddr)
    ensures
        a.v6 ==> (a.spec_is_multicast() <==> (a.ip >> 120u128) == 0xffu128),
        !a.v6 ==> (a.spec_is_multicast() <==> (a.ip >> 28u128) == 0xeu128),
{
    let ip = a.ip;
    assert((ip >= 0xff00_0000_0000_0000_0000_0000_0000_0000u128) <==> ((ip >> 120u128) == 0xffu128))
        by (bit_vector);
    assert((0xe000_0000u128 <= ip && ip <= 0xefff_ffffu128) <==> ((ip >> 28u128) == 0xeu128))
        by (bit_vector);
}

/// The address that marks a message as sent by this very process:
/// 127.0.0.1, port 0. It is never used to send or receive.
pub open spec fn loopback_peer() -> PeerAddr {
    PeerAddr { ip: 0x7f000001, v6: false, port: 0 }
}

/// The loopback address, [`loopback_peer`].
pub fn loopback_address() -> (a: PeerAddr)
    ensures
        a == loopback_peer(),
{
    PeerAddr { ip: 0x7f000001, v6: false, port: 0 }
}

/// An acknowledgement: who sent it, and when it was received.
pub type Acknowledgement = (PeerAddr, u64);

/// A message and its acknowledgements as mathematical values.
pub open spec fn acks_view(e: (u128, Vec<Acknowledgement>)) -> (u128, Seq<Acknowledgement>) {
    (e.0, e.1@)
}

/// The multicast agent's records.
pub struct AgentBook {
    seen: Vec<(u128, (PeerAddr, u64))>,
    acknowledgements: Vec<(u128, Vec<Acknowledgement>)>,
    packet_size: usize,
    ttl: u32,
}

/// What an incoming message asks of the agent.
#[derive(Debug)]
pub enum Receipt {
    /// An acknowledgement of the message with this UUID; it has been recorded.
    Acknowledgement(u128),
    /// A message seen for the first time.
    Fresh {
        uuid: u128,
        /// The message is an origin or an echo, and should be acknowledged.
        acknowledge: bool,
        /// The echo to send on, if the message may travel further.
        echo: Option<MulticastMessage>,
        /// The message is a system message for the agent itself.
        system: bool,
    },
}

/// Why an incoming message was refused.
#[derive(Debug, PartialEq, Eq, Structural)]
pub enum ReceiptError {
    /// The message's UUID cannot be read.
    InvalidUuid,
    /// The message's kind is not a known kind.
    InvalidKind(i32),
    /// The message has been seen before.
    Duplicate(u128),
}

impl AgentBook {
    /// The messages seen, with who they came from and when.
    pub closed spec fn seen(self) -> Map<u128, (PeerAddr, u64)> {
        assoc_map(self.seen@)
    }

    /// The acknowledgements expected or received, by message.
    pub closed spec fn acknowledgements(self) -> Map<u128, Seq<Acknowledgement>> {
        assoc_map(self.acknowledgements@.map_values(|e: (u128, Vec<Acknowledgement>)| acks_view(e)))
    }

    /// The size of a packet to receive.
    pub closed spec fn spec_packet_size(self) -> usize {
        self.packet_size
    }

    /// The time-to-live of the messages the agent sends.
    pub closed spec fn spec_ttl(self) -> u32 {
        self.ttl
    }

    /// No message occurs twice in either table.
    pub closed spec fn wf(self) -> bool {
        &&& unique_keys(self.seen@)
        &&& unique_keys(
            self.acknowledgements@.map_values(|e: (u128, Vec<Acknowledgement>)| acks_view(e)),
        )
    }

    /// An agent's records with nothing seen, the default packet size and the
    /// default time-to-live.
    pub fn new() -> (b: Self)
        ensures
            b.wf(),
            b.seen() == Map::<u128, (PeerAddr, u64)>::empty(),
            b.acknowledgements() == Map::<u128, Seq<Acknowledgement>>::empty(),
            b.spec_packet_size() == DEFAULT_PACKET_SIZE,
            b.spec_ttl() == DEFAULT_TTL,
    {
        let b = AgentBook {
            seen: Vec::new(),
            acknowledgements: Vec::new(),
            packet_size: DEFAULT_PACKET_SIZE,
            ttl: DEFAULT_TTL,
        };
        proof {
            lemma_assoc_empty(b.seen@);
            let av = b.acknowledgements@.map_values(|e: (u128, Vec<Acknowledgement>)| acks_view(e));
            assert(av.len() == 0);
            lemma_assoc_empty(av);
        }
        b
    }

    /// The same records with another packet size.
    pub fn with_packet_size(self, packet_size: usize) -> (b: Self)
        ensures
            b.wf() == self.wf(),
            b.seen() == self.seen(),
            b.acknowledgements() == self.acknowledgements(),
            b.spec_packet_size() == packet_size,
            b.spec_ttl() == self.spec_ttl(),
    {
        let mut b = self;
        b.packet_size = packet_size;
        b
    }

    /// The same records with another time-to-live.
    pub fn with_ttl(self, ttl: u32) -> (b: Self)
        ensures
            b.wf() == self.wf(),
            b.seen() == self.seen(),
            b.acknowledgements() == self.acknowledgements(),
            b.spec_packet_size() == self.spec_packet_size(),
            b.spec_ttl() == ttl,
    {
        let mut b = self;
        b.ttl = ttl;
        b
    }

    /// The size of a packet to receive.
    pub fn packet_size(&self) -> (n: usize)
        ensures
            n == self.spec_packet_size(),
    {
        self.packet_size
    }

    /// The time-to-live of the messages the agent sends.
    pub fn ttl(&self) -> (t: u32)
        ensures
            t == self.spec_ttl(),
    {
        self.ttl
    }

    fn find_seen(&self, uuid: u128) -> (r: Option<usize>)
        requires
            self.wf(),
        ensures
            r is None <==> !self.seen().contains_key(uuid),
            r matches Some(i) ==> i < self.seen@.len() && self.seen@[i as int].0 == uuid,
    {
        let mut i: usize = 0;
        while i < self.seen.len()
            invariant
                0 <= i <= self.seen.len(),
                forall|j: int| 0 <= j < i ==> self.seen@[j].0 != uuid,
            decreases self.seen.len() - i,
        {
            if self.seen[i].0 == uuid {
                proof {
                    assert(has_key(self.seen@, uuid));
                }
                return Some(i);
            }
            i = i + 1;
        }
        proof {
            if has_key(self.seen@, uuid) {
                let j = choose|j: int| 0 <= j < self.seen@.len() && #[trigger] self.seen@[j].0 == uuid;
                assert(self.seen@[j].0 == uuid);
            }
        }
        None
    }

    /// Whether the message has been seen.
    pub fn has_seen(&self, uuid: u128) -> (r: bool)
        requires
            self.wf(),
        ensures
            r == self.seen().contains_key(uuid),
    {
        self.find_seen(uuid).is_some()
    }

    /// Marks the message as seen from `addr` at `now`. Returns `false`, and
    /// changes nothing, if it had been seen before.
    pub fn mark_seen(&mut self, uuid: u128, addr: PeerAddr, now: u64) -> (r: bool)
        requires
            old(self).wf(),
        ensures
            final(self).wf(),
            r == !old(self).seen().contains_key(uuid),
            r ==> final(self).seen() == old(self).seen().insert(uuid, (addr, now)),
            !r ==> final(self).seen() == old(self).seen(),
            final(self).acknowledgements() == old(self).acknowledgements(),
            final(self).spec_packet_size() == old(self).spec_packet_size(),
            final(self).spec_ttl() == old(self).spec_ttl(),
    {
        if self.has_seen(uuid) {
            false
        } else {
            proof {
                lemma_assoc_push(self.seen@, uuid, (addr, now));
            }
            self.seen.push((uuid, (addr, now)));
            true
        }
    }

    fn find_acks(&self, uuid: u128) -> (r: Option<usize>)
        requires
            self.wf(),
        ensures
            r is None <==> !self.acknowledgements().contains_key(uuid),
            r matches Some(i) ==> i < self.acknowledgements@.len() && self.acknowledgements@[i as int].0
                == uuid && self.acknowledgements().contains_key(uuid) && self.acknowledgements()[uuid]
                == self.acknowledgements@[i as int].1@,
    {
        let ghost av = self.acknowledgements@.map_values(|e: (u128, Vec<Acknowledgement>)| acks_view(e));
        let mut i: usize = 0;
        while i < self.acknowledgements.len()
            invariant
                0 <= i <= self.acknowledgements.len(),
                av == self.acknowledgements@.map_values(|e: (u128, Vec<Acknowledgement>)| acks_view(e)),
                self.wf(),
                forall|j: int| 0 <= j < i ==> self.acknowledgements@[j].0 != uuid,
            decreases self.acknowledgements.len() - i,
        {
            if self.acknowledgements[i].0 == uuid {
                proof {
                    assert(av[i as int] == acks_view(self.acknowledgements@[i as int]));
                    lemma_assoc_index(av, i as int);
                }
                return Some(i);
            }
            i = i + 1;
        }
        proof {
            if has_key(av, uuid) {
                let j = choose|j: int| 0 <= j < av.len() && #[trigger] av[j].0 == uuid;
                assert(av[j] == acks_view(self.acknowledgements@[j]));
            }
        }
        None
    }

    /// Makes sure acknowledgements are kept for the message: if `sender` is
    /// given, it is recorded as having acknowledged at `now`; if not, an empty
    /// list is started unless there is one already.
    pub fn ensures_acknowledgement_for(&mut self, uuid: u128, sender: Option<PeerAddr>, now: u64)
        requires
            old(self).wf(),
        ensures
            final(self).wf(),
            final(self).seen() == old(self).seen(),
            final(self).spec_packet_size() == old(self).spec_packet_size(),
            final(self).spec_ttl() == old(self).spec_ttl(),
            final(self).acknowledgements() == (match sender {
                Some(s) => if old(self).acknowledgements().contains_key(uuid) {
                    old(self).acknowledgements().insert(
                        uuid,
                        old(self).acknowledgements()[uuid].push((s, now)),
                    )
                } else {
                    old(self).acknowledgements().insert(uuid, seq![(s, now)])
                },
                None => if old(self).acknowledgements().contains_key(uuid) {
                    old(self).acknowledgements()
                } else {
                    old(self).acknowledgements().insert(uuid, Seq::<Acknowledgement>::empty())
                },
            }),
    {
        let ghost av = self.acknowledgements@.map_values(|e: (u128, Vec<Acknowledgement>)| acks_view(e));
        match self.find_acks(uuid) {
            Some(i) => {
                match sender {
                    Some(s) => {
                        let (key, mut list) = self.acknowledgements.remove(i);
                        list.push((s, now));
                        self.acknowledgements.insert(i, (key, list));
                        proof {
                            let nv = self.acknowledgements@.map_values(
                                |e: (u128, Vec<Acknowledgement>)| acks_view(e),
                            );
                            assert(av[i as int] == acks_view(old(self).acknowledgements@[i as int]));
                            assert(nv =~= av.update(i as int, (uuid, av[i as int].1.push((s, now)))));
                            lemma_assoc_index(av, i as int);
                            lemma_assoc_update(av, i as int, av[i as int].1.push((s, now)));
                        }
                    },
                    None => {},
                }
            },
            None => {
                let list = match sender {
                    Some(s) => {
                        let mut l: Vec<Acknowledgement> = Vec::new();
                        l.push((s, now));
                        l
                    },
                    None => Vec::new(),
                };
                let ghost lv = list@;
                self.acknowledgements.push((uuid, list));
                proof {
                    let nv = self.acknowledgements@.map_values(
                        |e: (u128, Vec<Acknowledgement>)| acks_view(e),
                    );
                    assert(nv =~= av.push((uuid, lv)));
                    lemma_assoc_push(av, uuid, lv);
                    match sender {
                        Some(s) => {
                            assert(lv =~= seq![(s, now)]);
                        },
                        None => {
                            assert(lv =~= Seq::<Acknowledgement>::empty());
                        },
                    }
                }
            },
        }
    }

    /// Records that `sender` acknowledged the message at `now`.
    pub fn acknowledge(&mut self, uuid: u128, sender: PeerAddr, now: u64)
        requires
            old(self).wf(),
        ensures
            final(self).wf(),
            final(self).spec_packet_size() == old(self).spec_packet_size(),
            final(self).spec_ttl() == old(self).spec_ttl(),
            final(self).seen() == old(self).seen(),
            final(self).acknowledgements() == if old(self).acknowledgements().contains_key(uuid) {
                old(self).acknowledgements().insert(
                    uuid,
                    old(self).acknowledgements()[uuid].push((sender, now)),
                )
            } else {
                old(self).acknowledgements().insert(uuid, seq![(sender, now)])
            },
    {
        self.ensures_acknowledgement_for(uuid, Some(sender), now);
    }

    /// Starts expecting acknowledgements for the message.
    pub fn expects_acknowledgement_for(&mut self, uuid: u128)
        requires
            old(self).wf(),
        ensures
            final(self).wf(),
            final(self).spec_packet_size() == old(self).spec_packet_size(),
            final(self).spec_ttl() == old(self).spec_ttl(),
            final(self).seen() == old(self).seen(),
            final(self).acknowledgements() == if old(self).acknowledgements().contains_key(uuid) {
                old(self).acknowledgements()
            } else {
                old(self).acknowledgements().insert(uuid, Seq::<Acknowledgement>::empty())
            },
    {
        self.ensures_acknowledgement_for(uuid, None, 0);
    }

    /// Whether acknowledgements are kept for the message.
    pub fn is_expecting_acknowledgement_for(&self, uuid: u128) -> (r: bool)
        requires
            self.wf(),
        ensures
            r == self.acknowledgements().contains_key(uuid),
    {
        self.find_acks(uuid).is_some()
    }

    /// Stops keeping acknowledgements for the message, and returns them.
    pub fn remove_acknowledgements_for(&mut self, uuid: u128) -> (r: Option<Vec<Acknowledgement>>)
        requires
            old(self).wf(),
        ensures
            final(self).wf(),
            final(self).spec_packet_size() == old(self).spec_packet_size(),
            final(self).spec_ttl() == old(self).spec_ttl(),
            final(self).seen() == old(self).seen(),
            final(self).acknowledgements() == old(self).acknowledgements().remove(uuid),
            r is Some <==> old(self).acknowledgements().contains_key(uuid),
            r matches Some(v) ==> v@ == old(self).acknowledgements()[uuid],
    {
        let ghost av = self.acknowledgements@.map_values(|e: (u128, Vec<Acknowledgement>)| acks_view(e));
        match self.find_acks(uuid) {
            Some(i) => {
                let (_, list) = self.acknowledgements.remove(i);
                proof {
                    let nv = self.acknowledgements@.map_values(
                        |e: (u128, Vec<Acknowledgement>)| acks_view(e),
                    );
                    assert(nv =~= av.remove(i as int));
                    assert(av[i as int] == acks_view(old(self).acknowledgements@[i as int]));
                    lemma_assoc_remove(av, i as int);
                }
                Some(list)
            },
            None => {
                proof {
                    assert(self.acknowledgements() =~= self.acknowledgements().remove(uuid));
                }
                None
            },
        }
    }

    /// A copy of the acknowledgements received for the message.
    pub fn get_acknowledgements_for(&self, uuid: u128) -> (r: Option<Vec<Acknowledgement>>)
        requires
            self.wf(),
        ensures
            r is Some <==> self.acknowledgements().contains_key(uuid),
            r matches Some(v) ==> v@ == self.acknowledgements()[uuid],
    {
        match self.find_acks(uuid) {
            Some(i) => {
                let src = &self.acknowledgements[i].1;
                let mut out: Vec<Acknowledgement> = Vec::new();
                let mut j: usize = 0;
                while j < src.len()
                    invariant
                        0 <= j <= src.len(),
                        out@ == src@.take(j as int),
                    decreases src.len() - j,
                {
                    out.push(src[j]);
                    j = j + 1;
                    assert(out@ =~= src@.take(j as int));
                }
                assert(src@.take(src.len() as int) =~= src@);
                Some(out)
            },
            None => None,
        }
    }

    /// The number of acknowledgements received for the message.
    pub fn count_acknowledgements_for(&self, uuid: u128) -> (r: Option<usize>)
        requires
            self.wf(),
        ensures
            r is Some <==> self.acknowledgements().contains_key(uuid),
            r matches Some(n) ==> n == self.acknowledgements()[uuid].len(),
    {
        match self.find_acks(uuid) {
            Some(i) => Some(self.acknowledgements[i].1.len()),
            None => None,
        }
    }

    /// Whether `sender` has acknowledged the message; `None` if no
    /// acknowledgements are kept for it.
    pub fn has_acknowledged(&self, uuid: u128, sender: PeerAddr) -> (r: Option<bool>)
        requires
            self.wf(),
        ensures
            r is Some <==> self.acknowledgements().contains_key(uuid),
            r matches Some(b) ==> b == exists|k: int|
                0 <= k < self.acknowledgements()[uuid].len()
                    && #[trigger] self.acknowledgements()[uuid][k].0 == sender,
    {
        match self.find_acks(uuid) {
            Some(i) => Some(acknowledged_by(&self.acknowledgements[i].1, sender)),
            None => None,
        }
    }

    /// The expected senders, in order, that have not acknowledged the message;
    /// `None` if no acknowledgements are kept for it.
    pub fn all_acknowledged(&self, uuid: u128, expected: &Vec<PeerAddr>) -> (r: Option<Vec<PeerAddr>>)
        requires
            self.wf(),
        ensures
            r is Some <==> self.acknowledgements().contains_key(uuid),
            r matches Some(v) ==> v@ == expected@.filter(unacknowledged(self.acknowledgements()[uuid])),
    {
        match self.find_acks(uuid) {
            Some(i) => {
                let acks = &self.acknowledgements[i].1;
                let ghost pred = unacknowledged(acks@);
                let mut out: Vec<PeerAddr> = Vec::new();
                let mut j: usize = 0;
                while j < expected.len()
                    invariant
                        0 <= j <= expected.len(),
                        out@ == expected@.take(j as int).filter(pred),
                        pred == unacknowledged(acks@),
                    decreases expected.len() - j,
                {
                    let p = expected[j];
                    let done = acknowledged_by(acks, p);
                    if !done {
                        out.push(p);
                    }
                    proof {
                        assert(pred(p) == !done);
                        assert(expected@.take(j + 1) =~= expected@.take(j as int).push(p));
                        expected@.take(j as int).lemma_filter_push(p, pred);
                    }
                    j = j + 1;
                }
                assert(expected@.take(expected.len() as int) =~= expected@);
                Some(out)
            },
            None => None,
        }
    }

    /// The message that sends `body` to the group as a new origin, under
    /// `uuid`, with the agent's time-to-live.
    pub fn origin_message(&self, uuid: u128, body: String, timestamp: Timestamp) -> (m: MulticastMessage)
        ensures
            spec_parse_uuid(m@.uuid) == Some(uuid),
            m@.kind == kind_number(Kind::Origin),
            m@.timestamp == Some((timestamp.seconds, timestamp.nanos)),
            m@.body == body@,
            m@.ttl == self.spec_ttl(),
            m@.checksum == message_checksum(m@),
    {
        MulticastMessage::new(uuid, Kind::Origin, body, Some(self.ttl), timestamp)
    }

    /// The acknowledgement of the message `uuid`: an empty message of kind
    /// `Acknowledge` that goes no further than the group.
    pub fn acknowledgement_message(uuid: u128, timestamp: Timestamp) -> (m: MulticastMessage)
        ensures
            spec_parse_uuid(m@.uuid) == Some(uuid),
            m@.kind == kind_number(Kind::Acknowledge),
            m@.timestamp == Some((timestamp.seconds, timestamp.nanos)),
            m@.body.len() == 0,
            m@.ttl == 0,
            m@.checksum == message_checksum(m@),
    {
        MulticastMessage::new(uuid, Kind::Acknowledge, String::new(), Some(0), timestamp)
    }

    /// What sending a message means for the records: unless the message is
    /// looped back to this agent, it is marked as seen (from the loopback
    /// address) and acknowledgements for it are expected.
    pub fn prepare_send(&mut self, uuid: u128, loopback: bool, now: u64)
        requires
            old(self).wf(),
        ensures
            final(self).wf(),
            final(self).spec_packet_size() == old(self).spec_packet_size(),
            final(self).spec_ttl() == old(self).spec_ttl(),
            loopback ==> final(self).seen() == old(self).seen() && final(self).acknowledgements()
                == old(self).acknowledgements(),
            !loopback ==> final(self).seen() == if old(self).seen().contains_key(uuid) {
                old(self).seen()
            } else {
                old(self).seen().insert(uuid, (loopback_peer(), now))
            },
            !loopback ==> final(self).acknowledgements() == if old(self).acknowledgements().contains_key(
                uuid,
            ) {
                old(self).acknowledgements()
            } else {
                old(self).acknowledgements().insert(uuid, Seq::<Acknowledgement>::empty())
            },
    {
        if !loopback {
            let _ = self.mark_seen(uuid, loopback_address(), now);
            self.expects_acknowledgement_for(uuid);
        }
    }

    /// Takes in a message received from `sender` at `now`.
    ///
    /// An acknowledgement is recorded whether or not its message has been
    /// seen. Any other message is refused if it has been seen before;
    /// otherwise it is marked as seen, and the receipt says whether to
    /// acknowledge it (origins and echoes), the echo to send on, and whether
    /// it is a system message.
    pub fn receive(&mut self, message: &MulticastMessage, sender: PeerAddr, now: u64) -> (r: Result<
        Receipt,
        ReceiptError,
    >)
        requires
            old(self).wf(),
        ensures
            final(self).wf(),
            final(self).spec_packet_size() == old(self).spec_packet_size(),
            final(self).spec_ttl() == old(self).spec_ttl(),
            spec_parse_uuid(message@.uuid) is None ==> r == Err::<Receipt, ReceiptError>(
                ReceiptError::InvalidUuid,
            ) && *final(self) == *old(self),
            spec_parse_uuid(message@.uuid) matches Some(u) ==> {
                let kind = super::message::kind_of_number(message@.kind);
                &&& kind is None ==> r == Err::<Receipt, ReceiptError>(
                    ReceiptError::InvalidKind(message@.kind),
                ) && *final(self) == *old(self)
                &&& kind == Some(Kind::Acknowledge) ==> (r matches Ok(Receipt::Acknowledgement(v))
                    && v == u) && final(self).seen() == old(self).seen()
                    && final(self).acknowledgements() == if old(self).acknowledgements().contains_key(u) {
                    old(self).acknowledgements().insert(
                        u,
                        old(self).acknowledgements()[u].push((sender, now)),
                    )
                } else {
                    old(self).acknowledgements().insert(u, seq![(sender, now)])
                }
                &&& (kind is Some && kind != Some(Kind::Acknowledge) && old(self).seen().contains_key(u))
                    ==> r == Err::<Receipt, ReceiptError>(ReceiptError::Duplicate(u)) && final(self).seen() == old(self).seen() && final(self).acknowledgements() == old(self).acknowledgements()
                &&& (kind is Some && kind != Some(Kind::Acknowledge) && !old(self).seen().contains_key(u))
                    ==> final(self).seen() == old(self).seen().insert(u, (sender, now)) && final(self).acknowledgements() == old(self).acknowledgements() && (r matches Ok(
                    Receipt::Fresh { uuid, acknowledge, echo, system },
                ) && uuid == u && acknowledge == (kind == Some(Kind::Origin) || kind == Some(Kind::Echo))
                    && system == (kind == Some(Kind::System)) && (echo is None <==> message@.ttl == 0)
                    && (echo matches Some(e) ==> e@ == echo_view(message@)))
            },
    {
        let uuid = match message.uuid() {
            Ok(u) => u,
            Err(_) => {
                return Err(ReceiptError::InvalidUuid);
            },
        };
        let kind = match Kind::try_from_i32(message.kind) {
            Some(k) => k,
            None => {
                return Err(ReceiptError::InvalidKind(message.kind));
            },
        };
        if kind == Kind::Acknowledge {
            self.acknowledge(uuid, sender, now);
            return Ok(Receipt::Acknowledgement(uuid));
        }
        if !self.mark_seen(uuid, sender, now) {
            return Err(ReceiptError::Duplicate(uuid));
        }
        let echo = message.echo();
        let acknowledge = kind == Kind::Origin || kind == Kind::Echo;
        let system = kind == Kind::System;
        Ok(Receipt::Fresh { uuid, acknowledge, echo, system })
    }
}

/// Whether a sender is missing from a list of acknowledgements.
pub open spec fn unacknowledged(acks: Seq<Acknowledgement>) -> spec_fn(PeerAddr) -> bool {
    |p: PeerAddr| !(exists|k: int| 0 <= k < acks.len() && #[trigger] acks[k].0 == p)
}

/// What the echo of a message with a time-to-live above 0 is: the message
/// of kind `Echo` with one less time-to-live and the checksum of these.
pub open spec fn echo_view(m: MessageView) -> MessageView {
    let e = MessageView {
        uuid: m.uuid,
        kind: kind_number(Kind::Echo),
        timestamp: m.timestamp,
        body: m.body,
        ttl: (m.ttl - 1) as u32,
        checksum: 0,
    };
    MessageView { checksum: message_checksum(e), ..e }
}

fn acknowledged_by(acks: &Vec<Acknowledgement>, sender: PeerAddr) -> (r: bool)
    ensures
        r == exists|k: int| 0 <= k < acks@.len() && #[trigger] acks@[k].0 == sender,
{
    let mut i: usize = 0;
    while i < acks.len()
        invariant
            0 <= i <= acks.len(),
            forall|k: int| 0 <= k < i ==> acks@[k].0 != sender,
        decreases acks.len() - i,
    {
        if acks[i].0 == sender {
            return true;
        }
        i = i + 1;
    }
    false
}

} // verus!
