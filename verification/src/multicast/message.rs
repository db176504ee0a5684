//! The multicast message: its fields, its checksum, its echo and its UUID.
use vstd::prelude::*;

use super::build_error;
use crate::text::push_str;

verus! {

/// A point in time: seconds and nanoseconds since the Unix epoch.
#[derive(Clone, Copy, Debug, PartialEq, Eq, Structural)]
pub struct Timestamp {
    pub seconds: i64,
    pub nanos: i32,
}

/// The kind of a multicast message.
#[derive(Clone, Copy, Debug, PartialEq, Eq, Structural)]
pub enum Kind {
    /// A message from its original sender.
    Origin,
    /// A message passed on by an agent that received it.
    Echo,
    /// An acknowledgement of a message.
    Acknowledge,
    /// A message meant for the agents themselves.
    System,
}

/// The number that stands for a kind in a message.
pub open spec fn kind_number(k: Kind) -> i32 {
    match k {
        Kind::Origin => 0,
        Kind::Echo => 1,
        Kind::Acknowledge => 2,
        Kind::System => 3,
    }
}

/// The kind that a number stands for, if any.
pub open spec fn kind_of_number(n: i32) -> Option<Kind> {
    if n == 0 {
        Some(Kind::Origin)
    } else if n == 1 {
        Some(Kind::Echo)
    } else if n == 2 {
        Some(Kind::Acknowledge)
    } else if n == 3 {
        Some(Kind::System)
    } else {
        None
    }
}

impl Kind {
    /// The number that stands for this kind.
    pub fn to_i32(self) -> (n: i32)
        ensures
            n == kind_number(self),
            kind_of_number(n) == Some(self),
    {
        match self {
            Kind::Origin => 0,
            Kind::Echo => 1,
            Kind::Acknowledge => 2,
            Kind::System => 3,
        }
    }

    /// The kind that `n` stands for, if any.
    pub fn try_from_i32(n: i32) -> (k: Option<Kind>)
        ensures
            k == kind_of_number(n),
    {
        if n == 0 {
            Some(Kind::Origin)
        } else if n == 1 {
            Some(Kind::Echo)
        } else if n == 2 {
            Some(Kind::Acknowledge)
        } else if n == 3 {
            Some(Kind::System)
        } else {
            None
        }
    }
}

/// A multicast message.
#[derive(Debug, Clone, PartialEq, Eq)]
pub struct MulticastMessage {
    pub uuid: String,
    pub kind: i32,
    pub timestamp: Option<Timestamp>,
    pub body: String,
    pub ttl: u32,
    pub checksum: u64,
}

/// A multicast message as a mathematical value.
pub struct MessageView {
    pub uuid: Seq<char>,
    pub kind: i32,
    pub timestamp: Option<(i64, i32)>,
    pub body: Seq<char>,
    pub ttl: u32,
    pub checksum: u64,
}

/// A timestamp as seconds and nanoseconds.
pub open spec fn timestamp_view(t: Option<Timestamp>) -> Option<(i64, i32)> {
    match t {
        Some(t) => Some((t.seconds, t.nanos)),
        None => None,
    }
}

impl View for MulticastMessage {
    type V = MessageView;

    open spec fn view(&self) -> MessageView {
        MessageView {
            uuid: self.uuid@,
            kind: self.kind,
            timestamp: timestamp_view(self.timestamp),
            body: self.body@,
            ttl: self.ttl,
            checksum: self.checksum,
        }
    }
}

/// The checksum that `std::hash::DefaultHasher` computes over a message's
/// UUID, kind, timestamp, body and time-to-live, hashed in that order.
pub uninterp spec fn spec_components_checksum(
    uuid: Seq<char>,
    kind: i32,
    timestamp: Option<(i64, i32)>,
    body: Seq<char>,
    ttl: u32,
) -> u64;

/// The checksum a message should carry.
pub open spec fn message_checksum(m: MessageView) -> u64 {
    spec_components_checksum(m.uuid, m.kind, m.timestamp, m.body, m.ttl)
}

/// The checksum of a message's components.
///
/// Trusted: hashes the tuple of the UUID (`&str`), the kind (`i32`), the
/// timestamp (`Option<&prost_types::Timestamp>`, whose `Hash` writes seconds
/// then nanos) the body (`&str`) and the time-to-live (`u32`) with
/// `BuildHasher::hash_one` of `BuildHasherDefault<DefaultHasher>`, which
/// feeds them in that order to a `DefaultHasher::default()` (the same as
/// `DefaultHasher::new()`) and returns `finish()`. The result is named: every
/// such hasher starts from the same keys, so one build of the library gives
/// the same checksum for the same components wherever it runs; different
/// releases of Rust, or targets of another byte order, may give different
/// checksums, which nothing here states.
#[verifier::external_body]
pub fn multicast_message_components_checksum(
    uuid: &str,
    kind: i32,
    timestamp: Option<Timestamp>,
    body: &str,
    ttl: u32,
) -> (r: u64)
    ensures
        r == spec_components_checksum(uuid@, kind, timestamp_view(timestamp), body@, ttl),
{
    let timestamp = timestamp.map(|t| prost_types::Timestamp { seconds: t.seconds, nanos: t.nanos });
    let build = std::hash::BuildHasherDefault::<std::hash::DefaultHasher>::default();
    std::hash::BuildHasher::hash_one(&build, (uuid, kind, timestamp.as_ref(), body, ttl))
}

/// The UUID that a text names, as `uuid::Uuid::parse_str` reads it.
pub uninterp spec fn spec_parse_uuid(text: Seq<char>) -> Option<u128>;

/// The lower-case hexadecimal digit of a value below 16.
pub open spec fn hex_char(d: nat) -> char {
    if d < 10 {
        ((d + 48) as u32) as char
    } else {
        ((d + 87) as u32) as char
    }
}

/// Which of the 32 hexadecimal digits of a UUID stands at position `i` of
/// its hyphenated text.
pub open spec fn hex_index(i: int) -> int {
    if i < 8 {
        i
    } else if i < 13 {
        i - 1
    } else if i < 18 {
        i - 2
    } else if i < 23 {
        i - 3
    } else {
        i - 4
    }
}

/// The hyphenated lower-case text of a UUID: its 32 hexadecimal digits, most
/// significant first, in groups of 8, 4, 4, 4 and 12 joined by `-`.
pub open spec fn uuid_hyphenated(uuid: u128) -> Seq<char> {
    Seq::new(
        36,
        |i: int|
            if i == 8 || i == 13 || i == 18 || i == 23 {
                '-'
            } else {
                hex_char(((uuid >> ((124 - 4 * hex_index(i)) as u32)) & 15u128) as nat)
            },
    )
}

/// Reads a UUID from text: its 128-bit value, or the text of the reading
/// error.
///
/// Trusted: calls `uuid::Uuid::parse_str`; returns the UUID's `as_u128`, or
/// the error's `to_string`. Nothing is stated of the error text.
#[verifier::external_body]
pub(crate) fn parse_uuid(text: &str) -> (r: Result<u128, String>)
    ensures
        r is Ok <==> spec_parse_uuid(text@) is Some,
        r matches Ok(u) ==> spec_parse_uuid(text@) == Some(u),
{
    match uuid::Uuid::parse_str(text) {
        Ok(u) => Ok(u.as_u128()),
        Err(e) => Err(e.to_string()),
    }
}

/// The text of a UUID.
///
/// Trusted: calls `to_string` on `uuid::Uuid::from_u128(uuid)`, which takes
/// the value's big-endian bytes and, through `Display`, writes their
/// hyphenated lower-case hexadecimal form; `uuid::Uuid::parse_str` reads that
/// form back, as the uuid documentation states.
#[verifier::external_body]
pub(crate) fn uuid_text(uuid: u128) -> (r: String)
    ensures
        r@ == uuid_hyphenated(uuid),
        spec_parse_uuid(r@) == Some(uuid),
{
    uuid::Uuid::from_u128(uuid).to_string()
}

impl MulticastMessage {
    /// A message with the given UUID, kind, body, time-to-live (0 if none)
    /// and timestamp, carrying the checksum of these.
    pub fn new(uuid: u128, kind: Kind, body: String, ttl: Option<u32>, timestamp: Timestamp) -> (m: Self)
        ensures
            m@.uuid == uuid_hyphenated(uuid),
            spec_parse_uuid(m@.uuid) == Some(uuid),
            m@.kind == kind_number(kind),
            m@.timestamp == Some((timestamp.seconds, timestamp.nanos)),
            m@.body == body@,
            m@.ttl == (match ttl {
                Some(t) => t,
                None => 0,
            }),
            m@.checksum == message_checksum(m@),
    {
        let ttl = match ttl {
            Some(t) => t,
            None => 0,
        };
        let uuid = uuid_text(uuid);
        let kind = kind.to_i32();
        let checksum = multicast_message_components_checksum(
            uuid.as_str(),
            kind,
            Some(timestamp),
            body.as_str(),
            ttl,
        );
        MulticastMessage { uuid, kind, timestamp: Some(timestamp), body, ttl, checksum }
    }

    /// The checksum the message should carry.
    pub fn generate_checksum(&self) -> (c: u64)
        ensures
            c == message_checksum(self@),
    {
        multicast_message_components_checksum(
            self.uuid.as_str(),
            self.kind,
            self.timestamp,
            self.body.as_str(),
            self.ttl,
        )
    }

    /// The message with its checksum set to the one it should carry.
    pub fn regenerate_checksum(self) -> (m: Self)
        ensures
            m@.uuid == self@.uuid,
            m@.kind == self@.kind,
            m@.timestamp == self@.timestamp,
            m@.body == self@.body,
            m@.ttl == self@.ttl,
            m@.checksum == message_checksum(self@),
    {
        let mut m = self;
        m.checksum = m.generate_checksum();
        m
    }

    /// Succeeds exactly when the message carries the checksum it should.
    pub fn validate_checksum(&self) -> (r: Result<(), std::io::Error>)
        ensures
            r is Ok <==> self@.checksum == message_checksum(self@),
    {
        if self.checksum == self.generate_checksum() {
            Ok(())
        } else {
            Err(build_error("Checksum validation for message failed."))
        }
    }

    /// The body of a message that carries the checksum it should; an error
    /// otherwise. Reading the body into a value starts here.
    pub fn checked_body(&self) -> (r: Result<&str, std::io::Error>)
        ensures
            r is Ok <==> self@.checksum == message_checksum(self@),
            r matches Ok(b) ==> b@ == self@.body,
    {
        match self.validate_checksum() {
            Ok(()) => Ok(self.body.as_str()),
            Err(e) => Err(e),
        }
    }

    /// The message passed on once more: `None` when its time-to-live is 0,
    /// otherwise the same message of kind `Echo` with one less time-to-live,
    /// carrying the checksum of these, so that it passes validation.
    pub fn echo(&self) -> (r: Option<MulticastMessage>)
        ensures
            self@.ttl == 0 <==> r is None,
            r matches Some(e) ==> {
                &&& e@.uuid == self@.uuid
                &&& e@.kind == kind_number(Kind::Echo)
                &&& e@.timestamp == self@.timestamp
                &&& e@.body == self@.body
                &&& e@.ttl == self@.ttl - 1
                &&& e@.checksum == message_checksum(e@)
            },
    {
        if self.ttl == 0 {
            return None;
        }
        let echo = MulticastMessage {
            uuid: self.uuid.clone(),
            kind: Kind::Echo.to_i32(),
            timestamp: self.timestamp,
            body: self.body.clone(),
            ttl: self.ttl - 1,
            checksum: 0,
        };
        Some(echo.regenerate_checksum())
    }

    /// The UUID the message carries.
    pub fn uuid(&self) -> (r: Result<u128, std::io::Error>)
        ensures
            r is Ok <==> spec_parse_uuid(self@.uuid) is Some,
            r matches Ok(u) ==> spec_parse_uuid(self@.uuid) == Some(u),
    {
        match parse_uuid(self.uuid.as_str()) {
            Ok(u) => Ok(u),
            Err(e) => {
                let mut message = String::new();
                push_str(&mut message, "Failed to parse ");
                push_str(&mut message, self.uuid.as_str());
                push_str(&mut message, " as UUID: ");
                push_str(&mut message, e.as_str());
                Err(build_error(message.as_str()))
            },
        }
    }
}

/// A message whose checksum was set to the one it should carry passes
/// validation; and the checksum does not depend on the checksum field, so
/// setting it twice gives the same message.
pub proof fn lemma_regenerated_checksum_validates(m: MessageView)
    ensures
        ({
            let r = MessageView { checksum: message_checksum(m), ..m };
            &&& r.checksum == message_checksum(r)
            &&& MessageView { checksum: message_checksum(r), ..r } == r
        }),
{
}

} // verus!
