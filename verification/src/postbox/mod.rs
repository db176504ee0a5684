//! A postbox: where replies that arrive on their own are staged for the task
//! that waits for them.
//!
//! A task that expects a reply creates a message for it in the postbox, keyed
//! by the kind of reply and an identifier. When the reply arrives, its body is
//! set on the message, once; the waiting task then reads it. Times are
//! monotonic clock readings that the caller passes in.
use vstd::prelude::*;

use crate::assoc::{
    assoc_map, has_key, lemma_assoc_empty, lemma_assoc_index, lemma_assoc_len, lemma_assoc_push,
    lemma_assoc_remove, lemma_assoc_update, unique_keys,
};
use crate::errors::AntsError;
use crate::text::{decimal, push_decimal, push_str};
use crate::worker::proto::{DeliverRequest, PingReply, ReleaseReply, ReserveReply, WorkReply};

verus! {

/// The identifier of a message: a reservation token and a message token.
pub type MessageId = (u64, u64);

/// The kinds of reply a message can wait for.
#[derive(Debug, Clone, Copy, PartialEq, Eq, Structural)]
pub enum MessageKind {
    Ping,
    Reserve,
    Release,
    Work,
    Deliver,
}

/// The key of a message: its kind and its identifier.
pub type MessageKey = (MessageKind, MessageId);

/// The body of a message.
#[derive(Debug, Clone)]
pub enum MessageBody {
    Ping(PingReply),
    Reserve(ReserveReply),
    Release(ReleaseReply),
    Work(WorkReply),
    Deliver(DeliverRequest),
}

/// The kind of message a body belongs to.
pub open spec fn body_kind(b: MessageBody) -> MessageKind {
    match b {
        MessageBody::Ping(_) => MessageKind::Ping,
        MessageBody::Reserve(_) => MessageKind::Reserve,
        MessageBody::Release(_) => MessageKind::Release,
        MessageBody::Work(_) => MessageKind::Work,
        MessageBody::Deliver(_) => MessageKind::Deliver,
    }
}

/// Each body belongs to the message kind of the same name, and the type of
/// body that kind holds is named after it: the kind's name and `Reply` for
/// the replies, `DeliverRequest` for a delivery.
pub proof fn lemma_body_belongs_to_its_kind(b: MessageBody)
    ensures
        b is Ping <==> body_kind(b) == MessageKind::Ping,
        b is Reserve <==> body_kind(b) == MessageKind::Reserve,
        b is Release <==> body_kind(b) == MessageKind::Release,
        b is Work <==> body_kind(b) == MessageKind::Work,
        b is Deliver <==> body_kind(b) == MessageKind::Deliver,
        !(b is Deliver) ==> body_type_name(body_kind(b)) == kind_name(body_kind(b)) + "Reply"@,
        b is Ping ==> body_type_name(body_kind(b)) == "PingReply"@,
        b is Reserve ==> body_type_name(body_kind(b)) == "ReserveReply"@,
        b is Release ==> body_type_name(body_kind(b)) == "ReleaseReply"@,
        b is Work ==> body_type_name(body_kind(b)) == "WorkReply"@,
        b is Deliver ==> body_type_name(body_kind(b)) == "DeliverRequest"@,
{
    reveal_strlit("Ping");
    reveal_strlit("Reserve");
    reveal_strlit("Release");
    reveal_strlit("Work");
    reveal_strlit("Reply");
    reveal_strlit("PingReply");
    reveal_strlit("ReserveReply");
    reveal_strlit("ReleaseReply");
    reveal_strlit("WorkReply");
    reveal_strlit("DeliverRequest");
    match b {
        MessageBody::Ping(_) => {
            assert("Ping"@ + "Reply"@ =~= "PingReply"@);
        },
        MessageBody::Reserve(_) => {
            assert("Reserve"@ + "Reply"@ =~= "ReserveReply"@);
        },
        MessageBody::Release(_) => {
            assert("Release"@ + "Reply"@ =~= "ReleaseReply"@);
        },
        MessageBody::Work(_) => {
            assert("Work"@ + "Reply"@ =~= "WorkReply"@);
        },
        MessageBody::Deliver(_) => {},
    }
}

/// The name of a kind.
pub open spec fn kind_name(k: MessageKind) -> Seq<char> {
    match k {
        MessageKind::Ping => "Ping"@,
        MessageKind::Reserve => "Reserve"@,
        MessageKind::Release => "Release"@,
        MessageKind::Work => "Work"@,
        MessageKind::Deliver => "Deliver"@,
    }
}

/// The name of the type of body a kind of message holds.
pub open spec fn body_type_name(k: MessageKind) -> Seq<char> {
    match k {
        MessageKind::Ping => "PingReply"@,
        MessageKind::Reserve => "ReserveReply"@,
        MessageKind::Release => "ReleaseReply"@,
        MessageKind::Work => "WorkReply"@,
        MessageKind::Deliver => "DeliverRequest"@,
    }
}

/// The full path of the type of body a kind of message holds.
pub open spec fn body_type_path(k: MessageKind) -> Seq<char> {
    "ants::worker::proto::"@ + body_type_name(k)
}

/// An identifier as `Debug` writes it: `(token, task)`.
pub open spec fn id_text(id: MessageId) -> Seq<char> {
    "("@ + decimal(id.0 as nat) + ", "@ + decimal(id.1 as nat) + ")"@
}

/// A key as `Debug` writes it: `("Kind", (token, task))`.
pub open spec fn key_text(key: MessageKey) -> Seq<char> {
    "(\""@ + kind_name(key.0) + "\", "@ + id_text(key.1) + ")"@
}

impl MessageKind {
    /// The name of the kind.
    pub fn name(self) -> (s: &'static str)
        ensures
            s@ == kind_name(self),
    {
        match self {
            MessageKind::Ping => "Ping",
            MessageKind::Reserve => "Reserve",
            MessageKind::Release => "Release",
            MessageKind::Work => "Work",
            MessageKind::Deliver => "Deliver",
        }
    }

    /// The name of the type of body this kind of message holds.
    pub fn body_type_name(self) -> (s: &'static str)
        ensures
            s@ == body_type_name(self),
    {
        match self {
            MessageKind::Ping => "PingReply",
            MessageKind::Reserve => "ReserveReply",
            MessageKind::Release => "ReleaseReply",
            MessageKind::Work => "WorkReply",
            MessageKind::Deliver => "DeliverRequest",
        }
    }
}

impl MessageBody {
    /// The kind of message this body belongs to.
    pub fn kind(&self) -> (k: MessageKind)
        ensures
            k == body_kind(*self),
            *self is Ping <==> k == MessageKind::Ping,
            *self is Reserve <==> k == MessageKind::Reserve,
            *self is Release <==> k == MessageKind::Release,
            *self is Work <==> k == MessageKind::Work,
            *self is Deliver <==> k == MessageKind::Deliver,
    {
        proof {
            lemma_body_belongs_to_its_kind(*self);
        }
        match self {
            MessageBody::Ping(_) => MessageKind::Ping,
            MessageBody::Reserve(_) => MessageKind::Reserve,
            MessageBody::Release(_) => MessageKind::Release,
            MessageBody::Work(_) => MessageKind::Work,
            MessageBody::Deliver(_) => MessageKind::Deliver,
        }
    }
}

/// The text of an identifier, as `Debug` writes it.
pub fn id_string(id: MessageId) -> (s: String)
    ensures
        s@ == id_text(id),
{
    let mut s = String::new();
    push_str(&mut s, "(");
    push_decimal(&mut s, id.0);
    push_str(&mut s, ", ");
    push_decimal(&mut s, id.1);
    push_str(&mut s, ")");
    s
}

/// The text of a key, as `Debug` writes it.
pub fn key_string(key: MessageKey) -> (s: String)
    ensures
        s@ == key_text(key),
{
    let mut s = String::new();
    push_str(&mut s, "(\"");
    push_str(&mut s, key.0.name());
    push_str(&mut s, "\", ");
    let id = id_string(key.1);
    push_str(&mut s, id.as_str());
    push_str(&mut s, ")");
    s
}

/// A message: a kind of reply awaited, and the reply once it has come, with
/// the time it came.
#[derive(Debug)]
pub struct Message {
    kind: MessageKind,
    identifier: MessageId,
    body: Option<(MessageBody, u64)>,
}

impl Message {
    /// The kind of reply awaited.
    pub closed spec fn spec_kind(self) -> MessageKind {
        self.kind
    }

    /// The identifier of the message.
    pub closed spec fn spec_identifier(self) -> MessageId {
        self.identifier
    }

    /// The reply and the time it came, once set.
    pub closed spec fn spec_body(self) -> Option<(MessageBody, u64)> {
        self.body
    }

    /// The key of the message: its kind and identifier.
    pub open spec fn spec_key(self) -> MessageKey {
        (self.spec_kind(), self.spec_identifier())
    }

    /// A message awaiting a reply of the given kind, as a value.
    pub closed spec fn awaiting(kind: MessageKind, identifier: MessageId) -> Message {
        Message { kind, identifier, body: None }
    }

    /// A message awaiting a reply of the given kind.
    pub fn new(kind: MessageKind, identifier: MessageId) -> (m: Self)
        ensures
            m == Message::awaiting(kind, identifier),
            m.spec_kind() == kind,
            m.spec_identifier() == identifier,
            m.spec_body() is None,
    {
        Message { kind, identifier, body: None }
    }

    /// The identifier of the message.
    pub fn identifier(&self) -> (id: MessageId)
        ensures
            id == self.spec_identifier(),
    {
        self.identifier
    }

    /// The kind of reply the message awaits.
    pub fn kind(&self) -> (k: MessageKind)
        ensures
            k == self.spec_kind(),
    {
        self.kind
    }

    /// The key of the message.
    pub fn key(&self) -> (k: MessageKey)
        ensures
            k == self.spec_key(),
    {
        (self.kind, self.identifier)
    }

    /// When the reply came, if it has.
    pub fn timestamp(&self) -> (t: Option<u64>)
        ensures
            t == match self.spec_body() {
                Some((_, t)) => Some(t),
                None => None,
            },
    {
        match &self.body {
            Some((_, t)) => Some(*t),
            None => None,
        }
    }

    /// How long ago, at `now`, the reply came (0 if `now` is earlier), if it has.
    pub fn age(&self, now: u64) -> (a: Option<u64>)
        ensures
            a == match self.spec_body() {
                Some((_, t)) => Some(if now >= t { (now - t) as u64 } else { 0 }),
                None => None,
            },
    {
        match self.timestamp() {
            Some(t) => Some(
                if now >= t {
                    now - t
                } else {
                    0
                },
            ),
            None => None,
        }
    }

    /// Whether the reply has come.
    pub fn is_set(&self) -> (r: bool)
        ensures
            r == self.spec_body() is Some,
    {
        self.body.is_some()
    }

    /// The reply, asked for as a body of kind `kind`.
    pub fn get_body(&self, kind: MessageKind) -> (r: Result<&MessageBody, AntsError>)
        ensures
            kind != self.spec_kind() ==> (r matches Err(AntsError::IncompatibleRecipientType(a, b))
                && a@ == kind_name(self.spec_kind()) && b@ == body_type_name(kind)),
            kind == self.spec_kind() && self.spec_body() is None ==> (r matches Err(
                AntsError::MessageNotSet(s),
            ) && s@ == id_text(self.spec_identifier())),
            kind == self.spec_kind() && self.spec_body() is Some ==> (r matches Ok(b) && *b
                == (self.spec_body()->0).0),
    {
        if kind != self.kind {
            let mut a = String::new();
            push_str(&mut a, self.kind.name());
            let mut b = String::new();
            push_str(&mut b, kind.body_type_name());
            proof {
                assert(a@ =~= kind_name(self.spec_kind()));
                assert(b@ =~= body_type_name(kind));
            }
            return Err(AntsError::IncompatibleRecipientType(a, b));
        }
        match &self.body {
            Some((b, _)) => Ok(b),
            None => Err(AntsError::MessageNotSet(id_string(self.identifier))),
        }
    }

    /// Sets the reply, which came at `now`. The reply is set once: a second
    /// one is refused, as is one of another kind.
    pub fn set_body(&mut self, body: MessageBody, now: u64) -> (r: Result<(), AntsError>)
        ensures
            final(self).spec_kind() == old(self).spec_kind(),
            final(self).spec_identifier() == old(self).spec_identifier(),
            body_kind(body) != old(self).spec_kind() ==> (r matches Err(
                AntsError::IncompatibleMessage(a, b),
            ) && a@ == body_type_name(body_kind(body)) && b@ == body_type_path(body_kind(body))
                && final(self).spec_body() == old(self).spec_body()),
            body_kind(body) == old(self).spec_kind() && old(self).spec_body() is Some ==> (r matches Err(
                AntsError::MessageAlreadySet(s),
            ) && s@ == id_text(old(self).spec_identifier()) && final(self).spec_body() == old(self).spec_body()),
            body_kind(body) == old(self).spec_kind() && old(self).spec_body() is None ==> (r is Ok
                && final(self).spec_body() == Some((body, now))),
    {
        let k = body.kind();
        if k != self.kind {
            let mut a = String::new();
            push_str(&mut a, k.body_type_name());
            let mut b = String::new();
            push_str(&mut b, "ants::worker::proto::");
            push_str(&mut b, k.body_type_name());
            proof {
                assert(a@ =~= body_type_name(k));
            }
            return Err(AntsError::IncompatibleMessage(a, b));
        }
        if self.body.is_some() {
            return Err(AntsError::MessageAlreadySet(id_string(self.identifier)));
        }
        self.body = Some((body, now));
        Ok(())
    }
}

/// A message under its key.
pub open spec fn message_entry(m: Message) -> (MessageKey, Message) {
    (m.spec_key(), m)
}

/// The postbox.
#[derive(Debug)]
pub struct PostBox {
    messages: Vec<Message>,
}

impl PostBox {
    /// The messages under their keys, in storage order.
    pub closed spec fn entries(self) -> Seq<(MessageKey, Message)> {
        self.messages@.map_values(|m: Message| message_entry(m))
    }

    /// The messages of the postbox, by key.
    pub open spec fn messages(self) -> Map<MessageKey, Message> {
        assoc_map(self.entries())
    }

    /// Each key has one message, stored under its own key.
    pub open spec fn wf(self) -> bool {
        &&& unique_keys(self.entries())
        &&& forall|k: MessageKey| #[trigger]
            self.messages().contains_key(k) ==> self.messages()[k].spec_key() == k
    }

    /// An empty postbox.
    pub fn new() -> (p: Self)
        ensures
            p.wf(),
            p.messages() == Map::<MessageKey, Message>::empty(),
    {
        let p = PostBox { messages: Vec::new() };
        proof {
            assert(p.entries().len() == 0);
            lemma_assoc_empty(p.entries());
        }
        p
    }

    proof fn lemma_keys_match(self)
        requires
            unique_keys(self.entries()),
        ensures
            forall|k: MessageKey| #[trigger]
                self.messages().contains_key(k) ==> self.messages()[k].spec_key() == k,
    {
        assert forall|k: MessageKey| #[trigger] self.messages().contains_key(k) implies self.messages()[k].spec_key()
            == k by {
            let i = choose|i: int| 0 <= i < self.entries().len() && #[trigger] self.entries()[i].0 == k;
            lemma_assoc_index(self.entries(), i);
        }
    }

    fn find(&self, key: MessageKey) -> (r: Option<usize>)
        requires
            self.wf(),
        ensures
            r is None <==> !self.messages().contains_key(key),
            r matches Some(i) ==> i < self.messages@.len() && self.messages@[i as int].spec_key() == key
                && self.messages()[key] == self.messages@[i as int],
    {
        let mut i: usize = 0;
        while i < self.messages.len()
            invariant
                0 <= i <= self.messages.len(),
                self.wf(),
                forall|j: int| 0 <= j < i ==> self.messages@[j].spec_key() != key,
            decreases self.messages.len() - i,
        {
            let (k, (a, b)) = self.messages[i].key();
            let (kk, (ka, kb)) = key;
            if k == kk && a == ka && b == kb {
                proof {
                    assert(self.entries()[i as int] == message_entry(self.messages@[i as int]));
                    lemma_assoc_index(self.entries(), i as int);
                }
                return Some(i);
            }
            i = i + 1;
        }
        proof {
            if has_key(self.entries(), key) {
                let j = choose|j: int| 0 <= j < self.entries().len() && #[trigger] self.entries()[j].0 == key;
                assert(self.entries()[j] == message_entry(self.messages@[j]));
            }
        }
        None
    }

    /// Puts a message in, replacing any message with the same key, and
    /// returns the message now stored under its key.
    pub fn insert(&mut self, message: Message) -> (r: &Message)
        requires
            old(self).wf(),
        ensures
            final(self).wf(),
            final(self).messages() == old(self).messages().insert(message.spec_key(), message),
            *r == message,
            *r == final(self).messages()[message.spec_key()],
    {
        let ghost old_entries = self.entries();
        let ghost stored = message;
        let key = message.key();
        match self.find(key) {
            Some(i) => {
                let _ = self.messages.remove(i);
                self.messages.insert(i, message);
                proof {
                    assert(self.entries() =~= old_entries.update(i as int, (key, stored)));
                    assert(old_entries[i as int].0 == key);
                    lemma_assoc_update(old_entries, i as int, stored);
                    self.lemma_keys_match();
                }
                &self.messages[i]
            },
            None => {
                self.messages.push(message);
                proof {
                    assert(self.entries() =~= old_entries.push((key, stored)));
                    lemma_assoc_push(old_entries, key, stored);
                    self.lemma_keys_match();
                }
                let last = self.messages.len() - 1;
                &self.messages[last]
            },
        }
    }

    /// Creates a message awaiting a reply of kind `kind`, unless one with
    /// the same key exists (which is then kept), and returns its key.
    pub fn create_message(&mut self, kind: MessageKind, identifier: MessageId) -> (key: MessageKey)
        requires
            old(self).wf(),
        ensures
            final(self).wf(),
            key == (kind, identifier),
            final(self).messages().contains_key(key),
            old(self).messages().contains_key(key) ==> final(self).messages() == old(self).messages(),
            !old(self).messages().contains_key(key) ==> final(self).messages() == old(self).messages().insert(
                key,
                Message::awaiting(kind, identifier),
            ),
    {
        let key = (kind, identifier);
        match self.find(key) {
            Some(_) => key,
            None => {
                let _ = self.insert(Message::new(kind, identifier));
                key
            },
        }
    }

    /// The message with the given key.
    pub fn get(&self, key: MessageKey) -> (r: Result<&Message, AntsError>)
        requires
            self.wf(),
        ensures
            r is Ok <==> self.messages().contains_key(key),
            r matches Ok(m) ==> *m == self.messages()[key],
            r matches Err(e) ==> (e matches AntsError::MessageNotFound(s) && s@ == key_text(key)),
    {
        match self.find(key) {
            Some(i) => Ok(&self.messages[i]),
            None => Err(AntsError::MessageNotFound(key_string(key))),
        }
    }

    /// Takes the message with the given key out of the postbox.
    pub fn remove(&mut self, key: MessageKey) -> (r: Option<Message>)
        requires
            old(self).wf(),
        ensures
            final(self).wf(),
            final(self).messages() == old(self).messages().remove(key),
            r is Some <==> old(self).messages().contains_key(key),
            r matches Some(m) ==> m == old(self).messages()[key],
    {
        let ghost old_entries = self.entries();
        match self.find(key) {
            Some(i) => {
                let m = self.messages.remove(i);
                proof {
                    assert(self.entries() =~= old_entries.remove(i as int));
                    assert(old_entries[i as int].0 == key);
                    lemma_assoc_remove(old_entries, i as int);
                    self.lemma_keys_match();
                }
                Some(m)
            },
            None => {
                proof {
                    assert(self.messages() =~= old(self).messages().remove(key));
                }
                None
            },
        }
    }

    /// The number of messages.
    pub fn len(&self) -> (n: usize)
        requires
            self.wf(),
        ensures
            n == self.messages().len(),
    {
        proof {
            lemma_assoc_len(self.entries());
        }
        self.messages.len()
    }

    /// Whether the postbox is empty.
    pub fn is_empty(&self) -> (r: bool)
        requires
            self.wf(),
        ensures
            r == (self.messages().len() == 0),
    {
        self.len() == 0
    }

    /// Sets the reply of the message with the given key, which came at `now`.
    pub fn set_body(&mut self, key: MessageKey, body: MessageBody, now: u64) -> (r: Result<(), AntsError>)
        requires
            old(self).wf(),
        ensures
            final(self).wf(),
            !old(self).messages().contains_key(key) ==> (r matches Err(AntsError::MessageNotFound(s))
                && s@ == key_text(key) && final(self).messages() == old(self).messages()),
            old(self).messages().contains_key(key) ==> {
                let m = old(self).messages()[key];
                &&& body_kind(body) != key.0 ==> (r matches Err(AntsError::IncompatibleMessage(a, b))
                    && a@ == body_type_name(body_kind(body)) && b@ == body_type_path(body_kind(body)))
                    && final(self).messages() == old(self).messages()
                &&& body_kind(body) == key.0 && m.spec_body() is Some ==> (r matches Err(
                    AntsError::MessageAlreadySet(s),
                ) && s@ == id_text(key.1)) && final(self).messages() == old(self).messages()
                &&& body_kind(body) == key.0 && m.spec_body() is None ==> r is Ok && final(self).messages().dom() == old(self).messages().dom() && final(self).messages()[key].spec_key()
                    == key && final(self).messages()[key].spec_body() == Some((body, now))
                    && forall|k: MessageKey|
                    k != key && #[trigger] old(self).messages().contains_key(k) ==> final(self).messages()[k] == old(self).messages()[k]
            },
    {
        let ghost old_entries = self.entries();
        match self.find(key) {
            Some(i) => {
                let mut m = self.messages.remove(i);
                let r = m.set_body(body, now);
                self.messages.insert(i, m);
                proof {
                    assert(self.entries() =~= old_entries.update(i as int, (key, m)));
                    assert(old_entries[i as int].0 == key);
                    lemma_assoc_update(old_entries, i as int, m);
                    self.lemma_keys_match();
                    if r is Err {
                        assert(m == old(self).messages()[key]);
                        assert(self.messages() =~= old(self).messages());
                    }
                }
                r
            },
            None => Err(AntsError::MessageNotFound(key_string(key))),
        }
    }

    /// Drops the messages whose reply came `duration` or longer ago at `now`;
    /// messages still awaiting their reply stay.
    pub fn clean_old_messages(&mut self, duration: u64, now: u64)
        requires
            old(self).wf(),
        ensures
            final(self).wf(),
            forall|k: MessageKey| #[trigger]
                final(self).messages().contains_key(k) <==> old(self).messages().contains_key(k) && match old(self).messages()[k].spec_body() {
                    Some((_, t)) => (if now >= t { now - t } else { 0 }) < duration,
                    None => true,
                },
            forall|k: MessageKey| #[trigger]
                final(self).messages().contains_key(k) ==> final(self).messages()[k] == old(self).messages()[k],
    {
        let ghost old_entries = self.entries();
        let mut i: usize = 0;
        while i < self.messages.len()
            invariant
                0 <= i <= self.messages.len(),
                self.wf(),
                forall|k: MessageKey| #[trigger]
                    self.messages().contains_key(k) ==> old(self).messages().contains_key(k) && self.messages()[k]
                        == old(self).messages()[k],
                forall|j: int|
                    0 <= j < i ==> keep(#[trigger] self.messages@[j], duration, now),
                forall|k: MessageKey| #[trigger]
                    old(self).messages().contains_key(k) && keep(old(self).messages()[k], duration, now)
                        ==> self.messages().contains_key(k),
                old(self).wf(),
            decreases self.messages.len() - i,
        {
            let stays = match self.messages[i].age(now) {
                Some(age) => age < duration,
                None => true,
            };
            proof {
                assert(stays == keep(self.messages@[i as int], duration, now));
            }
            if stays {
                i = i + 1;
            } else {
                let ghost before = self.entries();
                let ghost before_map = self.messages();
                let ghost before_msgs = self.messages@;
                let ghost gone = self.messages@[i as int];
                let _ = self.messages.remove(i);
                proof {
                    assert(self.entries() =~= before.remove(i as int));
                    assert(before[i as int] == message_entry(gone));
                    lemma_assoc_index(before, i as int);
                    lemma_assoc_remove(before, i as int);
                    self.lemma_keys_match();
                    assert(self.messages() == before_map.remove(gone.spec_key()));
                    assert forall|j: int| 0 <= j < i implies keep(#[trigger] self.messages@[j], duration, now) by {
                        assert(self.messages@[j] == before_msgs[j]);
                    }
                    assert forall|k: MessageKey| #[trigger]
                        old(self).messages().contains_key(k) && keep(old(self).messages()[k], duration, now)
                            implies self.messages().contains_key(k) by {
                        assert(before_map.contains_key(k));
                        if k == gone.spec_key() {
                            assert(before_map[k] == gone);
                        }
                    }
                }
            }
        }
        proof {
            assert forall|k: MessageKey| #[trigger] self.messages().contains_key(k) implies keep(
                old(self).messages()[k],
                duration,
                now,
            ) by {
                let j = choose|j: int| 0 <= j < self.entries().len() && #[trigger] self.entries()[j].0 == k;
                lemma_assoc_index(self.entries(), j);
                assert(self.entries()[j] == message_entry(self.messages@[j]));
            }
        }
    }
}

impl Default for PostBox {
    fn default() -> (p: Self)
        ensures
            p.wf(),
            p.messages() == Map::<MessageKey, Message>::empty(),
    {
        PostBox::new()
    }
}

/// Whether a message stays when old replies are dropped.
pub open spec fn keep(m: Message, duration: u64, now: u64) -> bool {
    match m.spec_body() {
        Some((_, t)) => (if now >= t { now - t } else { 0 }) < duration,
        None => true,
    }
}

} // verus!
