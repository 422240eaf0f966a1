//! The broker's state machine: the message store, the waitlist of blocked
//! receivers, and the optional per-sender throttle.
//!
//! Every operation here runs to completion without blocking. Suspending a
//! receiver is left to the caller: when a receive finds nothing, the
//! caller's handle is queued, and a later send hands that handle back so
//! that the caller can resume the receiver, which then scans again.
use vstd::prelude::*;

use super::{
    is_random_identity, new_identity, Identity, Message, Operation, OperationError, OperationResult,
    StampedMessage,
};

verus! {

/// One blocked receive: who waits, for which tag, and the handle that
/// resumes it.
pub struct Waiter<T, H> {
    pub receiver: Identity,
    pub tag: T,
    pub handle: H,
}

/// The broker's state. Messages are kept in arrival order; the waitlist
/// holds the blocked receivers of every tag in the order they blocked, so
/// that the waitlist of one tag is the subsequence of entries with that tag.
pub struct Server<M: Message, H> {
    messages: Vec<StampedMessage<M>>,
    waitlist: Vec<Waiter<M::Tag, H>>,
    max_queued_per_client: Option<usize>,
}

/// The broker's state as a mathematical value.
pub struct ServerState<M: Message, H> {
    pub messages: Seq<StampedMessage<M>>,
    pub waitlist: Seq<Waiter<M::Tag, H>>,
    pub max_queued_per_client: Option<usize>,
}

/// What a connection's operation came to: the reply owed to the client, and
/// the blocked receiver, if any, that must now be resumed.
pub enum Outcome<M: Message, H> {
    Registered(Identity),
    Sent { result: OperationResult<()>, wake: Option<H> },
    Delivered(StampedMessage<M>),
    Waiting,
}

impl<M: Message, H> View for Server<M, H> {
    type V = ServerState<M, H>;

    closed spec fn view(&self) -> ServerState<M, H> {
        ServerState {
            messages: self.messages@,
            waitlist: self.waitlist@,
            max_queued_per_client: self.max_queued_per_client,
        }
    }
}

/// The first position of `s` whose element satisfies `p`.
pub open spec fn first_index<A>(s: Seq<A>, p: spec_fn(A) -> bool) -> Option<int>
    decreases s.len(),
{
    if s.len() == 0 {
        None
    } else if p(s[0]) {
        Some(0)
    } else {
        match first_index(s.subrange(1, s.len() as int), p) {
            Some(i) => Some(i + 1),
            None => None,
        }
    }
}

/// A message of `tag` whose recipient is `recipient`: addressed to that
/// identity, or to nobody in particular when it is `None`.
pub open spec fn matching<M: Message>(tag: M::Tag, recipient: Option<Identity>) -> spec_fn(
    StampedMessage<M>,
) -> bool {
    |m: StampedMessage<M>| m.inner.spec_tag() == tag && m.inner.spec_recipient() == recipient
}

/// Whether `receiver`, asking for `tag`, may take `m`.
pub open spec fn deliverable<M: Message>(m: StampedMessage<M>, receiver: Identity, tag: M::Tag) -> bool {
    m.inner.spec_tag() == tag && (m.inner.spec_recipient() is None || m.inner.spec_recipient()
        == Some(receiver))
}

/// The position of the message that a receive by `receiver` for `tag` takes:
/// the oldest one addressed to it, else the oldest broadcast one.
pub open spec fn pick<M: Message>(
    messages: Seq<StampedMessage<M>>,
    receiver: Identity,
    tag: M::Tag,
) -> Option<int> {
    match first_index(messages, matching::<M>(tag, Some(receiver))) {
        Some(i) => Some(i),
        None => first_index(messages, matching::<M>(tag, None)),
    }
}

/// A blocked receive of `tag` that a new message with `recipient` may wake.
pub open spec fn waiting_for<T, H>(tag: T, recipient: Option<Identity>) -> spec_fn(
    Waiter<T, H>,
) -> bool {
    |w: Waiter<T, H>|
        w.tag == tag && match recipient {
            Some(id) => w.receiver == id,
            None => true,
        }
}

/// The position of the waiter that a new message of `tag` for `recipient`
/// wakes: the first one of its identity if it is addressed, else the head of
/// the tag's waitlist.
pub open spec fn wake_index<T, H>(
    waitlist: Seq<Waiter<T, H>>,
    tag: T,
    recipient: Option<Identity>,
) -> Option<int> {
    first_index(waitlist, waiting_for::<T, H>(tag, recipient))
}

/// The number of stored messages that `sender` sent.
pub open spec fn count_from<M: Message>(messages: Seq<StampedMessage<M>>, sender: Identity) -> nat
    decreases messages.len(),
{
    if messages.len() == 0 {
        0
    } else {
        count_from(messages.drop_last(), sender) + if messages.last().sender == sender {
            1nat
        } else {
            0nat
        }
    }
}

/// Whether a send from `sender` is refused in state `s`.
pub open spec fn throttled<M: Message, H>(s: ServerState<M, H>, sender: Identity) -> bool {
    match s.max_queued_per_client {
        Some(max) => count_from(s.messages, sender) >= max,
        None => false,
    }
}

/// The waiter, if any, whose handle is given back when `m` is stored.
pub open spec fn woken<M: Message, H>(s: ServerState<M, H>, m: StampedMessage<M>) -> Option<H> {
    match wake_index(s.waitlist, m.inner.spec_tag(), m.inner.spec_recipient()) {
        Some(i) => Some(s.waitlist[i].handle),
        None => None,
    }
}

/// The state after `m` is appended to the store and the waiter it wakes, if
/// any, has left the waitlist.
pub open spec fn after_put<M: Message, H>(s: ServerState<M, H>, m: StampedMessage<M>) -> ServerState<
    M,
    H,
> {
    ServerState {
        messages: s.messages.push(m),
        waitlist: match wake_index(s.waitlist, m.inner.spec_tag(), m.inner.spec_recipient()) {
            Some(i) => s.waitlist.remove(i),
            None => s.waitlist,
        },
        max_queued_per_client: s.max_queued_per_client,
    }
}

/// The state after a send of `payload` from `sender`.
pub open spec fn after_send<M: Message, H>(
    s: ServerState<M, H>,
    sender: Identity,
    payload: M,
) -> ServerState<M, H> {
    if throttled(s, sender) {
        s
    } else {
        after_put(s, StampedMessage { sender, inner: payload })
    }
}

/// The message, if any, that a receive by `receiver` for `tag` takes.
pub open spec fn taken<M: Message, H>(s: ServerState<M, H>, receiver: Identity, tag: M::Tag) -> Option<
    StampedMessage<M>,
> {
    match pick(s.messages, receiver, tag) {
        Some(i) => Some(s.messages[i]),
        None => None,
    }
}

/// The state after a receive by `receiver` for `tag`: the message taken has
/// left the store, or else the receiver has joined the waitlist.
pub open spec fn after_receive<M: Message, H>(
    s: ServerState<M, H>,
    receiver: Identity,
    tag: M::Tag,
    handle: H,
) -> ServerState<M, H> {
    match pick(s.messages, receiver, tag) {
        Some(i) => ServerState { messages: s.messages.remove(i), ..s },
        None => ServerState { waitlist: s.waitlist.push(Waiter { receiver, tag, handle }), ..s },
    }
}

/// What `first_index` finds: a satisfying position with none before it, or
/// no satisfying position at all.
pub proof fn lemma_first_index<A>(s: Seq<A>, p: spec_fn(A) -> bool)
    ensures
        match first_index(s, p) {
            Some(i) => 0 <= i < s.len() && p(s[i]) && forall|j: int| 0 <= j < i ==> !p(s[j]),
            None => forall|j: int| 0 <= j < s.len() ==> !p(s[j]),
        },
    decreases s.len(),
{
    if s.len() > 0 && !p(s[0]) {
        let t = s.subrange(1, s.len() as int);
        lemma_first_index(t, p);
        assert forall|j: int| 0 < j < s.len() implies s[j] == t[j - 1] by {}
    }
}

/// A position that satisfies `p` with none before it is what `first_index`
/// finds.
proof fn lemma_first_index_at<A>(s: Seq<A>, p: spec_fn(A) -> bool, i: int)
    requires
        0 <= i < s.len(),
        p(s[i]),
        forall|j: int| 0 <= j < i ==> !p(s[j]),
    ensures
        first_index(s, p) == Some(i),
{
    lemma_first_index(s, p);
}

/// The message that `pick` finds may be taken by the receiver: it has the
/// tag asked for, and it is addressed to the receiver or to nobody.
pub proof fn lemma_pick_deliverable<M: Message>(
    messages: Seq<StampedMessage<M>>,
    receiver: Identity,
    tag: M::Tag,
)
    ensures
        pick(messages, receiver, tag) matches Some(i) ==> 0 <= i < messages.len() && deliverable(
            messages[i],
            receiver,
            tag,
        ),
{
    lemma_first_index(messages, matching::<M>(tag, Some(receiver)));
    lemma_first_index(messages, matching::<M>(tag, None));
}

/// Whether two optional recipients are the same.
fn same_recipient(a: Option<Identity>, b: Option<Identity>) -> (r: bool)
    ensures
        r == (a == b),
{
    match (a, b) {
        (Some(x), Some(y)) => x == y,
        (None, None) => true,
        _ => false,
    }
}

impl<M: Message, H> Server<M, H> {
    /// An empty broker that throttles nobody.
    pub fn new() -> (s: Self)
        ensures
            s@.messages == Seq::<StampedMessage<M>>::empty(),
            s@.waitlist == Seq::<Waiter<M::Tag, H>>::empty(),
            s@.max_queued_per_client is None,
    {
        Server { messages: Vec::new(), waitlist: Vec::new(), max_queued_per_client: None }
    }

    /// The same broker with the per-sender ceiling set to
    /// `max_queued_per_client` (`None`: unthrottled).
    pub fn with_throttling(self, max_queued_per_client: Option<usize>) -> (s: Self)
        ensures
            s@.messages == self@.messages,
            s@.waitlist == self@.waitlist,
            s@.max_queued_per_client == max_queued_per_client,
    {
        Server { max_queued_per_client, ..self }
    }

    /// The number of stored messages that `sender` sent.
    fn count_messages_from(&self, sender: Identity) -> (n: usize)
        ensures
            n == count_from(self@.messages, sender),
    {
        let mut n: usize = 0;
        let mut i: usize = 0;
        while i < self.messages.len()
            invariant
                i <= self.messages@.len(),
                n <= i,
                n == count_from(self.messages@.subrange(0, i as int), sender),
            decreases self.messages@.len() - i,
        {
            proof {
                let next = self.messages@.subrange(0, i + 1);
                assert(next.drop_last() == self.messages@.subrange(0, i as int));
            }
            if self.messages[i].sender == sender {
                n = n + 1;
            }
            i = i + 1;
        }
        proof {
            assert(self.messages@.subrange(0, i as int) == self.messages@);
        }
        n
    }

    /// Whether a send from `sender` must be refused now.
    fn should_throttling(&self, sender: Identity) -> (b: bool)
        ensures
            b == throttled(self@, sender),
    {
        match self.max_queued_per_client {
            Some(max) => self.count_messages_from(sender) >= max,
            None => false,
        }
    }

    /// The position of the oldest stored message of `tag` whose recipient is
    /// `recipient`.
    fn position_of(&self, tag: &M::Tag, recipient: Option<Identity>) -> (r: Option<usize>)
        ensures
            match r {
                Some(i) => first_index(self@.messages, matching::<M>(*tag, recipient)) == Some(
                    i as int,
                ),
                None => first_index(self@.messages, matching::<M>(*tag, recipient)) is None,
            },
    {
        let mut i: usize = 0;
        while i < self.messages.len()
            invariant
                i <= self.messages@.len(),
                forall|j: int| 0 <= j < i ==> !matching::<M>(*tag, recipient)(self.messages@[j]),
            decreases self.messages@.len() - i,
        {
            let m = &self.messages[i];
            if M::same_tag(&m.inner.tag(), tag) && same_recipient(m.inner.recipient(), recipient) {
                proof {
                    lemma_first_index_at(self.messages@, matching::<M>(*tag, recipient), i as int);
                }
                return Some(i);
            }
            i = i + 1;
        }
        proof {
            lemma_first_index(self.messages@, matching::<M>(*tag, recipient));
        }
        None
    }

    /// The wake protocol: takes out of the waitlist the receiver that a new
    /// message of `tag` for `recipient` wakes, and gives back its handle.
    fn notify_next_in_waitlist(&mut self, tag: &M::Tag, recipient: Option<Identity>) -> (h: Option<H>)
        ensures
            match wake_index(old(self)@.waitlist, *tag, recipient) {
                Some(i) => h == Some(old(self)@.waitlist[i].handle) && final(self)@ == (ServerState {
                    waitlist: old(self)@.waitlist.remove(i),
                    ..old(self)@
                }),
                None => h is None && final(self)@ == old(self)@,
            },
    {
        let mut i: usize = 0;
        while i < self.waitlist.len()
            invariant
                i <= self.waitlist@.len(),
                self@ == old(self)@,
                forall|j: int|
                    0 <= j < i ==> !waiting_for::<M::Tag, H>(*tag, recipient)(self.waitlist@[j]),
            decreases self.waitlist@.len() - i,
        {
            let w = &self.waitlist[i];
            let wanted = match recipient {
                Some(id) => w.receiver == id,
                None => true,
            };
            if M::same_tag(&w.tag, tag) && wanted {
                proof {
                    lemma_first_index_at(
                        self.waitlist@,
                        waiting_for::<M::Tag, H>(*tag, recipient),
                        i as int,
                    );
                }
                let waiter = self.waitlist.remove(i);
                return Some(waiter.handle);
            }
            i = i + 1;
        }
        proof {
            lemma_first_index(self.waitlist@, waiting_for::<M::Tag, H>(*tag, recipient));
        }
        None
    }

    /// Appends `message` to the store and runs the wake protocol for it. A
    /// message whose delivery failed is put back this way too.
    pub fn put_message(&mut self, message: StampedMessage<M>) -> (wake: Option<H>)
        ensures
            final(self)@ == after_put(old(self)@, message),
            wake == woken(old(self)@, message),
    {
        let tag = message.inner.tag();
        let recipient = message.inner.recipient();
        self.messages.push(message);
        self.notify_next_in_waitlist(&tag, recipient)
    }

    /// A send of `payload` from `sender`: refused when the sender already
    /// has as many stored messages as the ceiling allows, else stored, with
    /// the handle of the receiver it wakes.
    pub fn send(&mut self, sender: Identity, payload: M) -> (r: OperationResult<Option<H>>)
        ensures
            final(self)@ == after_send(old(self)@, sender, payload),
            throttled(old(self)@, sender) ==> r == Err::<Option<H>, OperationError>(
                OperationError::TooManyMessages,
            ),
            !throttled(old(self)@, sender) ==> r == Ok::<Option<H>, OperationError>(
                woken(old(self)@, (StampedMessage { sender, inner: payload })),
            ),
    {
        if self.should_throttling(sender) {
            Err(OperationError::TooManyMessages)
        } else {
            Ok(self.put_message(StampedMessage { sender, inner: payload }))
        }
    }

    /// Removes and returns the message that a receive by `receiver` for
    /// `tag` takes, if there is one.
    fn try_get_message(&mut self, tag: &M::Tag, receiver: Identity) -> (r: Option<StampedMessage<M>>)
        ensures
            r == taken(old(self)@, receiver, *tag),
            match pick(old(self)@.messages, receiver, *tag) {
                Some(i) => final(self)@ == (ServerState {
                    messages: old(self)@.messages.remove(i),
                    ..old(self)@
                }),
                None => final(self)@ == old(self)@,
            },
    {
        proof {
            lemma_pick_deliverable(self@.messages, receiver, *tag);
        }
        let mut index = self.position_of(tag, Some(receiver));
        if index.is_none() {
            index = self.position_of(tag, None);
        }
        match index {
            Some(i) => Some(self.messages.remove(i)),
            None => None,
        }
    }

    /// Queues a blocked receive by `receiver` for `tag` at the tail of the
    /// waitlist.
    fn join_waitlist(&mut self, tag: M::Tag, receiver: Identity, handle: H)
        ensures
            final(self)@ == (ServerState {
                waitlist: old(self)@.waitlist.push(Waiter { receiver, tag, handle }),
                ..old(self)@
            }),
    {
        self.waitlist.push(Waiter { receiver, tag, handle });
    }

    /// The take-or-block step of a receive: takes the message that
    /// `receiver` may have for `tag`, or, when there is none, queues
    /// `handle` so that a later send can resume the receiver. A resumed
    /// receiver calls this again: being woken promises no message.
    pub fn get_message(&mut self, tag: M::Tag, receiver: Identity, handle: H) -> (r: Option<
        StampedMessage<M>,
    >)
        ensures
            r == taken(old(self)@, receiver, tag),
            final(self)@ == after_receive(old(self)@, receiver, tag, handle),
            r matches Some(m) ==> deliverable(m, receiver, tag),
    {
        proof {
            lemma_pick_deliverable(self@.messages, receiver, tag);
        }
        match self.try_get_message(&tag, receiver) {
            Some(m) => Some(m),
            None => {
                self.join_waitlist(tag, receiver, handle);
                None
            },
        }
    }

    /// A fresh identity for a registering client.
    pub fn register(&self) -> (id: Identity)
        ensures
            is_random_identity(id),
    {
        new_identity()
    }

    /// Carries out the operation of one connection. `handle` resumes the
    /// connection's worker should a receive have to wait.
    pub fn handle_operation(&mut self, op: Operation<M>, handle: H) -> (out: Outcome<M, H>)
        ensures
            match op {
                Operation::Register => final(self)@ == old(self)@ && (out matches Outcome::Registered(
                    id,
                ) && is_random_identity(id)),
                Operation::Send(sender, payload) => final(self)@ == after_send(
                    old(self)@,
                    sender,
                    payload,
                ) && out == if throttled(old(self)@, sender) {
                    Outcome::<M, H>::Sent {
                        result: Err(OperationError::TooManyMessages),
                        wake: None,
                    }
                } else {
                    Outcome::<M, H>::Sent {
                        result: Ok(()),
                        wake: woken(old(self)@, (StampedMessage { sender, inner: payload })),
                    }
                },
                Operation::Receive(receiver, tag) => final(self)@ == after_receive(
                    old(self)@,
                    receiver,
                    tag,
                    handle,
                ) && out == match taken(old(self)@, receiver, tag) {
                    Some(m) => Outcome::<M, H>::Delivered(m),
                    None => Outcome::<M, H>::Waiting,
                },
            },
    {
        match op {
            Operation::Register => Outcome::Registered(self.register()),
            Operation::Send(sender, payload) => match self.send(sender, payload) {
                Ok(wake) => Outcome::Sent { result: Ok(()), wake },
                Err(e) => Outcome::Sent { result: Err(e), wake: None },
            },
            Operation::Receive(receiver, tag) => match self.get_message(tag, receiver, handle) {
                Some(m) => Outcome::Delivered(m),
                None => Outcome::Waiting,
            },
        }
    }
}

impl<M: Message, H> Default for Server<M, H> {
    /// An empty broker that throttles nobody.
    fn default() -> (s: Self)
        ensures
            s@.messages == Seq::<StampedMessage<M>>::empty(),
            s@.waitlist == Seq::<Waiter<M::Tag, H>>::empty(),
            s@.max_queued_per_client is None,
    {
        Server::new()
    }
}

} // verus!
