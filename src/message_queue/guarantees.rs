//! What the broker's state machine guarantees across several operations.
use vstd::prelude::*;

use super::server::{
    after_put, after_receive, after_send, count_from, deliverable, first_index, lemma_first_index,
    lemma_pick_deliverable, matching, pick, taken, throttled, wake_index, waiting_for, woken,
    ServerState, Waiter,
};
use super::{Identity, Message, StampedMessage};

verus! {

/// A receive that finds a message gets one of the tag it asked for,
/// addressed to it or to nobody: never one of another tag, never one
/// addressed to someone else.
pub proof fn lemma_receive_respects_tag_and_recipient<M: Message, H>(
    s: ServerState<M, H>,
    receiver: Identity,
    tag: M::Tag,
)
    ensures
        taken(s, receiver, tag) matches Some(m) ==> m.inner.spec_tag() == tag && (
        m.inner.spec_recipient() is None || m.inner.spec_recipient() == Some(receiver)),
{
    lemma_pick_deliverable(s.messages, receiver, tag);
}

/// When the store holds a message that a receive may take, the receive
/// takes one.
pub proof fn lemma_pick_finds<M: Message>(
    messages: Seq<StampedMessage<M>>,
    receiver: Identity,
    tag: M::Tag,
    k: int,
)
    requires
        0 <= k < messages.len(),
        deliverable(messages[k], receiver, tag),
    ensures
        pick(messages, receiver, tag) is Some,
{
    lemma_first_index(messages, matching::<M>(tag, Some(receiver)));
    lemma_first_index(messages, matching::<M>(tag, None));
    if messages[k].inner.spec_recipient() is None {
        assert(matching::<M>(tag, None)(messages[k]));
    } else {
        assert(matching::<M>(tag, Some(receiver))(messages[k]));
    }
}

/// Removing the message at `i` lowers its sender's count by one and leaves
/// every other sender's count as it was.
pub proof fn lemma_count_after_remove<M: Message>(
    messages: Seq<StampedMessage<M>>,
    i: int,
    sender: Identity,
)
    requires
        0 <= i < messages.len(),
    ensures
        count_from(messages.remove(i), sender) + (if messages[i].sender == sender {
            1int
        } else {
            0int
        }) == count_from(messages, sender),
    decreases messages.len(),
{
    let last = messages.len() - 1;
    if i == last {
        assert(messages.remove(i) == messages.drop_last());
    } else {
        lemma_count_after_remove(messages.drop_last(), i, sender);
        assert(messages.remove(i).drop_last() == messages.drop_last().remove(i));
        assert(messages.remove(i).last() == messages.last());
    }
}

/// With a ceiling of `max` stored messages per sender, a sender that has
/// `max - 1` stored has its next send accepted, and the one after it
/// refused; once a receive takes one of that sender's messages, a send
/// from it is accepted again.
pub proof fn lemma_throttling_boundary<M: Message, H>(
    s: ServerState<M, H>,
    sender: Identity,
    first: M,
    receiver: Identity,
    tag: M::Tag,
    handle: H,
)
    requires
        s.max_queued_per_client matches Some(max) && count_from(s.messages, sender) + 1 == max,
    ensures
        !throttled(s, sender),
        throttled(after_send(s, sender, first), sender),
        taken(after_send(s, sender, first), receiver, tag) matches Some(m) && m.sender == sender
            ==> !throttled(after_receive(after_send(s, sender, first), receiver, tag, handle), sender),
{
    let full = after_send(s, sender, first);
    let stamped = StampedMessage { sender, inner: first };
    assert(full.messages == s.messages.push(stamped));
    assert(full.messages.drop_last() == s.messages);
    if let Some(i) = pick(full.messages, receiver, tag) {
        lemma_pick_deliverable(full.messages, receiver, tag);
        lemma_count_after_remove(full.messages, i, sender);
    }
}

/// A message whose delivery failed and that is put back is not lost: it is
/// stored again, and a later receive by the same receiver for the same tag
/// finds a message.
pub proof fn lemma_requeue_keeps_message<M: Message, H>(
    s: ServerState<M, H>,
    receiver: Identity,
    tag: M::Tag,
    handle: H,
)
    requires
        taken(s, receiver, tag) is Some,
    ensures
        after_put(after_receive(s, receiver, tag, handle), taken(s, receiver, tag)->0).messages.contains(
            taken(s, receiver, tag)->0,
        ),
        taken(
            after_put(after_receive(s, receiver, tag, handle), taken(s, receiver, tag)->0),
            receiver,
            tag,
        ) is Some,
{
    let m = taken(s, receiver, tag)->0;
    let back = after_put(after_receive(s, receiver, tag, handle), m);
    lemma_pick_deliverable(s.messages, receiver, tag);
    let k = back.messages.len() - 1;
    assert(back.messages[k] == m);
    lemma_pick_finds(back.messages, receiver, tag, k);
}

/// Each send stamped with its sender.
pub open spec fn stamp_all<M: Message>(sends: Seq<(Identity, M)>) -> Seq<StampedMessage<M>> {
    sends.map_values(|x: (Identity, M)| StampedMessage { sender: x.0, inner: x.1 })
}

/// The state after `sends`, made in order.
pub open spec fn after_sends<M: Message, H>(
    s: ServerState<M, H>,
    sends: Seq<(Identity, M)>,
) -> ServerState<M, H>
    decreases sends.len(),
{
    if sends.len() == 0 {
        s
    } else {
        after_send(after_sends(s, sends.drop_last()), sends.last().0, sends.last().1)
    }
}

/// The handle that each of `sends` gives back, in order.
pub open spec fn woken_by_sends<M: Message, H>(
    s: ServerState<M, H>,
    sends: Seq<(Identity, M)>,
) -> Seq<Option<H>>
    decreases sends.len(),
{
    if sends.len() == 0 {
        Seq::empty()
    } else {
        let before = after_sends(s, sends.drop_last());
        let (sender, payload) = sends.last();
        woken_by_sends(s, sends.drop_last()).push(
            if throttled(before, sender) {
                None
            } else {
                woken(before, StampedMessage { sender, inner: payload })
            },
        )
    }
}

/// The handles of the receivers waiting for `tag`, in the order they
/// blocked.
pub open spec fn waiting_handles<T, H>(waitlist: Seq<Waiter<T, H>>, tag: T) -> Seq<H>
    decreases waitlist.len(),
{
    if waitlist.len() == 0 {
        Seq::empty()
    } else {
        let rest = waiting_handles(waitlist.subrange(1, waitlist.len() as int), tag);
        if waitlist[0].tag == tag {
            seq![waitlist[0].handle] + rest
        } else {
            rest
        }
    }
}

/// The state after each of `receivers` has received once for `tag`, in
/// order.
pub open spec fn after_receives<M: Message, H>(
    s: ServerState<M, H>,
    receivers: Seq<(Identity, H)>,
    tag: M::Tag,
) -> ServerState<M, H>
    decreases receivers.len(),
{
    if receivers.len() == 0 {
        s
    } else {
        after_receive(
            after_receives(s, receivers.drop_last(), tag),
            receivers.last().0,
            tag,
            receivers.last().1,
        )
    }
}

/// The message that each of `receivers` takes, in order.
pub open spec fn taken_by_receives<M: Message, H>(
    s: ServerState<M, H>,
    receivers: Seq<(Identity, H)>,
    tag: M::Tag,
) -> Seq<Option<StampedMessage<M>>>
    decreases receivers.len(),
{
    if receivers.len() == 0 {
        Seq::empty()
    } else {
        taken_by_receives(s, receivers.drop_last(), tag).push(
            taken(after_receives(s, receivers.drop_last(), tag), receivers.last().0, tag),
        )
    }
}

/// A prefix in which nothing satisfies `p` only shifts what `first_index`
/// finds.
proof fn lemma_first_index_skip<A>(a: Seq<A>, b: Seq<A>, p: spec_fn(A) -> bool)
    requires
        forall|j: int| 0 <= j < a.len() ==> !p(a[j]),
    ensures
        first_index(a + b, p) == match first_index(b, p) {
            Some(i) => Some(i + a.len()),
            None => None,
        },
{
    let ab = a + b;
    lemma_first_index(b, p);
    lemma_first_index(ab, p);
    match first_index(b, p) {
        Some(i) => {
            assert(ab[i + a.len()] == b[i]);
            assert forall|j: int| 0 <= j < i + a.len() implies !p(ab[j]) by {
                if j >= a.len() {
                    assert(ab[j] == b[j - a.len()]);
                }
            }
            lemma_first_index(ab, p);
            if let Some(k) = first_index(ab, p) {
                if k < i + a.len() {
                    assert(!p(ab[k]));
                }
                if k > i + a.len() {
                    assert(!p(ab[i + a.len()]));
                }
            }
        },
        None => {
            if let Some(k) = first_index(ab, p) {
                if k >= a.len() {
                    assert(ab[k] == b[k - a.len()]);
                }
            }
        },
    }
}

/// The waiter that a broadcast message of `tag` wakes is the first receiver
/// waiting for `tag`, and only it leaves that tag's waitlist.
proof fn lemma_wake_head<T, H>(waitlist: Seq<Waiter<T, H>>, tag: T)
    requires
        waiting_handles(waitlist, tag).len() > 0,
    ensures
        wake_index(waitlist, tag, None) matches Some(i) && 0 <= i < waitlist.len() && waitlist[i].handle
            == waiting_handles(waitlist, tag)[0] && waiting_handles(waitlist.remove(i), tag)
            == waiting_handles(waitlist, tag).drop_first(),
    decreases waitlist.len(),
{
    let p = waiting_for::<T, H>(tag, None);
    let rest = waitlist.subrange(1, waitlist.len() as int);
    if waitlist[0].tag == tag {
        assert(p(waitlist[0]));
        assert(waitlist.remove(0) == rest);
        assert(waiting_handles(waitlist, tag) == seq![waitlist[0].handle] + waiting_handles(rest, tag));
        assert((seq![waitlist[0].handle] + waiting_handles(rest, tag)).drop_first()
            == waiting_handles(rest, tag));
    } else {
        assert(!p(waitlist[0]));
        lemma_wake_head(rest, tag);
        let j = wake_index(rest, tag, None)->0;
        assert(first_index(waitlist, p) == Some(j + 1));
        let removed = waitlist.remove(j + 1);
        assert(removed[0] == waitlist[0]);
        assert(removed.subrange(1, removed.len() as int) == rest.remove(j));
    }
}

/// `sends` of broadcast messages of `tag`, all accepted, made while at least
/// as many receivers wait for `tag`: each wakes the next waiting receiver,
/// and the store gains the messages in order.
proof fn lemma_sends_wake_in_order<M: Message, H>(
    s: ServerState<M, H>,
    tag: M::Tag,
    sends: Seq<(Identity, M)>,
)
    requires
        forall|k: int|
            0 <= k < sends.len() ==> sends[k].1.spec_tag() == tag && sends[k].1.spec_recipient() is None,
        forall|k: int| 0 <= k < sends.len() ==> !throttled(after_sends(s, sends.take(k)), sends[k].0),
        waiting_handles(s.waitlist, tag).len() >= sends.len(),
    ensures
        after_sends(s, sends).messages == s.messages + stamp_all(sends),
        waiting_handles(after_sends(s, sends).waitlist, tag) == waiting_handles(s.waitlist, tag).skip(
            sends.len() as int,
        ),
        woken_by_sends(s, sends) == waiting_handles(s.waitlist, tag).take(
            sends.len() as int,
        ).map_values(|h: H| Some(h)),
    decreases sends.len(),
{
    let handles = waiting_handles(s.waitlist, tag);
    let n = sends.len() as int;
    if n == 0 {
        assert(s.messages + stamp_all(sends) == s.messages);
        assert(handles.skip(0) == handles);
        assert(handles.take(0).map_values(|h: H| Some(h)) == Seq::<Option<H>>::empty());
    } else {
        let pre = sends.drop_last();
        assert forall|k: int| 0 <= k < pre.len() implies !throttled(
            after_sends(s, pre.take(k)),
            pre[k].0,
        ) by {
            assert(pre.take(k) == sends.take(k));
        }
        lemma_sends_wake_in_order(s, tag, pre);
        assert(sends.take(n - 1) == pre);
        let before = after_sends(s, pre);
        let (sender, payload) = sends.last();
        let stamped = StampedMessage { sender, inner: payload };
        assert(!throttled(before, sender));
        lemma_wake_head(before.waitlist, tag);
        assert(stamp_all(sends) == stamp_all(pre).push(stamped));
        assert(s.messages + stamp_all(sends) == (s.messages + stamp_all(pre)).push(stamped));
        assert(handles.skip(n - 1).drop_first() == handles.skip(n));
        assert(handles.take(n).map_values(|h: H| Some(h)) == handles.take(n - 1).map_values(
            |h: H| Some(h),
        ).push(Some(handles[n - 1])));
    }
}

/// Receives for `tag` from a store whose messages of `tag` are broadcast
/// ones behind messages of other tags: each receive takes the next of them,
/// in order.
proof fn lemma_receives_take_in_order<M: Message, H>(
    s: ServerState<M, H>,
    others: Seq<StampedMessage<M>>,
    queued: Seq<StampedMessage<M>>,
    receivers: Seq<(Identity, H)>,
    tag: M::Tag,
)
    requires
        s.messages == others + queued,
        forall|j: int| 0 <= j < others.len() ==> others[j].inner.spec_tag() != tag,
        forall|j: int|
            0 <= j < queued.len() ==> queued[j].inner.spec_tag() == tag && queued[j].inner.spec_recipient() is None,
        receivers.len() <= queued.len(),
    ensures
        after_receives(s, receivers, tag).messages == others + queued.skip(receivers.len() as int),
        taken_by_receives(s, receivers, tag) == queued.take(receivers.len() as int).map_values(
            |m: StampedMessage<M>| Some(m),
        ),
    decreases receivers.len(),
{
    let n = receivers.len() as int;
    if n == 0 {
        assert(queued.skip(0) == queued);
        assert(queued.take(0).map_values(|m: StampedMessage<M>| Some(m)) == Seq::<
            Option<StampedMessage<M>>,
        >::empty());
    } else {
        let pre = receivers.drop_last();
        lemma_receives_take_in_order(s, others, queued, pre, tag);
        let b = after_receives(s, pre, tag);
        let rest = queued.skip(n - 1);
        let (receiver, handle) = receivers.last();
        let addressed = matching::<M>(tag, Some(receiver));
        let broadcast = matching::<M>(tag, None);
        assert forall|j: int| 0 <= j < b.messages.len() implies !addressed(b.messages[j]) by {
            if j >= others.len() {
                assert(b.messages[j] == rest[j - others.len()]);
            }
        }
        lemma_first_index(b.messages, addressed);
        lemma_first_index_skip(others, rest, broadcast);
        assert(broadcast(rest[0]));
        lemma_first_index(rest, broadcast);
        assert(pick(b.messages, receiver, tag) == Some(others.len() as int));
        assert(b.messages[others.len() as int] == queued[n - 1]);
        assert(b.messages.remove(others.len() as int) == others + queued.skip(n));
        assert(queued.take(n).map_values(|m: StampedMessage<M>| Some(m)) == queued.take(
            n - 1,
        ).map_values(|m: StampedMessage<M>| Some(m)).push(Some(queued[n - 1])));
    }
}

/// Two broadcast messages of one tag, sent in turn to an empty store, come
/// out to one receiver in the order they were sent.
pub proof fn lemma_broadcast_fifo<M: Message, H>(
    s: ServerState<M, H>,
    first: (Identity, M),
    second: (Identity, M),
    receiver: Identity,
    handles: (H, H),
)
    requires
        s.messages.len() == 0,
        first.1.spec_tag() == second.1.spec_tag(),
        first.1.spec_recipient() is None,
        second.1.spec_recipient() is None,
        !throttled(s, first.0),
        !throttled(after_send(s, first.0, first.1), second.0),
    ensures
        taken(
            after_send(after_send(s, first.0, first.1), second.0, second.1),
            receiver,
            first.1.spec_tag(),
        ) == Some(StampedMessage { sender: first.0, inner: first.1 }),
        taken(
            after_receive(
                after_send(after_send(s, first.0, first.1), second.0, second.1),
                receiver,
                first.1.spec_tag(),
                handles.0,
            ),
            receiver,
            first.1.spec_tag(),
        ) == Some(StampedMessage { sender: second.0, inner: second.1 }),
{
    let tag = first.1.spec_tag();
    let both = after_send(after_send(s, first.0, first.1), second.0, second.1);
    let queued = seq![
        StampedMessage { sender: first.0, inner: first.1 },
        StampedMessage { sender: second.0, inner: second.1 },
    ];
    let others = Seq::<StampedMessage<M>>::empty();
    assert(both.messages == others + queued);
    let receivers = seq![(receiver, handles.0), (receiver, handles.1)];
    lemma_receives_take_in_order(both, others, queued, receivers, tag);
    let one = seq![(receiver, handles.0)];
    assert(receivers.drop_last() == one);
    assert(one.drop_last() == Seq::<(Identity, H)>::empty());
    assert(queued.take(2) == queued);
    let results = taken_by_receives(both, receivers, tag);
    let none = Seq::<(Identity, H)>::empty();
    assert(one.last() == (receiver, handles.0));
    assert(after_receives(both, none, tag) == both);
    assert(taken_by_receives(both, none, tag) == Seq::<Option<StampedMessage<M>>>::empty());
    assert(seq![taken(both, receiver, tag)] == Seq::<Option<StampedMessage<M>>>::empty().push(
        taken(both, receiver, tag),
    ));
    assert(after_receives(both, one, tag) == after_receive(both, receiver, tag, handles.0));
    assert(taken_by_receives(both, one, tag) == seq![taken(both, receiver, tag)]);
    assert(results == seq![taken(both, receiver, tag)].push(
        taken(after_receive(both, receiver, tag, handles.0), receiver, tag),
    ));
    assert(results[0] == Some(queued[0]));
    assert(results[1] == Some(queued[1]));
}

/// Broadcast sends of one tag, all accepted, made while at least as many
/// receivers wait for that tag and no message of it is stored: each send
/// wakes a different waiting receiver (the ones that blocked first, in
/// order), and the rest keep waiting; when as many receivers then receive
/// for the tag, each gets a message, the messages are exactly the ones sent,
/// each once and in order, and none of the tag is left.
pub proof fn lemma_send_race<M: Message, H>(
    s: ServerState<M, H>,
    tag: M::Tag,
    sends: Seq<(Identity, M)>,
    receivers: Seq<(Identity, H)>,
)
    requires
        forall|j: int| 0 <= j < s.messages.len() ==> s.messages[j].inner.spec_tag() != tag,
        forall|k: int|
            0 <= k < sends.len() ==> sends[k].1.spec_tag() == tag && sends[k].1.spec_recipient() is None,
        forall|k: int| 0 <= k < sends.len() ==> !throttled(after_sends(s, sends.take(k)), sends[k].0),
        waiting_handles(s.waitlist, tag).len() >= sends.len(),
        receivers.len() == sends.len(),
    ensures
        woken_by_sends(s, sends) == waiting_handles(s.waitlist, tag).take(
            sends.len() as int,
        ).map_values(|h: H| Some(h)),
        waiting_handles(after_sends(s, sends).waitlist, tag) == waiting_handles(s.waitlist, tag).skip(
            sends.len() as int,
        ),
        taken_by_receives(after_sends(s, sends), receivers, tag) == stamp_all(sends).map_values(
            |m: StampedMessage<M>| Some(m),
        ),
        after_receives(after_sends(s, sends), receivers, tag).messages == s.messages,
{
    lemma_sends_wake_in_order(s, tag, sends);
    let queued = stamp_all(sends);
    lemma_receives_take_in_order(after_sends(s, sends), s.messages, queued, receivers, tag);
    assert(queued.take(sends.len() as int) == queued);
    assert(s.messages + queued.skip(sends.len() as int) == s.messages);
}

} // verus!
