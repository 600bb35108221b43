//! The publish/subscribe broker: channels by name, each with its
//! subscribers in the order in which they subscribed.
//!
//! A subscriber is the sending end of an unbounded queue; the receiving end
//! is what `subscribe` hands to the connection that asked. What a queue
//! holds cannot be seen from here: a publication is told by its deliveries,
//! the list of what was offered to whom and whether the queue took it.

use std::sync::mpsc::{Receiver, Sender};
use vstd::hash_map::StringHashMap;
use vstd::prelude::*;

verus! {

/// The sending end of a queue of `std::sync::mpsc`.
#[verifier::external_type_specification]
#[verifier::external_body]
#[verifier::reject_recursive_types(T)]
pub struct ExSender<T>(Sender<T>);

/// The receiving end of a queue of `std::sync::mpsc`.
#[verifier::external_type_specification]
#[verifier::external_body]
#[verifier::reject_recursive_types(T)]
pub struct ExReceiver<T>(Receiver<T>);

/// `std::sync::mpsc::channel` makes a new unbounded queue and returns its
/// two ends. Nothing is claimed of them.
pub assume_specification<T>[ std::sync::mpsc::channel::<T> ]() -> (ends: (Sender<T>, Receiver<T>));

/// Calls `Sender::send`, which puts the message on the queue and never
/// blocks. It fails only where the receiving end is gone, which is all that
/// the result tells; when that is so depends on the other end's owner, so
/// nothing is claimed of the result.
#[verifier::external_body]
fn enqueue(sender: &Sender<String>, message: String) -> (accepted: bool) {
    sender.send(message).is_ok()
}

/// One subscription: its number and the sending end of its queue.
pub struct Subscriber {
    id: usize,
    sender: Sender<String>,
}

impl Subscriber {
    /// The number that tells this subscriber from all others of its broker.
    pub closed spec fn number(&self) -> usize {
        self.id
    }

    /// A subscriber with the given number that feeds the given queue.
    pub fn new(id: usize, sender: Sender<String>) -> (subscriber: Subscriber)
        ensures
            subscriber.number() == id,
    {
        Subscriber { id, sender }
    }

    /// Offers a message to the subscriber's queue and reports success
    /// whatever the queue said: delivery is best effort and is not
    /// acknowledged. `PubSub::deliver` tells which queues took a message.
    pub fn send(&self, message: String) -> (accepted: Result<(), ()>)
        ensures
            accepted is Ok,
    {
        let _taken = enqueue(&self.sender, message);
        Ok(())
    }
}

/// The numbers of a list of subscribers, in order.
spec fn ids_of(list: Seq<Subscriber>) -> Seq<usize> {
    list.map_values(|s: Subscriber| s.number())
}

/// Of a list, the items whose mark is `true`, in order.
pub open spec fn marked<T>(list: Seq<T>, marks: Seq<bool>) -> Seq<T>
    decreases list.len(),
{
    if list.len() == 0 || marks.len() != list.len() {
        Seq::<T>::empty()
    } else if marks.last() {
        marked(list.drop_last(), marks.drop_last()).push(list.last())
    } else {
        marked(list.drop_last(), marks.drop_last())
    }
}

/// The numbers rise along the list and stay below `bound`.
pub open spec fn rising_below(ids: Seq<usize>, bound: int) -> bool {
    &&& forall|i: int, j: int| 0 <= i < j < ids.len() ==> ids[i] < ids[j]
    &&& forall|i: int| 0 <= i < ids.len() ==> ids[i] < bound
}

/// Both brokers have the same subscribers on every channel, and give the
/// same number next.
pub open spec fn same_channels(before: PubSub, after: PubSub) -> bool {
    &&& after.next_id() == before.next_id()
    &&& forall|c: Seq<char>| #[trigger] after.subscribers(c) == before.subscribers(c)
}

/// `after` is `before` with one more subscriber on `channel`: it stands
/// last there and has the number that was next. No other channel differs.
pub open spec fn subscribed(before: PubSub, after: PubSub, channel: Seq<char>) -> bool {
    &&& after.next_id() == before.next_id() + 1
    &&& after.subscribers(channel) == before.subscribers(channel).push(before.next_id())
    &&& forall|c: Seq<char>|
        c != channel ==> #[trigger] after.subscribers(c) == before.subscribers(c)
}

/// One offer of a publication, and what became of it.
pub struct Delivery {
    /// The number of the subscriber whose queue was offered the message.
    pub subscriber: usize,
    /// The text that was offered.
    pub message: String,
    /// Whether the queue took it; it does not where nobody reads the queue
    /// any more.
    pub accepted: bool,
}

/// The deliveries are those of one publication of `message` to the
/// `subscribers`: one for each subscriber, in their order, each with a text
/// equal to the message, and none for anybody else.
pub open spec fn delivers(deliveries: Seq<Delivery>, subscribers: Seq<usize>, message: Seq<char>)
    -> bool {
    &&& deliveries.len() == subscribers.len()
    &&& forall|i: int|
        0 <= i < deliveries.len() ==> (#[trigger] deliveries[i]).subscriber == subscribers[i]
            && deliveries[i].message@ == message
}

/// For each delivery, whether the queue took the message.
pub open spec fn marks_of(deliveries: Seq<Delivery>) -> Seq<bool> {
    deliveries.map_values(|d: Delivery| d.accepted)
}

/// `after` is `before` after one publication of `message` on `channel` with
/// these deliveries: every subscriber that the channel had was offered the
/// message, in the order of subscription, and nobody else was offered
/// anything; the channel keeps those whose queue took it, in their order.
/// No other channel differs.
pub open spec fn published(
    before: PubSub,
    after: PubSub,
    channel: Seq<char>,
    message: Seq<char>,
    deliveries: Seq<Delivery>,
) -> bool {
    &&& after.next_id() == before.next_id()
    &&& delivers(deliveries, before.subscribers(channel), message)
    &&& after.subscribers(channel) == marked(before.subscribers(channel), marks_of(deliveries))
    &&& forall|c: Seq<char>|
        c != channel ==> #[trigger] after.subscribers(c) == before.subscribers(c)
}

/// What is left of a rising list of numbers rises too, and holds nothing
/// above the list's last number.
pub proof fn lemma_marked_rising(ids: Seq<usize>, marks: Seq<bool>, bound: int)
    requires
        rising_below(ids, bound),
    ensures
        rising_below(marked(ids, marks), bound),
        marked(ids, marks).len() <= ids.len(),
        forall|k: int|
            0 <= k < marked(ids, marks).len() ==> #[trigger] marked(ids, marks)[k] <= ids.last(),
    decreases ids.len(),
{
    if ids.len() > 0 && marks.len() == ids.len() {
        let shorter = ids.drop_last();
        lemma_marked_rising(shorter, marks.drop_last(), bound);
        let before = marked(shorter, marks.drop_last());
        assert forall|k: int| 0 <= k < before.len() implies #[trigger] before[k] < ids.last() by {
            assert(before[k] <= shorter.last());
            assert(shorter.last() == ids[ids.len() - 2]);
        }
    }
}

/// Where every mark is `true`, the whole list is left, in its order.
pub proof fn lemma_marked_all<T>(list: Seq<T>, marks: Seq<bool>)
    requires
        marks.len() == list.len(),
        forall|i: int| 0 <= i < marks.len() ==> marks[i],
    ensures
        marked(list, marks) == list,
    decreases list.len(),
{
    if list.len() > 0 {
        lemma_marked_all(list.drop_last(), marks.drop_last());
        assert(list.drop_last().push(list.last()) == list);
    }
}

/// A publication whose every delivery was taken leaves the channel's
/// subscribers as they were.
pub proof fn lemma_published_all_taken(
    before: PubSub,
    after: PubSub,
    channel: Seq<char>,
    message: Seq<char>,
    deliveries: Seq<Delivery>,
)
    requires
        published(before, after, channel, message, deliveries),
        forall|i: int| 0 <= i < deliveries.len() ==> (#[trigger] deliveries[i]).accepted,
    ensures
        after.subscribers(channel) == before.subscribers(channel),
        same_channels(before, after),
{
    lemma_marked_all(before.subscribers(channel), marks_of(deliveries));
}

/// The broker: for each channel the place of its list of subscribers, the
/// lists, and the number that the next subscriber gets.
pub struct PubSub {
    index: StringHashMap<usize>,
    lists: Vec<Vec<Subscriber>>,
    next_sub_id: usize,
}

impl PubSub {
    /// Every channel has a list of its own, and the subscribers' numbers
    /// rise along each list and are below the next number. Every broker that
    /// `new` made and the methods below changed is well formed.
    pub closed spec fn wf(&self) -> bool {
        &&& forall|c: Seq<char>| #[trigger]
            self.index@.contains_key(c) ==> self.index@[c] < self.lists@.len()
        &&& forall|c: Seq<char>, d: Seq<char>|
            self.index@.contains_key(c) && self.index@.contains_key(d) && c != d
                ==> #[trigger] self.index@[c] != #[trigger] self.index@[d]
        &&& forall|i: int|
            0 <= i < self.lists@.len() ==> rising_below(
                ids_of(#[trigger] self.lists@[i]@),
                self.next_sub_id as int,
            )
    }

    /// The numbers of the channel's subscribers, in the order in which they
    /// subscribed. Empty for a channel that nobody subscribed to.
    pub closed spec fn subscribers(&self, channel: Seq<char>) -> Seq<usize> {
        if self.index@.contains_key(channel) {
            ids_of(self.lists@[self.index@[channel] as int]@)
        } else {
            Seq::<usize>::empty()
        }
    }

    /// The number that the next subscriber gets.
    pub closed spec fn next_id(&self) -> usize {
        self.next_sub_id
    }

    /// In a well-formed broker the numbers of a channel's subscribers rise in
    /// the order of subscription, and all are below the next number.
    pub proof fn lemma_ids_rise(&self, channel: Seq<char>)
        requires
            self.wf(),
        ensures
            rising_below(self.subscribers(channel), self.next_id() as int),
    {
        if self.index@.contains_key(channel) {
            assert(rising_below(
                ids_of(self.lists@[self.index@[channel] as int]@),
                self.next_sub_id as int,
            ));
        }
    }

    /// A broker without channels.
    pub fn new() -> (broker: PubSub)
        ensures
            broker.wf(),
            broker.next_id() == 0,
            forall|c: Seq<char>| #[trigger] broker.subscribers(c) == Seq::<usize>::empty(),
    {
        PubSub { index: StringHashMap::new(), lists: Vec::new(), next_sub_id: 0 }
    }

    /// Adds a subscriber to the channel, after those that it has, and hands
    /// out the receiving end of the new subscriber's queue. The subscriber
    /// gets the next number. Fails only when the numbers have run out, and
    /// then changes nothing.
    pub fn subscribe(&mut self, channel: String) -> (queue: Result<Receiver<String>, ()>)
        requires
            old(self).wf(),
        ensures
            final(self).wf(),
            queue is Ok <==> old(self).next_id() < usize::MAX,
            queue is Ok ==> subscribed(*old(self), *final(self), channel@),
            queue is Err ==> same_channels(*old(self), *final(self)),
    {
        if self.next_sub_id == usize::MAX {
            return Err(());
        }
        let (sender, receiver) = std::sync::mpsc::channel();
        let subscriber = Subscriber::new(self.next_sub_id, sender);
        let ghost id = self.next_sub_id;
        self.next_sub_id = self.next_sub_id + 1;
        let place = match self.index.get(channel.as_str()) {
            Some(slot) => Some(*slot),
            None => None,
        };
        match place {
            Some(i) => {
                let ghost before = ids_of(self.lists@[i as int]@);
                self.lists[i].push(subscriber);
                proof {
                    assert(ids_of(self.lists@[i as int]@) == before.push(id));
                    assert forall|k: int| 0 <= k < self.lists@.len() implies rising_below(
                        ids_of(#[trigger] self.lists@[k]@),
                        self.next_sub_id as int,
                    ) by {
                        assert(rising_below(ids_of(old(self).lists@[k]@), id as int));
                    }
                    assert forall|c: Seq<char>| c != channel@ implies #[trigger] self.subscribers(
                        c,
                    ) == old(self).subscribers(c) by {
                        if self.index@.contains_key(c) {
                            assert(self.index@[c] != self.index@[channel@]);
                        }
                    }
                }
            },
            None => {
                let mut list: Vec<Subscriber> = Vec::new();
                list.push(subscriber);
                let i = self.lists.len();
                self.lists.push(list);
                self.index.insert(channel, i);
                proof {
                    assert(ids_of(self.lists@[i as int]@) == Seq::<usize>::empty().push(id));
                    assert forall|k: int| 0 <= k < self.lists@.len() implies rising_below(
                        ids_of(#[trigger] self.lists@[k]@),
                        self.next_sub_id as int,
                    ) by {
                        if k < i {
                            assert(rising_below(ids_of(old(self).lists@[k]@), id as int));
                        }
                    }
                    assert forall|c: Seq<char>, d: Seq<char>|
                        self.index@.contains_key(c) && self.index@.contains_key(d) && c != d
                        implies #[trigger] self.index@[c] != #[trigger] self.index@[d] by {
                        if c != channel@ {
                            assert(old(self).index@.contains_key(c));
                        }
                        if d != channel@ {
                            assert(old(self).index@.contains_key(d));
                        }
                    }
                    assert forall|c: Seq<char>| c != channel@ implies #[trigger] self.subscribers(
                        c,
                    ) == old(self).subscribers(c) by {
                        if self.index@.contains_key(c) {
                            assert(old(self).index@.contains_key(c));
                        }
                    }
                }
            },
        }
        Ok(receiver)
    }

    /// What a publication of `message` on `channel` offers: for each
    /// subscriber of the channel, in the order of subscription, its number
    /// and a copy of the message. Nobody else is offered anything.
    pub fn offers(&self, channel: &str, message: &str) -> (list: Vec<(usize, String)>)
        requires
            self.wf(),
        ensures
            list@.len() == self.subscribers(channel@).len(),
            forall|i: int|
                0 <= i < list@.len() ==> (#[trigger] list@[i]).0 == self.subscribers(channel@)[i]
                    && list@[i].1@ == message@,
    {
        let mut list: Vec<(usize, String)> = Vec::new();
        match self.index.get(channel) {
            None => {},
            Some(slot) => {
                let subscribers = &self.lists[*slot];
                let mut j: usize = 0;
                while j < subscribers.len()
                    invariant
                        j <= subscribers.len(),
                        list@.len() == j,
                        forall|i: int|
                            0 <= i < j ==> (#[trigger] list@[i]).0 == ids_of(subscribers@)[i]
                                && list@[i].1@ == message@,
                    decreases subscribers.len() - j,
                {
                    list.push((subscribers[j].id, message.to_owned()));
                    j = j + 1;
                }
            },
        }
        list
    }

    /// Hands each offer of `offers` to the queue of its subscriber, in the
    /// order of subscription, and reports each with what its queue said. The
    /// broker itself does not change.
    pub fn deliver(&self, channel: &str, message: &str) -> (deliveries: Vec<Delivery>)
        requires
            self.wf(),
        ensures
            delivers(deliveries@, self.subscribers(channel@), message@),
    {
        let offers = self.offers(channel, message);
        let ghost offered = offers@;
        let mut deliveries: Vec<Delivery> = Vec::new();
        match self.index.get(channel) {
            None => {},
            Some(slot) => {
                let subscribers = &self.lists[*slot];
                let mut j: usize = 0;
                for offer in it: offers
                    invariant
                        it.seq() == offered,
                        j == it.index(),
                        offered.len() == subscribers.len(),
                        deliveries@.len() == j,
                        forall|i: int|
                            0 <= i < offered.len() ==> (#[trigger] offered[i]).0 == ids_of(
                                subscribers@,
                            )[i] && offered[i].1@ == message@,
                        forall|i: int|
                            0 <= i < j ==> (#[trigger] deliveries@[i]).subscriber == ids_of(
                                subscribers@,
                            )[i] && deliveries@[i].message@ == message@,
                {
                    let (subscriber, text) = offer;
                    assert(subscribers[j as int].number() == subscriber);
                    let copy = text.clone();
                    let accepted = enqueue(&subscribers[j].sender, text);
                    deliveries.push(Delivery { subscriber, message: copy, accepted });
                    j = j + 1;
                }
            },
        }
        deliveries
    }

    /// For each delivery, whether the queue took the message.
    pub fn marks(deliveries: &Vec<Delivery>) -> (accepted: Vec<bool>)
        ensures
            accepted@ == marks_of(deliveries@),
    {
        let mut accepted: Vec<bool> = Vec::new();
        let mut j: usize = 0;
        while j < deliveries.len()
            invariant
                j <= deliveries.len(),
                accepted@ == marks_of(deliveries@.take(j as int)),
            decreases deliveries.len() - j,
        {
            proof {
                assert(deliveries@.take(j + 1).drop_last() == deliveries@.take(j as int));
                assert(marks_of(deliveries@.take(j + 1)) == marks_of(
                    deliveries@.take(j as int),
                ).push(deliveries@[j as int].accepted));
            }
            accepted.push(deliveries[j].accepted);
            j = j + 1;
        }
        assert(deliveries@.take(deliveries@.len() as int) == deliveries@);
        accepted
    }

    /// Drops from the channel each subscriber whose mark in `accepted` is
    /// `false`, and returns the numbers of those that stay, in order. Where
    /// `accepted` has not one mark for each subscriber of the channel,
    /// nothing changes and nothing is returned.
    pub fn settle(&mut self, channel: &str, accepted: &Vec<bool>) -> (reached: Vec<usize>)
        requires
            old(self).wf(),
        ensures
            final(self).wf(),
            final(self).next_id() == old(self).next_id(),
            reached@ == marked(old(self).subscribers(channel@), accepted@),
            final(self).subscribers(channel@) == if accepted@.len() == old(self).subscribers(
                channel@,
            ).len() {
                reached@
            } else {
                old(self).subscribers(channel@)
            },
            forall|c: Seq<char>|
                c != channel@ ==> #[trigger] final(self).subscribers(c) == old(self).subscribers(c),
    {
        let place = match self.index.get(channel) {
            Some(slot) => Some(*slot),
            None => None,
        };
        let i = match place {
            Some(i) => i,
            None => {
                return Vec::new();
            },
        };
        if accepted.len() != self.lists[i].len() {
            return Vec::new();
        }
        let ghost ids = ids_of(self.lists@[i as int]@);
        let mut taken: Vec<Subscriber> = Vec::new();
        std::mem::swap(&mut self.lists[i], &mut taken);
        let mut kept: Vec<Subscriber> = Vec::new();
        let mut reached: Vec<usize> = Vec::new();
        let n = accepted.len();
        let mut j: usize = 0;
        for subscriber in it: taken
            invariant
                ids_of(it.seq()) == ids,
                ids.len() == n,
                n == accepted@.len(),
                j == it.index(),
                reached@ == ids_of(kept@),
                reached@ == marked(ids.take(j as int), accepted@.take(j as int)),
        {
            proof {
                assert(ids.take(j + 1).drop_last() == ids.take(j as int));
                assert(accepted@.take(j + 1).drop_last() == accepted@.take(j as int));
                assert(ids.take(j + 1).last() == subscriber.number());
            }
            if accepted[j] {
                let ghost before = ids_of(kept@);
                reached.push(subscriber.id);
                kept.push(subscriber);
                assert(ids_of(kept@) == before.push(subscriber.number()));
            }
            j = j + 1;
        }
        self.lists[i] = kept;
        proof {
            assert(ids.take(ids.len() as int) == ids);
            assert(accepted@.take(accepted@.len() as int) == accepted@);
            lemma_marked_rising(ids, accepted@, self.next_sub_id as int);
            assert(rising_below(ids_of(old(self).lists@[i as int]@), self.next_sub_id as int));
            assert forall|k: int| 0 <= k < self.lists@.len() implies rising_below(
                ids_of(#[trigger] self.lists@[k]@),
                self.next_sub_id as int,
            ) by {
                if k != i {
                    assert(rising_below(
                        ids_of(old(self).lists@[k]@),
                        old(self).next_sub_id as int,
                    ));
                }
            }
            assert forall|c: Seq<char>| c != channel@ implies #[trigger] self.subscribers(c)
                == old(self).subscribers(c) by {
                if self.index@.contains_key(c) {
                    assert(self.index@[c] != self.index@[channel@]);
                }
            }
        }
        reached
    }

    /// Publishes a message on a channel: offers it to every subscriber of the
    /// channel, in the order in which they subscribed, and drops those whose
    /// queue nobody reads any more. Returns what was offered to whom, and
    /// whether the queue took it. Other channels are not touched.
    pub fn publish(&mut self, channel: String, message: String) -> (deliveries: Vec<Delivery>)
        requires
            old(self).wf(),
        ensures
            final(self).wf(),
            published(*old(self), *final(self), channel@, message@, deliveries@),
    {
        let deliveries = self.deliver(channel.as_str(), message.as_str());
        let accepted = PubSub::marks(&deliveries);
        let _kept = self.settle(channel.as_str(), &accepted);
        deliveries
    }
}

} // verus!
