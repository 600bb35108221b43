//! What the server does with a request, and how a connection moves between
//! its states. Reading from and writing to the socket is the caller's part.

use std::sync::mpsc::Receiver;
use vstd::prelude::*;
use crate::decimal::{decimal_text, u64_to_text};
use crate::kvstore::{read_ttl, read_value, written, Entry, KvStore, NANOS_PER_SECOND};
use crate::packetreader::{frame_request, Request, RequestPacket};
use crate::pubsub::{published, same_channels, subscribed, Delivery, PubSub};

verus! {

/// What all connections share: the broker and the store.
pub struct ServerState {
    pub ps: PubSub,
    pub kv: KvStore,
}

/// What follows from one request.
pub enum Outcome {
    /// Write this text as one frame and go on reading requests.
    Reply { text: String },
    /// A message was published with these deliveries: write this text as
    /// one frame and go on reading requests.
    Published { text: String, deliveries: Vec<Delivery> },
    /// Relay to the client every message that arrives on this queue.
    Relay { queue: Receiver<String> },
    /// Write nothing and go on reading requests.
    Silent,
}

/// The states of a connection.
#[derive(Clone, Copy, Debug, PartialEq, Eq, Structural)]
pub enum Connection {
    /// Requests are read and answered.
    Reading,
    /// The client has subscribed: messages are relayed, requests no longer
    /// read.
    Relaying,
    /// The connection has ended.
    Closed,
}

/// What can happen on a connection.
#[derive(Clone, Copy, Debug, PartialEq, Eq, Structural)]
pub enum Event {
    /// A request was answered, or called for no answer.
    Answered,
    /// A request subscribed the client to a channel.
    Subscribed,
    /// A published message was written to the client.
    Relayed,
    /// A read gave no bytes: the client has closed the connection.
    PeerClosed,
    /// A read or a write failed.
    Broken,
}

/// The state after an event. The end of the connection is final, and a
/// relaying connection never reads requests again.
pub open spec fn next_state(state: Connection, event: Event) -> Connection {
    match (state, event) {
        (Connection::Closed, _) => Connection::Closed,
        (_, Event::PeerClosed) => Connection::Closed,
        (_, Event::Broken) => Connection::Closed,
        (Connection::Reading, Event::Subscribed) => Connection::Relaying,
        (Connection::Reading, _) => Connection::Reading,
        (Connection::Relaying, _) => Connection::Relaying,
    }
}

/// The text that answers a request, given what the store holds and the time
/// of the request. `Subscribe` is answered by relaying, not by a text.
pub open spec fn reply_text(request: Request, entries: Map<Seq<char>, Entry>, now: nat) -> Seq<
    char,
> {
    match request {
        Request::Publish { .. } => "published"@,
        Request::Subscribe { .. } => Seq::<char>::empty(),
        Request::SetValue { .. } => "set"@,
        Request::SetEx { .. } => "setex"@,
        Request::Get { key } => match read_value(entries, key, now) {
            Some(value) => "1\n"@ + value,
            None => "0"@,
        },
        Request::Ttl { key } => match read_ttl(entries, key, now) {
            Some(seconds) => decimal_text(seconds as nat),
            None => "0"@,
        },
        Request::Unknown => "unknown"@,
        Request::Invalid { error } => error,
    }
}

/// What the store holds after a request at the time `now`.
pub open spec fn entries_after(request: Request, entries: Map<Seq<char>, Entry>, now: nat) -> Map<
    Seq<char>,
    Entry,
> {
    match request {
        Request::SetValue { key, value } => entries.insert(key, written(value, None, now)),
        Request::SetEx { key, value, ttl } => entries.insert(key, written(value, Some(ttl), now)),
        _ => entries,
    }
}

/// What carrying out a request at the time `now` means for the server and
/// for the connection that sent it.
///
/// The store changes as `entries_after` says. `Publish` changes the broker as
/// a publication of the request's message does, `Subscribe` as a subscription
/// does, and any other request leaves it alone. `Subscribe` ends in `Relay`,
/// or in `Silent` where the broker has no number left for a subscriber;
/// `Publish` ends in `Published` with the deliveries that were made; every
/// other request ends in a `Reply` with the text that `reply_text` gives.
pub open spec fn carried_out(
    before: ServerState,
    after: ServerState,
    request: Request,
    outcome: Outcome,
    now: nat,
) -> bool {
    &&& after.kv@ == entries_after(request, before.kv@, now)
    &&& request matches Request::Subscribe { channel } ==> {
        &&& outcome is Relay <==> before.ps.next_id() < usize::MAX
        &&& outcome is Relay || outcome is Silent
        &&& outcome is Relay ==> subscribed(before.ps, after.ps, channel)
        &&& outcome is Silent ==> same_channels(before.ps, after.ps)
    }
    &&& request matches Request::Publish { channel, message } ==> {
        &&& outcome matches Outcome::Published { text, deliveries }
        &&& text@ == reply_text(request, before.kv@, now)
        &&& published(before.ps, after.ps, channel, message, deliveries@)
    }
    &&& !(request is Subscribe) && !(request is Publish) ==> {
        &&& outcome matches Outcome::Reply { text }
        &&& text@ == reply_text(request, before.kv@, now)
        &&& same_channels(before.ps, after.ps)
    }
}

/// The request reads or writes the store.
pub open spec fn touches_store(request: Request) -> bool {
    request is SetValue || request is SetEx || request is Get || request is Ttl
}

/// Whether the request reads or writes the store.
pub fn needs_store(packet: &RequestPacket) -> (needed: bool)
    ensures
        needed == touches_store(packet@),
{
    match packet {
        RequestPacket::SetValue { .. } => true,
        RequestPacket::SetEx { .. } => true,
        RequestPacket::Get { .. } => true,
        RequestPacket::Ttl { .. } => true,
        _ => false,
    }
}

/// The answer to a request that needs neither store nor a queue: to
/// `Publish`, `Unknown` and `Invalid`. `None` for every other request.
pub fn fixed_reply(packet: &RequestPacket) -> (reply: Option<String>)
    ensures
        reply is Some <==> !touches_store(packet@) && !(packet@ is Subscribe),
        reply matches Some(text) ==> forall|entries: Map<Seq<char>, Entry>, now: nat|
            text@ == #[trigger] reply_text(packet@, entries, now),
{
    match packet {
        RequestPacket::Publish { .. } => Some("published".to_owned()),
        RequestPacket::Unknown => Some("unknown".to_owned()),
        RequestPacket::Invalid { error } => Some(error.clone()),
        _ => None,
    }
}

/// Carries out on the store what a request asks of it at the time `now`, and
/// gives the text that answers the request. A request that does not touch
/// the store leaves it as it is.
pub fn store_reply(kv: &mut KvStore, packet: &RequestPacket, now: u128) -> (text: String)
    requires
        old(kv).wf(),
    ensures
        final(kv).wf(),
        final(kv)@ == entries_after(packet@, old(kv)@, now as nat),
        text@ == reply_text(packet@, old(kv)@, now as nat),
{
    match packet {
        RequestPacket::SetValue { key, value } => {
            kv.set_at(key.as_str(), value.as_str(), now);
            "set".to_owned()
        },
        RequestPacket::SetEx { key, value, ttl } => {
            kv.setex_at(key.as_str(), value.as_str(), *ttl, now);
            "setex".to_owned()
        },
        RequestPacket::Get { key } => {
            match kv.get_at(key.as_str(), now) {
                Some(value) => {
                    let mut text = "1\n".to_owned();
                    text.append(value.as_str());
                    text
                },
                None => "0".to_owned(),
            }
        },
        RequestPacket::Ttl { key } => {
            match kv.ttl_at(key.as_str(), now) {
                Some(seconds) => u64_to_text(seconds),
                None => "0".to_owned(),
            }
        },
        other => match fixed_reply(other) {
            Some(text) => text,
            None => String::new(),
        },
    }
}

/// An entry written by `SetEx` is what `Get` answers with until its time to
/// live has passed, and from then on `Get` answers that there is nothing.
pub proof fn lemma_setex_then_get(
    entries: Map<Seq<char>, Entry>,
    key: Seq<char>,
    value: Seq<char>,
    ttl: u64,
    now: nat,
    later: nat,
)
    requires
        now <= later,
    ensures
        ({
            let setex = Request::SetEx { key, value, ttl };
            let after = entries_after(setex, entries, now);
            let answer = reply_text(Request::Get { key }, after, later);
            &&& reply_text(setex, entries, now) == "setex"@
            &&& later - now < ttl * NANOS_PER_SECOND ==> answer == "1\n"@ + value
            &&& later - now >= ttl * NANOS_PER_SECOND ==> answer == "0"@
        }),
{
}

/// A closed connection stays closed, and a relaying connection never goes
/// back to reading requests, whatever happens.
pub proof fn lemma_no_way_back(state: Connection, event: Event)
    ensures
        state == Connection::Closed ==> next_state(state, event) == Connection::Closed,
        state == Connection::Relaying ==> next_state(state, event) != Connection::Reading,
        event == Event::PeerClosed || event == Event::Broken ==> next_state(state, event)
            == Connection::Closed,
{
}

impl Connection {
    /// Moves the connection on by one event.
    pub fn advance(self, event: Event) -> (next: Connection)
        ensures
            next == next_state(self, event),
    {
        match self {
            Connection::Closed => Connection::Closed,
            Connection::Reading => match event {
                Event::PeerClosed => Connection::Closed,
                Event::Broken => Connection::Closed,
                Event::Subscribed => Connection::Relaying,
                Event::Answered => Connection::Reading,
                Event::Relayed => Connection::Reading,
            },
            Connection::Relaying => match event {
                Event::PeerClosed => Connection::Closed,
                Event::Broken => Connection::Closed,
                _ => Connection::Relaying,
            },
        }
    }
}

impl Outcome {
    /// The event that this outcome is for the connection.
    pub open spec fn event(&self) -> Event {
        match self {
            Outcome::Relay { .. } => Event::Subscribed,
            _ => Event::Answered,
        }
    }
}

impl ServerState {
    /// Broker and store are well formed.
    pub open spec fn wf(&self) -> bool {
        self.ps.wf() && self.kv.wf()
    }

    /// A server that holds nothing yet.
    pub fn new() -> (state: ServerState)
        ensures
            state.wf(),
            state.kv@ == Map::<Seq<char>, Entry>::empty(),
            state.ps.next_id() == 0,
            forall|c: Seq<char>| #[trigger] state.ps.subscribers(c) == Seq::<usize>::empty(),
    {
        ServerState { ps: PubSub::new(), kv: KvStore::new() }
    }

    /// Carries out a request at the time `now`, as `carried_out` says.
    pub fn execute_at(&mut self, packet: RequestPacket, now: u128) -> (outcome: Outcome)
        requires
            old(self).wf(),
        ensures
            final(self).wf(),
            carried_out(*old(self), *final(self), packet@, outcome, now as nat),
    {
        if needs_store(&packet) {
            return Outcome::Reply { text: store_reply(&mut self.kv, &packet, now) };
        }
        match packet {
            RequestPacket::Publish { channel, message } => {
                let deliveries = self.ps.publish(channel, message);
                Outcome::Published { text: "published".to_owned(), deliveries }
            },
            RequestPacket::Subscribe { channel } => {
                match self.ps.subscribe(channel) {
                    Ok(queue) => Outcome::Relay { queue },
                    Err(_) => Outcome::Silent,
                }
            },
            other => {
                match fixed_reply(&other) {
                    Some(text) => Outcome::Reply { text },
                    None => Outcome::Silent,
                }
            },
        }
    }

    /// Carries out a request at the time that the store's clock shows.
    pub fn execute(&mut self, packet: RequestPacket) -> (outcome: Outcome)
        requires
            old(self).wf(),
        ensures
            final(self).wf(),
            exists|now: nat| #[trigger]
                carried_out(*old(self), *final(self), packet@, outcome, now),
    {
        let now = self.kv.now();
        let ghost request = packet@;
        let outcome = self.execute_at(packet, now);
        assert(carried_out(*old(self), *self, request, outcome, now as nat));
        outcome
    }

    /// Decodes one frame and carries out the request in it, at the time that
    /// the store's clock shows.
    pub fn process(&mut self, frame: &[u8]) -> (outcome: Outcome)
        requires
            old(self).wf(),
        ensures
            final(self).wf(),
            exists|now: nat| #[trigger]
                carried_out(*old(self), *final(self), frame_request(frame@), outcome, now),
    {
        self.execute(RequestPacket::from_bytes(frame))
    }
}

impl Outcome {
    /// What this outcome means for the connection's state.
    pub fn as_event(&self) -> (event: Event)
        ensures
            event == self.event(),
    {
        match self {
            Outcome::Relay { .. } => Event::Subscribed,
            _ => Event::Answered,
        }
    }
}

} // verus!
