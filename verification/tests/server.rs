use rustis::framing::{framed, FrameReader};
use rustis::kvstore::NANOS_PER_SECOND;
use rustis::packetreader::{RequestPacket, VERSION};
use rustis::server::{Connection, Event, Outcome, ServerState};

fn reply(outcome: Outcome) -> String {
    match outcome {
        Outcome::Reply { text } => text,
        Outcome::Published { text, .. } => text,
        Outcome::Relay { .. } => panic!("relay"),
        Outcome::Silent => panic!("silent"),
    }
}

fn get(key: &str) -> RequestPacket {
    RequestPacket::Get { key: String::from(key) }
}

#[test]
fn setex_then_get_then_get_after_the_ttl() {
    let mut state = ServerState::new();
    let start = 3 * NANOS_PER_SECOND;
    let setex = RequestPacket::SetEx { key: String::from("x"), value: String::from("1"), ttl: 1 };
    assert_eq!(reply(state.execute_at(setex, start)), "setex");
    assert_eq!(reply(state.execute_at(get("x"), start)), "1\n1");
    assert_eq!(reply(state.execute_at(get("x"), start + NANOS_PER_SECOND - 1)), "1\n1");
    assert_eq!(reply(state.execute_at(get("x"), start + NANOS_PER_SECOND)), "0");
    assert_eq!(reply(state.execute_at(get("x"), start + 5 * NANOS_PER_SECOND)), "0");
}

#[test]
fn the_same_over_the_wire() {
    let mut state = ServerState::new();
    let mut reader = FrameReader::new();
    let setex = RequestPacket::SetEx { key: String::from("x"), value: String::from("1"), ttl: 1 };
    let mut wire = framed(&setex.encode(VERSION).unwrap());
    wire.extend(framed(&get("x").encode(VERSION).unwrap()));
    let frames = reader.feed(&wire);
    assert_eq!(frames.len(), 2);
    assert_eq!(framed(&reply(state.process(&frames[0]))), b"setex\n\n".to_vec());
    assert_eq!(framed(&reply(state.process(&frames[1]))), b"1\n1\n\n".to_vec());
}

#[test]
fn set_and_get_are_answered() {
    let mut state = ServerState::new();
    let set = RequestPacket::SetValue { key: String::from("k"), value: String::from("a\nb") };
    assert_eq!(reply(state.execute(set)), "set");
    assert_eq!(reply(state.execute(get("k"))), "1\na\nb");
    assert_eq!(reply(state.execute(get("other"))), "0");
    let empty = RequestPacket::SetValue { key: String::from("e"), value: String::new() };
    assert_eq!(reply(state.execute(empty)), "set");
    assert_eq!(reply(state.execute(get("e"))), "1\n");
}

#[test]
fn ttl_answers_with_the_seconds_or_with_zero() {
    let mut state = ServerState::new();
    let ttl = |key: &str| RequestPacket::Ttl { key: String::from(key) };
    let setex = RequestPacket::SetEx { key: String::from("k"), value: String::from("v"), ttl: 120 };
    assert_eq!(reply(state.execute_at(setex, 0)), "setex");
    assert_eq!(reply(state.execute_at(ttl("k"), 119 * NANOS_PER_SECOND)), "120");
    assert_eq!(reply(state.execute_at(ttl("k"), 120 * NANOS_PER_SECOND)), "0");
    assert_eq!(reply(state.execute_at(ttl("nobody"), 0)), "0");
    let set = RequestPacket::SetValue { key: String::from("s"), value: String::from("v") };
    assert_eq!(reply(state.execute_at(set, 0)), "set");
    assert_eq!(reply(state.execute_at(ttl("s"), 0)), "0");
}

#[test]
fn unknown_and_invalid_are_answered_and_change_nothing() {
    let mut state = ServerState::new();
    assert_eq!(reply(state.execute(RequestPacket::Unknown)), "unknown");
    let invalid = RequestPacket::Invalid { error: String::from("missing key") };
    assert_eq!(reply(state.execute(invalid)), "missing key");
    assert_eq!(reply(state.process(b"Rustis 9.9.9\nget\nk")), "version mismatch");
    assert_eq!(reply(state.process(b"hello")), "missing headers");
    assert_eq!(reply(state.process(b"Rustis 1.0.0\nfoo")), "unknown");
    assert_eq!(reply(state.process(b"Rustis 1.0.0\nsetex\nk\nx\nv")), "invalid ttl");
    assert_eq!(reply(state.process(b"Rustis 1.0.0\nget\nk")), "0");
}

#[test]
fn subscribe_relays_what_is_published() {
    let mut state = ServerState::new();
    let subscribe = |channel: &str| RequestPacket::Subscribe { channel: String::from(channel) };
    let queue_a = match state.execute(subscribe("c")) {
        Outcome::Relay { queue } => queue,
        _ => panic!("no relay"),
    };
    let queue_b = match state.process(b"Rustis 1.0.0\nsubscribe\nc") {
        Outcome::Relay { queue } => queue,
        _ => panic!("no relay"),
    };
    let queue_d = match state.execute(subscribe("d")) {
        Outcome::Relay { queue } => queue,
        _ => panic!("no relay"),
    };
    let publish = RequestPacket::Publish { channel: String::from("c"), message: String::from("hello") };
    match state.execute(publish) {
        Outcome::Published { text, deliveries } => {
            assert_eq!(text, "published");
            let told: Vec<(usize, &str, bool)> =
                deliveries.iter().map(|d| (d.subscriber, d.message.as_str(), d.accepted)).collect();
            assert_eq!(told, vec![(0, "hello", true), (1, "hello", true)]);
        }
        _ => panic!("not published"),
    }
    assert_eq!(queue_a.try_recv().unwrap(), "hello");
    assert_eq!(queue_b.try_recv().unwrap(), "hello");
    assert!(queue_d.try_recv().is_err());
    assert_eq!(reply(state.process(b"Rustis 1.0.0\npublish\nnobody\nhello")), "published");
}

#[test]
fn outcomes_are_events() {
    let mut state = ServerState::new();
    assert_eq!(state.execute(RequestPacket::Unknown).as_event(), Event::Answered);
    let subscribe = RequestPacket::Subscribe { channel: String::from("c") };
    assert_eq!(state.execute(subscribe).as_event(), Event::Subscribed);
    assert_eq!(Outcome::Silent.as_event(), Event::Answered);
}

#[test]
fn a_connection_reads_until_it_subscribes_or_ends() {
    let c = Connection::Reading;
    assert_eq!(c.advance(Event::Answered), Connection::Reading);
    assert_eq!(c.advance(Event::Relayed), Connection::Reading);
    assert_eq!(c.advance(Event::Subscribed), Connection::Relaying);
    assert_eq!(c.advance(Event::PeerClosed), Connection::Closed);
    assert_eq!(c.advance(Event::Broken), Connection::Closed);
}

#[test]
fn a_relaying_connection_never_reads_again() {
    let c = Connection::Relaying;
    assert_eq!(c.advance(Event::Answered), Connection::Relaying);
    assert_eq!(c.advance(Event::Relayed), Connection::Relaying);
    assert_eq!(c.advance(Event::Subscribed), Connection::Relaying);
    assert_eq!(c.advance(Event::PeerClosed), Connection::Closed);
    assert_eq!(c.advance(Event::Broken), Connection::Closed);
}

#[test]
fn a_closed_connection_stays_closed() {
    for event in [Event::Answered, Event::Subscribed, Event::Relayed, Event::PeerClosed, Event::Broken] {
        assert_eq!(Connection::Closed.advance(event), Connection::Closed);
    }
}
