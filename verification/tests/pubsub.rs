use rustis::pubsub::{Delivery, PubSub, Subscriber};
use std::sync::mpsc;

/// What a delivery says, as plain values.
fn told(deliveries: &[Delivery]) -> Vec<(usize, &str, bool)> {
    deliveries.iter().map(|d| (d.subscriber, d.message.as_str(), d.accepted)).collect()
}

/// The numbers of the subscribers whose queue took the message.
fn reached(deliveries: Vec<Delivery>) -> Vec<usize> {
    deliveries.iter().filter(|d| d.accepted).map(|d| d.subscriber).collect()
}

#[test]
fn test() {
    let mut ps = PubSub::new();

    let receiver = ps.subscribe(String::from("test")).unwrap();

    let _ = ps.publish(String::from("test"), String::from("Hello world!"));

    let message = receiver.recv().unwrap();

    assert_eq!(&message, "Hello world!");
}

#[test]
fn publish_reaches_every_subscriber_in_the_order_of_subscription() {
    let mut ps = PubSub::new();
    let a = ps.subscribe(String::from("c")).unwrap();
    let b = ps.subscribe(String::from("c")).unwrap();
    let other = ps.subscribe(String::from("d")).unwrap();

    let deliveries = ps.publish(String::from("c"), String::from("hello"));

    assert_eq!(told(&deliveries), vec![(0, "hello", true), (1, "hello", true)]);
    assert_eq!(a.try_recv(), Ok(String::from("hello")));
    assert_eq!(b.try_recv(), Ok(String::from("hello")));
    assert_eq!(other.try_recv(), Err(mpsc::TryRecvError::Empty));
    assert_eq!(a.try_recv(), Err(mpsc::TryRecvError::Empty));
    assert_eq!(b.try_recv(), Err(mpsc::TryRecvError::Empty));
}

#[test]
fn publish_to_a_channel_without_subscribers_reaches_nobody() {
    let mut ps = PubSub::new();
    assert_eq!(reached(ps.publish(String::from("c"), String::from("m"))), Vec::<usize>::new());
    let d = ps.subscribe(String::from("d")).unwrap();
    assert_eq!(reached(ps.publish(String::from("c"), String::from("m"))), Vec::<usize>::new());
    assert_eq!(d.try_recv(), Err(mpsc::TryRecvError::Empty));
}

#[test]
fn messages_arrive_in_the_order_of_publication() {
    let mut ps = PubSub::new();
    let a = ps.subscribe(String::from("c")).unwrap();
    ps.publish(String::from("c"), String::from("one"));
    ps.publish(String::from("c"), String::from("two"));
    ps.publish(String::from("c"), String::from(""));
    assert_eq!(a.recv().unwrap(), "one");
    assert_eq!(a.recv().unwrap(), "two");
    assert_eq!(a.recv().unwrap(), "");
}

#[test]
fn subscriber_numbers_rise_across_channels() {
    let mut ps = PubSub::new();
    let _a = ps.subscribe(String::from("x")).unwrap();
    let _b = ps.subscribe(String::from("y")).unwrap();
    let _c = ps.subscribe(String::from("x")).unwrap();
    assert_eq!(reached(ps.publish(String::from("x"), String::from("m"))), vec![0, 2]);
    assert_eq!(reached(ps.publish(String::from("y"), String::from("m"))), vec![1]);
}

#[test]
fn a_subscriber_whose_queue_is_gone_is_dropped() {
    let mut ps = PubSub::new();
    let a = ps.subscribe(String::from("c")).unwrap();
    let b = ps.subscribe(String::from("c")).unwrap();
    let c = ps.subscribe(String::from("c")).unwrap();
    drop(b);
    assert_eq!(reached(ps.publish(String::from("c"), String::from("one"))), vec![0, 2]);
    assert_eq!(told(&ps.deliver("c", "two")), vec![(0, "two", true), (2, "two", true)]);
    drop(a);
    assert_eq!(reached(ps.publish(String::from("c"), String::from("three"))), vec![2]);
    assert_eq!(c.recv().unwrap(), "one");
    assert_eq!(c.recv().unwrap(), "two");
    assert_eq!(c.recv().unwrap(), "three");
    drop(c);
    assert_eq!(reached(ps.publish(String::from("c"), String::from("four"))), Vec::<usize>::new());
    let d = ps.subscribe(String::from("c")).unwrap();
    assert_eq!(reached(ps.publish(String::from("c"), String::from("five"))), vec![3]);
    assert_eq!(d.recv().unwrap(), "five");
}

#[test]
fn deliver_reports_each_queue_and_changes_nothing() {
    let mut ps = PubSub::new();
    let a = ps.subscribe(String::from("c")).unwrap();
    let b = ps.subscribe(String::from("c")).unwrap();
    drop(a);
    assert_eq!(told(&ps.deliver("c", "m")), vec![(0, "m", false), (1, "m", true)]);
    assert_eq!(told(&ps.deliver("c", "n")), vec![(0, "n", false), (1, "n", true)]);
    assert_eq!(told(&ps.deliver("nobody", "m")), Vec::new());
    assert_eq!(b.recv().unwrap(), "m");
    assert_eq!(b.recv().unwrap(), "n");
}

#[test]
fn settle_keeps_the_marked_in_order() {
    let mut ps = PubSub::new();
    let _a = ps.subscribe(String::from("c")).unwrap();
    let _b = ps.subscribe(String::from("c")).unwrap();
    let _c = ps.subscribe(String::from("c")).unwrap();
    let _d = ps.subscribe(String::from("d")).unwrap();
    assert_eq!(ps.settle("c", &vec![true, false, true]), vec![0, 2]);
    assert_eq!(PubSub::marks(&ps.deliver("c", "m")), vec![true, true]);
    assert_eq!(ps.settle("c", &vec![false, true]), vec![2]);
    assert_eq!(ps.settle("d", &vec![true]), vec![3]);
    assert_eq!(ps.settle("c", &vec![false]), Vec::<usize>::new());
    assert_eq!(told(&ps.deliver("c", "m")), Vec::new());
    assert_eq!(told(&ps.deliver("d", "m")), vec![(3, "m", true)]);
}

#[test]
fn settle_with_the_wrong_number_of_marks_changes_nothing() {
    let mut ps = PubSub::new();
    let _a = ps.subscribe(String::from("c")).unwrap();
    let _b = ps.subscribe(String::from("c")).unwrap();
    assert_eq!(ps.settle("c", &vec![false]), Vec::<usize>::new());
    assert_eq!(ps.settle("c", &vec![false, false, false]), Vec::<usize>::new());
    assert_eq!(ps.settle("c", &Vec::new()), Vec::<usize>::new());
    assert_eq!(ps.settle("nobody", &vec![true]), Vec::<usize>::new());
    assert_eq!(reached(ps.publish(String::from("c"), String::from("m"))), vec![0, 1]);
}

#[test]
fn subscriber_send_puts_the_message_on_the_queue() {
    let (sender, receiver) = mpsc::channel();
    let subscriber = Subscriber::new(7, sender);
    assert_eq!(subscriber.send(String::from("a")), Ok(()));
    assert_eq!(subscriber.send(String::from("b")), Ok(()));
    assert_eq!(receiver.recv().unwrap(), "a");
    assert_eq!(receiver.recv().unwrap(), "b");
    assert_eq!(receiver.try_recv(), Err(mpsc::TryRecvError::Empty));
}

#[test]
fn subscriber_send_does_not_tell_that_the_queue_is_gone() {
    let (sender, receiver) = mpsc::channel();
    let subscriber = Subscriber::new(7, sender);
    drop(receiver);
    assert_eq!(subscriber.send(String::from("c")), Ok(()));
}

#[test]
fn offers_are_the_message_for_each_subscriber_in_order() {
    let mut ps = PubSub::new();
    let _a = ps.subscribe(String::from("c")).unwrap();
    let _d = ps.subscribe(String::from("d")).unwrap();
    let _b = ps.subscribe(String::from("c")).unwrap();
    assert_eq!(
        ps.offers("c", "hello\nworld"),
        vec![(0, String::from("hello\nworld")), (2, String::from("hello\nworld"))]
    );
    assert_eq!(ps.offers("d", ""), vec![(1, String::new())]);
    assert_eq!(ps.offers("nobody", "hello"), Vec::new());
}

#[test]
fn each_subscriber_gets_one_copy_and_nobody_else_any() {
    let mut ps = PubSub::new();
    let a = ps.subscribe(String::from("c")).unwrap();
    let d = ps.subscribe(String::from("d")).unwrap();
    let b = ps.subscribe(String::from("c")).unwrap();
    let deliveries = ps.publish(String::from("c"), String::from("hello"));
    assert_eq!(told(&deliveries), vec![(0, "hello", true), (2, "hello", true)]);
    assert_eq!(a.try_iter().collect::<Vec<String>>(), vec![String::from("hello")]);
    assert_eq!(b.try_iter().collect::<Vec<String>>(), vec![String::from("hello")]);
    assert_eq!(d.try_iter().count(), 0);
    assert_eq!(reached(ps.publish(String::from("c"), String::from("again"))), vec![0, 2]);
}

#[test]
fn a_later_subscriber_does_not_get_an_earlier_message() {
    let mut ps = PubSub::new();
    let a = ps.subscribe(String::from("c")).unwrap();
    ps.publish(String::from("c"), String::from("before"));
    let late = ps.subscribe(String::from("c")).unwrap();
    assert_eq!(late.try_recv(), Err(mpsc::TryRecvError::Empty));
    ps.publish(String::from("c"), String::from("after"));
    assert_eq!(late.try_iter().collect::<Vec<String>>(), vec![String::from("after")]);
    assert_eq!(
        a.try_iter().collect::<Vec<String>>(),
        vec![String::from("before"), String::from("after")]
    );
}

#[test]
fn marks_are_what_the_queues_said() {
    let mut ps = PubSub::new();
    let a = ps.subscribe(String::from("c")).unwrap();
    let _b = ps.subscribe(String::from("c")).unwrap();
    drop(a);
    let deliveries = ps.deliver("c", "m");
    assert_eq!(PubSub::marks(&deliveries), vec![false, true]);
    assert_eq!(PubSub::marks(&Vec::new()), Vec::<bool>::new());
}
