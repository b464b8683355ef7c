use pubsub_broker::protocol::{Frame, MessageType};
use pubsub_broker::pub_sub_topics::PubSubTopics;

fn sub(topic: &[u8], client: u128) -> Frame {
    Frame(MessageType::SUB, topic.to_vec(), None, client)
}

fn publish(topic: &[u8], content: &[u8], client: u128) -> Frame {
    Frame(MessageType::PUB, topic.to_vec(), Some(content.to_vec()), client)
}

fn quit(client: u128) -> Frame {
    Frame(MessageType::QUIT, Vec::new(), None, client)
}

#[test]
fn publish_is_acknowledged_then_fanned_out_in_order() {
    // Client A subscribes to "weather"; client B publishes "rain": B gets
    // `OK Publish weather`, then A gets `UPDATE rain weather`, in that order.
    let a: u128 = 1;
    let b: u128 = 2;
    let mut engine = PubSubTopics::new();

    let out = engine.process_frame(&sub(b"weather", a));
    assert_eq!(out.len(), 1);
    assert_eq!(out[0].0, a);
    assert_eq!(out[0].1.encode(), b"OK Subscribe weather\n".to_vec());

    let out = engine.process_frame(&publish(b"weather", b"rain", b));
    assert_eq!(out.len(), 2);
    assert_eq!(out[0].0, b);
    assert_eq!(out[0].1.encode(), b"OK Publish weather\n".to_vec());
    assert_eq!(out[1].0, a);
    assert_eq!(out[1].1.encode(), b"UPDATE rain weather\n".to_vec());
}

#[test]
fn publish_reaches_every_subscriber_and_nobody_else() {
    let (a1, a2, bystander, publisher): (u128, u128, u128, u128) = (1, 2, 3, 4);
    let mut engine = PubSubTopics::new();
    engine.process_frame(&sub(b"news", a1));
    engine.process_frame(&sub(b"news", a2));
    engine.process_frame(&sub(b"other", bystander));

    let out = engine.process_frame(&publish(b"news", b"hello", publisher));
    assert_eq!(out.len(), 3);
    assert_eq!(out[0].0, publisher);
    assert_eq!(out[0].1 .0, MessageType::OK);
    let update_recipients: Vec<u128> = out[1..].iter().map(|d| d.0).collect();
    assert_eq!(update_recipients, vec![a1, a2]);
    for d in &out[1..] {
        assert_eq!(d.1.encode(), b"UPDATE hello news\n".to_vec());
    }
}

#[test]
fn publish_without_subscribers_is_only_acknowledged() {
    let mut engine = PubSubTopics::new();
    let out = engine.process_frame(&publish(b"empty", b"noise", 9));
    assert_eq!(out.len(), 1);
    assert_eq!(out[0].0, 9);
    assert_eq!(out[0].1.encode(), b"OK Publish empty\n".to_vec());
}

#[test]
fn double_subscription_delivers_once() {
    let a: u128 = 1;
    let b: u128 = 2;
    let mut engine = PubSubTopics::new();
    engine.process_frame(&sub(b"weather", a));
    engine.process_frame(&sub(b"weather", a));

    let out = engine.process_frame(&publish(b"weather", b"rain", b));
    assert_eq!(out.len(), 2);
    let updates_to_a = out
        .iter()
        .filter(|d| d.0 == a && d.1 .0 == MessageType::UPDATE)
        .count();
    assert_eq!(updates_to_a, 1);
}

#[test]
fn quit_is_answered_with_a_quit_reply() {
    let a: u128 = 1;
    let mut engine = PubSubTopics::new();
    engine.process_frame(&sub(b"weather", a));
    let out = engine.process_frame(&quit(a));
    assert_eq!(out.len(), 1);
    assert_eq!(out[0].0, a);
    assert_eq!(out[0].1.encode(), b"QUIT\n".to_vec());
}

#[test]
fn quit_client_receives_no_further_deliveries() {
    let a: u128 = 1;
    let b: u128 = 2;
    let mut engine = PubSubTopics::new();
    engine.process_frame(&sub(b"weather", a));
    engine.process_frame(&sub(b"sports", a));
    engine.process_frame(&sub(b"weather", b));
    engine.process_frame(&quit(a));

    let out = engine.process_frame(&publish(b"weather", b"rain", b));
    assert!(out.iter().all(|d| d.0 != a));
    // B still hears about its own topic.
    assert_eq!(out.len(), 2);
    assert_eq!(out[1].0, b);

    let out = engine.process_frame(&publish(b"sports", b"score", b));
    assert_eq!(out.len(), 1);
    assert_eq!(out[0].0, b);
}

#[test]
fn topics_survive_their_last_subscriber() {
    // The topic entry stays after its only subscriber quits; a fresh
    // subscription reuses it.
    let a: u128 = 1;
    let b: u128 = 2;
    let mut engine = PubSubTopics::new();
    engine.process_frame(&sub(b"weather", a));
    engine.process_frame(&quit(a));
    engine.process_frame(&sub(b"weather", b));
    let out = engine.process_frame(&publish(b"weather", b"sun", a));
    assert_eq!(out.len(), 2);
    assert_eq!(out[1].0, b);
}

#[test]
fn reply_frames_produce_no_deliveries() {
    let mut engine = PubSubTopics::new();
    let out = engine.process_frame(&Frame(MessageType::OK, b"t".to_vec(), None, 1));
    assert!(out.is_empty());
    let out = engine.process_frame(&Frame(
        MessageType::UPDATE,
        b"t".to_vec(),
        Some(b"c".to_vec()),
        1,
    ));
    assert!(out.is_empty());
}

#[test]
fn fan_out_follows_subscription_order() {
    let mut engine = PubSubTopics::new();
    for client in [5u128, 3, 8, 1] {
        engine.process_frame(&sub(b"queue", client));
    }
    let out = engine.process_frame(&publish(b"queue", b"x", 99));
    let recipients: Vec<u128> = out[1..].iter().map(|d| d.0).collect();
    assert_eq!(recipients, vec![5, 3, 8, 1]);
}
