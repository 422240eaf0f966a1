use distribuida::message_queue::server::Outcome;
use distribuida::message_queue::{Operation, OperationError, Server, StampedMessage};
use distribuida::{PrimesMessage, PrimesTag};

type Broker = Server<PrimesMessage, u32>;

fn register(server: &mut Broker) -> u128 {
    match server.handle_operation(Operation::Register, 0) {
        Outcome::Registered(id) => id,
        _ => panic!("register did not give an identity"),
    }
}

fn request(prime_size: u32) -> PrimesMessage {
    PrimesMessage::Request { prime_size }
}

fn response(recipient: u128, prime: Vec<u8>) -> PrimesMessage {
    PrimesMessage::Response { recipient, prime }
}

fn send(server: &mut Broker, sender: u128, message: PrimesMessage) -> (Result<(), OperationError>, Option<u32>) {
    match server.handle_operation(Operation::Send(sender, message), 0) {
        Outcome::Sent { result, wake } => (result, wake),
        _ => panic!("send did not answer as a send"),
    }
}

fn receive(server: &mut Broker, receiver: u128, tag: PrimesTag, handle: u32) -> Option<StampedMessage<PrimesMessage>> {
    match server.handle_operation(Operation::Receive(receiver, tag), handle) {
        Outcome::Delivered(m) => Some(m),
        Outcome::Waiting => None,
        _ => panic!("receive did not answer as a receive"),
    }
}

fn prime_size_of(m: &StampedMessage<PrimesMessage>) -> u32 {
    match m.inner {
        PrimesMessage::Request { prime_size } => prime_size,
        _ => panic!("expected a request"),
    }
}

#[test]
fn register_send_then_receive_from_another_client() {
    let mut server = Broker::new();
    let producer = register(&mut server);
    let consumer = register(&mut server);
    assert_ne!(producer, consumer);

    let (result, wake) = send(&mut server, producer, request(64));
    assert_eq!(result, Ok(()));
    assert_eq!(wake, None);

    let got = receive(&mut server, consumer, PrimesTag::Request, 1).expect("a request was stored");
    assert_eq!(got.sender, producer);
    assert_eq!(prime_size_of(&got), 64);
}

#[test]
fn registered_identities_are_random_uuids() {
    let server = Broker::new();
    let a = server.register();
    let b = server.register();
    assert_ne!(a, b);
    for id in [a, b] {
        assert_eq!((id >> 76) & 0xf, 4);
        assert_eq!((id >> 62) & 0x3, 2);
    }
}

#[test]
fn receive_never_crosses_tags() {
    let mut server = Broker::new();
    let asker = 7u128;
    let (result, _) = send(&mut server, 1, response(asker, vec![5]));
    assert_eq!(result, Ok(()));
    assert!(receive(&mut server, asker, PrimesTag::Request, 1).is_none());
    let got = receive(&mut server, asker, PrimesTag::Response, 2).expect("the response");
    assert_eq!(got.sender, 1);
}

#[test]
fn addressed_message_skips_other_receivers() {
    let mut server = Broker::new();
    let (alice, bob) = (10u128, 20u128);
    send(&mut server, 1, response(alice, vec![2])).0.unwrap();
    assert!(receive(&mut server, bob, PrimesTag::Response, 1).is_none());
    let got = receive(&mut server, alice, PrimesTag::Response, 2).expect("alice's response");
    match got.inner {
        PrimesMessage::Response { recipient, prime } => {
            assert_eq!(recipient, alice);
            assert_eq!(prime, vec![2]);
        }
        _ => panic!("expected a response"),
    }
}

#[test]
fn addressed_send_wakes_its_recipient_anywhere_in_the_waitlist() {
    let mut server = Broker::new();
    let (alice, bob) = (10u128, 20u128);
    assert!(receive(&mut server, bob, PrimesTag::Response, 1).is_none());
    assert!(receive(&mut server, alice, PrimesTag::Response, 2).is_none());
    let (result, wake) = send(&mut server, 1, response(alice, vec![3]));
    assert_eq!(result, Ok(()));
    assert_eq!(wake, Some(2));
    assert!(receive(&mut server, alice, PrimesTag::Response, 3).is_some());
    // Bob still waits: a send for nobody waiting wakes nobody.
    let (_, wake) = send(&mut server, 1, response(99, vec![1]));
    assert_eq!(wake, None);
}

#[test]
fn broadcast_messages_come_out_oldest_first() {
    let mut server = Broker::new();
    send(&mut server, 1, request(16)).0.unwrap();
    send(&mut server, 2, request(32)).0.unwrap();
    let first = receive(&mut server, 3, PrimesTag::Request, 1).unwrap();
    let second = receive(&mut server, 3, PrimesTag::Request, 2).unwrap();
    assert_eq!((first.sender, prime_size_of(&first)), (1, 16));
    assert_eq!((second.sender, prime_size_of(&second)), (2, 32));
    assert!(receive(&mut server, 3, PrimesTag::Request, 3).is_none());
}

#[test]
fn sends_wake_distinct_waiters_and_deliver_each_message_once() {
    let mut server = Broker::new();
    for handle in 1..=3u32 {
        assert!(receive(&mut server, 100 + handle as u128, PrimesTag::Request, handle).is_none());
    }
    let (_, first_wake) = send(&mut server, 1, request(16));
    let (_, second_wake) = send(&mut server, 1, request(32));
    assert_eq!(first_wake, Some(1));
    assert_eq!(second_wake, Some(2));

    let a = receive(&mut server, 101, PrimesTag::Request, 11).unwrap();
    let b = receive(&mut server, 102, PrimesTag::Request, 12).unwrap();
    assert_eq!(prime_size_of(&a), 16);
    assert_eq!(prime_size_of(&b), 32);

    // The third receiver is still queued: a new request wakes it.
    let (_, third_wake) = send(&mut server, 1, request(48));
    assert_eq!(third_wake, Some(3));
}

#[test]
fn throttling_refuses_the_send_past_the_ceiling() {
    let mut server = Broker::new().with_throttling(Some(2));
    let sender = 5u128;
    assert_eq!(send(&mut server, sender, request(1)).0, Ok(()));
    assert_eq!(send(&mut server, sender, request(2)).0, Ok(()));
    assert_eq!(send(&mut server, sender, request(3)).0, Err(OperationError::TooManyMessages));
    // Another sender is not held back.
    assert_eq!(send(&mut server, 6, request(4)).0, Ok(()));
    let got = receive(&mut server, 9, PrimesTag::Request, 1).unwrap();
    assert_eq!(prime_size_of(&got), 1);
    assert_eq!(send(&mut server, sender, request(5)).0, Ok(()));
}

#[test]
fn zero_ceiling_refuses_every_send() {
    let mut server = Broker::new().with_throttling(Some(0));
    assert_eq!(send(&mut server, 1, request(1)).0, Err(OperationError::TooManyMessages));
    assert!(receive(&mut server, 2, PrimesTag::Request, 1).is_none());
}

#[test]
fn refused_send_wakes_nobody() {
    let mut server = Broker::new().with_throttling(Some(0));
    assert!(receive(&mut server, 2, PrimesTag::Request, 4).is_none());
    assert_eq!(send(&mut server, 1, request(1)), (Err(OperationError::TooManyMessages), None));
}

#[test]
fn message_put_back_after_a_failed_reply_is_found_again() {
    let mut server = Broker::new();
    send(&mut server, 1, request(24)).0.unwrap();
    let taken = receive(&mut server, 2, PrimesTag::Request, 1).unwrap();
    assert!(receive(&mut server, 3, PrimesTag::Request, 2).is_none());
    // Putting it back wakes the receiver that blocked meanwhile.
    assert_eq!(server.put_message(taken), Some(2));
    let again = receive(&mut server, 2, PrimesTag::Request, 3).unwrap();
    assert_eq!((again.sender, prime_size_of(&again)), (1, 24));
}

#[test]
fn operation_error_explains_itself() {
    assert_eq!(
        OperationError::TooManyMessages.message(),
        "Too many messages from the same client in the queue. Try again later."
    );
}
