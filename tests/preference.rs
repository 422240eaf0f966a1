use distribuida::message_queue::{Message, Server};

#[derive(Debug)]
struct Note {
    topic: u8,
    to: Option<u128>,
    text: &'static str,
}

// Outside Verus the trait's specification functions are ordinary methods,
// so an unverified payload gives them the same answers as its `tag` and
// `recipient`.
impl Message for Note {
    type Tag = u8;

    fn spec_tag(&self) -> u8 {
        self.topic
    }

    fn spec_recipient(&self) -> Option<u128> {
        self.to
    }

    fn tag(&self) -> u8 {
        self.topic
    }

    fn recipient(&self) -> Option<u128> {
        self.to
    }

    fn same_tag(a: &u8, b: &u8) -> bool {
        a == b
    }
}

fn note(topic: u8, to: Option<u128>, text: &'static str) -> Note {
    Note { topic, to, text }
}

#[test]
fn addressed_message_is_taken_before_an_older_broadcast_one() {
    let mut server: Server<Note, u32> = Server::new();
    server.send(1, note(3, None, "for anyone")).unwrap();
    server.send(1, note(3, Some(42), "for 42")).unwrap();
    let first = server.get_message(3, 42, 1).unwrap();
    assert_eq!(first.inner.text, "for 42");
    let second = server.get_message(3, 42, 2).unwrap();
    assert_eq!(second.inner.text, "for anyone");
}

#[test]
fn other_receivers_take_only_the_broadcast_message() {
    let mut server: Server<Note, u32> = Server::default();
    server.send(1, note(3, Some(42), "for 42")).unwrap();
    server.send(1, note(3, None, "for anyone")).unwrap();
    let got = server.get_message(3, 7, 1).unwrap();
    assert_eq!(got.inner.text, "for anyone");
    assert!(server.get_message(3, 7, 2).is_none());
    assert_eq!(server.get_message(3, 42, 3).unwrap().inner.text, "for 42");
}

#[test]
fn messages_of_another_topic_are_left_alone() {
    let mut server: Server<Note, u32> = Server::new().with_throttling(None);
    server.send(1, note(4, None, "topic four")).unwrap();
    assert!(server.get_message(3, 7, 1).is_none());
    // The receiver of topic three waits; a message of topic four wakes nobody.
    assert_eq!(server.send(1, note(4, None, "again")), Ok(None));
    assert_eq!(server.send(1, note(3, None, "three")), Ok(Some(1)));
}
