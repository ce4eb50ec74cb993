use protohack::codec::{encode_frame, LineDecoder};
use protohack::name::username_valid;
use protohack::room::Room;
use protohack::session::{format_welcome, join, leave, relay, session_step, SessionAction, SessionEvent};

#[test]
fn valid_names_join() {
    assert!(username_valid(&"alice".to_string()));
    assert!(username_valid(&"bob7".to_string()));
    assert!(username_valid(&"7bob".to_string()));
    assert!(username_valid(&"A".to_string()));
}

#[test]
fn invalid_names_rejected() {
    assert!(!username_valid(&"".to_string()));
    assert!(!username_valid(&"123".to_string()));
    assert!(!username_valid(&"bob smith".to_string()));
    assert!(!username_valid(&"bob!".to_string()));
    assert!(!username_valid(&"bob-7".to_string()));
}

#[test]
fn welcome_banner() {
    assert_eq!(
        format_welcome(&"local".to_string()),
        "Welcome to budgetchat local! What shall I call you?"
    );
}

#[test]
fn join_relay_leave_scenario() {
    let mut room = Room::new();

    let a = join(&mut room, 1, &"A".to_string()).expect("A should join");
    assert_eq!(a.room_contains, "* The room contains: ");
    assert!(a.notified.is_empty());

    let b = join(&mut room, 2, &"B".to_string()).expect("B should join");
    assert_eq!(b.room_contains, "* The room contains: A");
    assert_eq!(b.notified, vec![1]);
    assert_eq!(room.pop_mailbox(1), Some("* B has joined".to_string()));

    let notified = relay(&mut room, 1, &"A".to_string(), &"hi".to_string());
    assert_eq!(notified, vec![2]);
    assert_eq!(room.pop_mailbox(2), Some("[A] hi".to_string()));
    assert_eq!(room.pop_mailbox(1), None);

    let notified = leave(&mut room, 2, &"B".to_string());
    assert_eq!(notified, vec![1]);
    assert_eq!(room.pop_mailbox(1), Some("* B has left the chat".to_string()));
    assert_eq!(room.len(), 1);
}

#[test]
fn digits_only_name_never_registers() {
    let mut room = Room::new();
    let present = join(&mut room, 7, &"lurker".to_string()).expect("valid name");
    assert!(present.notified.is_empty());

    assert!(join(&mut room, 8, &"123".to_string()).is_none());
    assert_eq!(room.len(), 1);
    // nobody was told about a join
    assert_eq!(room.pop_mailbox(7), None);
}

#[test]
fn broadcast_order_per_sender() {
    let mut room = Room::new();
    join(&mut room, 1, &"A".to_string()).unwrap();
    join(&mut room, 2, &"B".to_string()).unwrap();
    assert_eq!(room.pop_mailbox(1), Some("* B has joined".to_string()));

    relay(&mut room, 1, &"A".to_string(), &"first".to_string());
    relay(&mut room, 1, &"A".to_string(), &"second".to_string());
    relay(&mut room, 1, &"A".to_string(), &"third".to_string());
    assert_eq!(room.pop_mailbox(2), Some("[A] first".to_string()));
    assert_eq!(room.pop_mailbox(2), Some("[A] second".to_string()));
    assert_eq!(room.pop_mailbox(2), Some("[A] third".to_string()));
    assert_eq!(room.pop_mailbox(2), None);
}

#[test]
fn broadcast_skips_sender() {
    let mut room = Room::new();
    join(&mut room, 1, &"A".to_string()).unwrap();
    join(&mut room, 2, &"B".to_string()).unwrap();
    room.pop_mailbox(1);

    let notified = room.broadcast(1, &"x".to_string());
    assert_eq!(notified, vec![2]);
    assert_eq!(room.pop_mailbox(1), None);
}

#[test]
fn unregister_is_idempotent() {
    let mut room = Room::new();
    join(&mut room, 1, &"A".to_string()).unwrap();
    join(&mut room, 2, &"B".to_string()).unwrap();

    room.unregister(2);
    assert_eq!(room.len(), 1);
    assert!(!room.contains(2));
    room.unregister(2);
    assert_eq!(room.len(), 1);
    assert!(room.contains(1));
}

#[test]
fn unregistered_gets_no_more_broadcasts() {
    let mut room = Room::new();
    join(&mut room, 1, &"A".to_string()).unwrap();
    join(&mut room, 2, &"B".to_string()).unwrap();
    join(&mut room, 3, &"C".to_string()).unwrap();

    room.unregister(2);
    let notified = room.broadcast(1, &"hello".to_string());
    assert_eq!(notified, vec![3]);
    assert_eq!(room.pop_mailbox(2), None);
    let snapshot = room.snapshot_names();
    assert_eq!(snapshot, vec!["A".to_string(), "C".to_string()]);
}

#[test]
fn session_steps_drive_the_loop() {
    let mut room = Room::new();
    join(&mut room, 1, &"A".to_string()).unwrap();
    join(&mut room, 2, &"B".to_string()).unwrap();
    room.pop_mailbox(1);

    let action = session_step(
        &mut room,
        1,
        &"A".to_string(),
        SessionEvent::InboundLine("hey".to_string()),
    );
    match action {
        SessionAction::Notified(ids) => assert_eq!(ids, vec![2]),
        _ => panic!("a line should be relayed"),
    }

    let action = session_step(&mut room, 2, &"B".to_string(), SessionEvent::MailboxReady);
    match action {
        SessionAction::Deliver(msg) => assert_eq!(msg, Some("[A] hey".to_string())),
        _ => panic!("a mailbox wake-up should deliver"),
    }

    let action = session_step(&mut room, 2, &"B".to_string(), SessionEvent::InboundEnded);
    match action {
        SessionAction::Ended(ids) => assert_eq!(ids, vec![1]),
        _ => panic!("the end of the stream should end the session"),
    }
    assert_eq!(room.pop_mailbox(1), Some("* B has left the chat".to_string()));
}

#[test]
fn decoder_splits_and_strips_frames() {
    let mut dec = LineDecoder::new(1024);
    let (frames, overflow) = dec.feed(b"ab\ncd");
    assert_eq!(frames, vec![b"ab".to_vec()]);
    assert!(!overflow);
    let (frames, overflow) = dec.feed(b"ef\n\n");
    assert_eq!(frames, vec![b"cdef".to_vec(), b"".to_vec()]);
    assert!(!overflow);
}

#[test]
fn decoder_accepts_frame_of_exactly_max_length() {
    let mut dec = LineDecoder::new(4);
    let (frames, overflow) = dec.feed(b"abcd\n");
    assert_eq!(frames, vec![b"abcd".to_vec()]);
    assert!(!overflow);
}

#[test]
fn oversized_frame_kills_only_its_own_session() {
    let mut dec = LineDecoder::new(8);
    let (frames, overflow) = dec.feed(b"short\nthis frame is far too long\n");
    assert_eq!(frames, vec![b"short".to_vec()]);
    assert!(overflow);

    // the offender leaves; the others keep talking undisturbed
    let mut room = Room::new();
    join(&mut room, 1, &"A".to_string()).unwrap();
    join(&mut room, 2, &"B".to_string()).unwrap();
    join(&mut room, 3, &"C".to_string()).unwrap();
    room.pop_mailbox(1);
    room.pop_mailbox(1);
    room.pop_mailbox(2);

    leave(&mut room, 3, &"C".to_string());
    assert_eq!(room.pop_mailbox(1), Some("* C has left the chat".to_string()));
    assert_eq!(room.pop_mailbox(2), Some("* C has left the chat".to_string()));

    relay(&mut room, 1, &"A".to_string(), &"still here?".to_string());
    assert_eq!(room.pop_mailbox(2), Some("[A] still here?".to_string()));
    relay(&mut room, 2, &"B".to_string(), &"yes".to_string());
    assert_eq!(room.pop_mailbox(1), Some("[B] yes".to_string()));
}

#[test]
fn frames_are_encoded_with_one_delimiter() {
    assert_eq!(encode_frame(&"hi".to_string()), "hi\n");
    assert_eq!(encode_frame(&"".to_string()), "\n");
}
