use rpgsanta_2022::actor::{Directive, Event, Phase, SessionActor, Turn};
use rpgsanta_2022::mailbox::Mailbox;
use rpgsanta_2022::GameData;

fn message(s: &str) -> Event {
    Event::Message(String::from(s))
}

fn respond(directive: Directive) -> Turn {
    match directive {
        Directive::Respond(turn) => turn,
        other => panic!("expected a turn, got {other:?}"),
    }
}

#[test]
fn new_actor_is_active_and_owns_the_game() {
    let mut actor = SessionActor::new(23, GameData::with_count(6));
    assert_eq!(actor.channel(), 23);
    assert_eq!(actor.phase(), Phase::Active);
    assert_eq!(actor.game().message_count(), 6);
    assert_eq!(respond(actor.on_event(message("look"))).reply, "7");
}

#[test]
fn spawn_without_snapshot_starts_a_fresh_game() {
    let actor = SessionActor::spawn(17, &[]);
    assert_eq!(actor.channel(), 17);
    assert_eq!(actor.phase(), Phase::Active);
    assert_eq!(actor.game().message_count(), 0);
}

#[test]
fn spawn_with_snapshot_goes_on_from_it() {
    let snapshot = GameData::with_count(40).encode().unwrap();
    let mut actor = SessionActor::spawn(17, &snapshot);
    assert_eq!(actor.game().message_count(), 40);
    let turn = respond(actor.on_event(message("look")));
    assert_eq!(turn.reply, "41");
}

#[test]
fn spawn_with_corrupt_snapshot_starts_a_fresh_game() {
    let actor = SessionActor::spawn(17, &[1, 2, 3]);
    assert_eq!(actor.game().message_count(), 0);
    assert_eq!(actor.phase(), Phase::Active);
}

#[test]
fn active_actor_answers_and_snapshots_each_text() {
    let mut actor = SessionActor::spawn(1, &[]);
    let turn = respond(actor.on_event(message("look")));
    assert_eq!(turn.reply, "1");
    assert_eq!(turn.snapshot.unwrap(), vec![1, 0, 0, 0, 0, 0, 0, 0]);
    let turn = respond(actor.on_event(message("go north")));
    assert_eq!(turn.reply, "2");
    assert_eq!(turn.snapshot.unwrap(), vec![2, 0, 0, 0, 0, 0, 0, 0]);
    assert_eq!(actor.phase(), Phase::Active);
    assert_eq!(actor.game().message_count(), 2);
}

#[test]
fn active_actor_ignores_an_empty_mailbox() {
    let mut actor = SessionActor::spawn(1, &[]);
    assert!(matches!(actor.on_event(Event::Empty), Directive::Wait));
    assert_eq!(actor.phase(), Phase::Active);
    assert_eq!(actor.game().message_count(), 0);
}

#[test]
fn idle_timeout_starts_draining() {
    let mut actor = SessionActor::spawn(1, &[]);
    assert!(matches!(actor.on_event(Event::IdleTimeout), Directive::Drain));
    assert_eq!(actor.phase(), Phase::Draining);
}

#[test]
fn draining_actor_still_answers() {
    let mut actor = SessionActor::spawn(1, &[]);
    actor.on_event(Event::IdleTimeout);
    let turn = respond(actor.on_event(message("late")));
    assert_eq!(turn.reply, "1");
    assert_eq!(actor.phase(), Phase::Draining);
}

#[test]
fn draining_actor_ignores_a_second_timeout() {
    let mut actor = SessionActor::spawn(1, &[]);
    actor.on_event(Event::IdleTimeout);
    assert!(matches!(actor.on_event(Event::IdleTimeout), Directive::Wait));
    assert_eq!(actor.phase(), Phase::Draining);
}

#[test]
fn draining_actor_terminates_on_empty_mailbox_and_hands_out_its_last_snapshot() {
    let mut actor = SessionActor::spawn(1, &[]);
    actor.on_event(message("one"));
    actor.on_event(message("two"));
    actor.on_event(Event::IdleTimeout);
    match actor.on_event(Event::Empty) {
        Directive::Deregister(snapshot) => {
            assert_eq!(snapshot.unwrap(), vec![2, 0, 0, 0, 0, 0, 0, 0]);
        }
        other => panic!("expected the end of the session, got {other:?}"),
    }
    assert_eq!(actor.phase(), Phase::Terminated);
}

#[test]
fn actor_that_answered_nothing_still_hands_out_a_snapshot() {
    let mut actor = SessionActor::spawn(1, &[1, 2, 3]);
    actor.on_event(Event::IdleTimeout);
    match actor.on_event(Event::Empty) {
        Directive::Deregister(snapshot) => assert_eq!(snapshot.unwrap(), vec![0u8; 8]),
        other => panic!("expected the end of the session, got {other:?}"),
    }
}

#[test]
fn terminated_actor_does_nothing() {
    let mut actor = SessionActor::spawn(1, &[]);
    actor.on_event(message("one"));
    actor.on_event(Event::IdleTimeout);
    actor.on_event(Event::Empty);
    assert!(matches!(actor.on_event(message("two")), Directive::Stopped));
    assert!(matches!(actor.on_event(Event::IdleTimeout), Directive::Stopped));
    assert!(matches!(actor.on_event(Event::Empty), Directive::Stopped));
    assert_eq!(actor.phase(), Phase::Terminated);
    assert_eq!(actor.game().message_count(), 1);
}

#[test]
fn actor_answers_at_a_full_counter() {
    let snapshot = GameData::with_count(u64::MAX - 1).encode().unwrap();
    let mut actor = SessionActor::spawn(1, &snapshot);
    assert_eq!(respond(actor.on_event(message("last"))).reply, "18446744073709551615");
    let turn = respond(actor.on_event(message("one more")));
    assert_eq!(turn.reply, "0");
    assert_eq!(turn.snapshot.unwrap(), vec![0u8; 8]);
    assert_eq!(actor.game().message_count(), 0);
}

#[test]
fn drain_answers_every_buffered_text_in_order() {
    let mut actor = SessionActor::spawn(1, &[]);
    actor.on_event(message("zero"));
    let mut mailbox = Mailbox::default();
    mailbox.try_enqueue(String::from("m1"));
    mailbox.try_enqueue(String::from("m2"));
    mailbox.try_enqueue(String::from("m3"));
    assert!(matches!(actor.on_event(Event::IdleTimeout), Directive::Drain));
    let closing = actor.drain(&mut mailbox);
    assert_eq!(closing.turns.len(), 3);
    assert_eq!(closing.turns[0].reply, "2");
    assert_eq!(closing.turns[1].reply, "3");
    assert_eq!(closing.turns[2].reply, "4");
    assert_eq!(closing.turns[2].snapshot.as_ref().unwrap(), &vec![4, 0, 0, 0, 0, 0, 0, 0]);
    assert_eq!(closing.snapshot.unwrap(), vec![4, 0, 0, 0, 0, 0, 0, 0]);
    assert!(mailbox.is_closed());
    assert!(mailbox.is_empty());
    assert_eq!(actor.phase(), Phase::Terminated);
    assert_eq!(actor.game().message_count(), 4);
}

#[test]
fn drain_of_an_empty_mailbox_terminates_and_hands_out_the_last_snapshot() {
    let mut actor = SessionActor::spawn(1, &[]);
    actor.on_event(message("only"));
    let mut mailbox = Mailbox::default();
    actor.on_event(Event::IdleTimeout);
    let closing = actor.drain(&mut mailbox);
    assert!(closing.turns.is_empty());
    assert_eq!(closing.snapshot.unwrap(), vec![1, 0, 0, 0, 0, 0, 0, 0]);
    assert!(mailbox.is_closed());
    assert_eq!(actor.phase(), Phase::Terminated);
}

#[test]
fn drain_answers_across_a_full_counter() {
    let snapshot = GameData::with_count(u64::MAX).encode().unwrap();
    let mut actor = SessionActor::spawn(1, &snapshot);
    let mut mailbox = Mailbox::default();
    mailbox.try_enqueue(String::from("a"));
    mailbox.try_enqueue(String::from("b"));
    actor.on_event(Event::IdleTimeout);
    let closing = actor.drain(&mut mailbox);
    let replies: Vec<&str> = closing.turns.iter().map(|turn| turn.reply.as_str()).collect();
    assert_eq!(replies, vec!["0", "1"]);
    assert_eq!(closing.snapshot.unwrap(), vec![1, 0, 0, 0, 0, 0, 0, 0]);
}
