use rpgsanta_2022::mailbox::{Followup, Mailbox, Offer, MAILBOX_CAPACITY};

fn text(s: &str) -> String {
    String::from(s)
}

#[test]
fn default_mailbox_is_open_empty_and_holds_five() {
    let mailbox = Mailbox::default();
    assert_eq!(MAILBOX_CAPACITY, 5);
    assert_eq!(mailbox.capacity(), 5);
    assert_eq!(mailbox.len(), 0);
    assert!(mailbox.is_empty());
    assert!(!mailbox.is_full());
    assert!(!mailbox.is_closed());
}

#[test]
fn mailbox_is_first_in_first_out() {
    let mut mailbox = Mailbox::default();
    assert!(matches!(mailbox.try_enqueue(text("m1")), Offer::Accepted));
    assert!(matches!(mailbox.try_enqueue(text("m2")), Offer::Accepted));
    assert!(matches!(mailbox.try_enqueue(text("m3")), Offer::Accepted));
    assert_eq!(mailbox.len(), 3);
    assert_eq!(mailbox.dequeue(), Some(text("m1")));
    assert_eq!(mailbox.dequeue(), Some(text("m2")));
    assert_eq!(mailbox.dequeue(), Some(text("m3")));
    assert_eq!(mailbox.dequeue(), None);
    assert!(mailbox.is_empty());
}

#[test]
fn mailbox_keeps_order_when_offers_and_takes_alternate() {
    let mut mailbox = Mailbox::new(2);
    mailbox.try_enqueue(text("a"));
    mailbox.try_enqueue(text("b"));
    assert_eq!(mailbox.dequeue(), Some(text("a")));
    mailbox.try_enqueue(text("c"));
    assert_eq!(mailbox.dequeue(), Some(text("b")));
    assert_eq!(mailbox.dequeue(), Some(text("c")));
    assert_eq!(mailbox.dequeue(), None);
}

#[test]
fn full_mailbox_hands_the_text_back_and_drops_nothing() {
    let mut mailbox = Mailbox::default();
    for i in 0..5 {
        assert!(matches!(mailbox.try_enqueue(format!("m{i}")), Offer::Accepted));
    }
    assert!(mailbox.is_full());
    match mailbox.try_enqueue(text("one too many")) {
        Offer::Full(back) => assert_eq!(back, "one too many"),
        other => panic!("expected a full mailbox, got {other:?}"),
    }
    assert_eq!(mailbox.len(), 5);
    assert_eq!(mailbox.dequeue(), Some(text("m0")));
    assert!(matches!(mailbox.try_enqueue(text("one too many")), Offer::Accepted));
    for expected in ["m1", "m2", "m3", "m4", "one too many"] {
        assert_eq!(mailbox.dequeue(), Some(text(expected)));
    }
    assert_eq!(mailbox.dequeue(), None);
}

#[test]
fn mailbox_of_one_is_full_after_one_text() {
    let mut mailbox = Mailbox::new(1);
    assert_eq!(mailbox.capacity(), 1);
    assert!(matches!(mailbox.try_enqueue(text("a")), Offer::Accepted));
    assert!(matches!(mailbox.try_enqueue(text("b")), Offer::Full(_)));
}

#[test]
fn closed_mailbox_refuses_texts_but_hands_out_what_it_holds() {
    let mut mailbox = Mailbox::default();
    mailbox.try_enqueue(text("before"));
    mailbox.close();
    assert!(mailbox.is_closed());
    match mailbox.try_enqueue(text("after")) {
        Offer::Closed(back) => assert_eq!(back, "after"),
        other => panic!("expected a closed mailbox, got {other:?}"),
    }
    assert_eq!(mailbox.len(), 1);
    assert_eq!(mailbox.dequeue(), Some(text("before")));
    assert_eq!(mailbox.dequeue(), None);
}

#[test]
fn closed_and_full_mailbox_reports_closed() {
    let mut mailbox = Mailbox::new(1);
    mailbox.try_enqueue(text("a"));
    mailbox.close();
    assert!(matches!(mailbox.try_enqueue(text("b")), Offer::Closed(_)));
}

#[test]
fn closing_twice_changes_nothing() {
    let mut mailbox = Mailbox::default();
    mailbox.try_enqueue(text("a"));
    mailbox.close();
    mailbox.close();
    assert!(mailbox.is_closed());
    assert_eq!(mailbox.len(), 1);
}

#[test]
fn followup_never_drops_a_refused_text() {
    assert!(matches!(Offer::Accepted.followup(), Followup::Done));
    match Offer::Full(text("kept")).followup() {
        Followup::Wait(back) => assert_eq!(back, "kept"),
        other => panic!("expected to wait, got {other:?}"),
    }
    match Offer::Closed(text("kept")).followup() {
        Followup::StartOver(back) => assert_eq!(back, "kept"),
        other => panic!("expected to start over, got {other:?}"),
    }
}
