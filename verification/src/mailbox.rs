//! The mailbox of a session: a bounded first-in, first-out queue of inbound
//! texts with many producers and one consumer.
//!
//! A full mailbox refuses a text without dropping anything, so that the
//! producer can wait and offer it again; a closed mailbox refuses every text
//! but still hands out what it accepted before it was closed.

use std::collections::VecDeque;
use vstd::prelude::*;

verus! {

/// The capacity of the mailbox that a session is given.
pub const MAILBOX_CAPACITY: usize = 5;

/// What a mailbox is, as far as its users can tell.
pub struct MailboxView {
    /// The texts accepted and not yet taken out, oldest first.
    pub queue: Seq<Seq<char>>,
    /// How many texts the mailbox holds at most.
    pub capacity: nat,
    /// Whether the mailbox has been closed to new texts.
    pub closed: bool,
}

impl MailboxView {
    /// An open, empty mailbox.
    pub open spec fn empty(capacity: nat) -> MailboxView {
        MailboxView { queue: Seq::empty(), capacity, closed: false }
    }

    /// The bound that every mailbox keeps.
    pub open spec fn wf(self) -> bool {
        &&& 0 < self.capacity
        &&& self.queue.len() <= self.capacity
    }

    /// Whether the mailbox holds as many texts as it can.
    pub open spec fn is_full(self) -> bool {
        self.queue.len() >= self.capacity
    }

    /// Whether an offered text would be accepted.
    pub open spec fn accepts(self) -> bool {
        !self.closed && !self.is_full()
    }

    /// The mailbox after `text` was offered: appended at the back where the
    /// mailbox accepts it, unchanged where it does not.
    pub open spec fn offer(self, text: Seq<char>) -> MailboxView {
        if self.accepts() {
            MailboxView { queue: self.queue.push(text), ..self }
        } else {
            self
        }
    }

    /// The mailbox after the consumer asked for the next text: the oldest
    /// text is gone, if there was one.
    pub open spec fn take(self) -> MailboxView {
        if self.queue.len() > 0 {
            MailboxView { queue: self.queue.drop_first(), ..self }
        } else {
            self
        }
    }

    /// The mailbox after it was closed: what it holds stays.
    pub open spec fn close(self) -> MailboxView {
        MailboxView { closed: true, ..self }
    }
}

/// The mailbox after `texts` were offered one after the other.
pub open spec fn offer_all(mailbox: MailboxView, texts: Seq<Seq<char>>) -> MailboxView
    decreases texts.len(),
{
    if texts.len() == 0 {
        mailbox
    } else {
        offer_all(mailbox, texts.drop_last()).offer(texts.last())
    }
}

/// The mailbox after the consumer asked for a text `count` times.
pub open spec fn take_all(mailbox: MailboxView, count: nat) -> MailboxView
    decreases count,
{
    if count == 0 {
        mailbox
    } else {
        take_all(mailbox, (count - 1) as nat).take()
    }
}

/// Back-pressure: whatever is offered, a mailbox never holds more texts than
/// its capacity, and a refused offer changes nothing.
pub proof fn lemma_offer_keeps_bound(mailbox: MailboxView, text: Seq<char>)
    requires
        mailbox.wf(),
    ensures
        mailbox.offer(text).wf(),
        !mailbox.accepts() ==> mailbox.offer(text) == mailbox,
        mailbox.accepts() ==> mailbox.offer(text).queue == mailbox.queue.push(text),
{
}

/// First in: texts offered to an open mailbox with room for them queue up
/// behind what it holds, in the order in which they were offered.
pub proof fn lemma_offers_queue_in_order(mailbox: MailboxView, texts: Seq<Seq<char>>)
    requires
        !mailbox.closed,
        mailbox.queue.len() + texts.len() <= mailbox.capacity,
    ensures
        offer_all(mailbox, texts) == (MailboxView { queue: mailbox.queue + texts, ..mailbox }),
    decreases texts.len(),
{
    if texts.len() == 0 {
    } else {
        lemma_offers_queue_in_order(mailbox, texts.drop_last());
        assert((mailbox.queue + texts.drop_last()).push(texts.last()) =~= mailbox.queue + texts);
    }
}

/// First out: the consumer is handed the texts from the front of the queue,
/// oldest first, also after the mailbox was closed.
pub proof fn lemma_takes_come_in_order(mailbox: MailboxView, count: nat)
    requires
        count <= mailbox.queue.len(),
    ensures
        take_all(mailbox, count) == (MailboxView {
            queue: mailbox.queue.skip(count as int),
            ..mailbox
        }),
        take_all(mailbox.close(), count) == take_all(mailbox, count).close(),
    decreases count,
{
    if count == 0 {
        assert(mailbox.queue.skip(0) =~= mailbox.queue);
    } else {
        lemma_takes_come_in_order(mailbox, (count - 1) as nat);
        assert(mailbox.queue.skip(count - 1).drop_first() =~= mailbox.queue.skip(count as int));
    }
}

/// The answer to an offered text.  A refused text is handed back.
#[derive(Debug)]
pub enum Offer {
    /// The text was appended to the queue.
    Accepted,
    /// The mailbox is full: nothing was dropped, the producer is to wait
    /// until the consumer has taken a text out and offer this one again.
    Full(String),
    /// The mailbox is closed: its session is shutting down.
    Closed(String),
}

/// What a producer does once its offer was answered.
#[derive(Debug)]
pub enum Followup {
    /// The text is in the mailbox: wake the consumer, nothing more to do.
    Done,
    /// The mailbox was full: wait until the consumer has taken a text out,
    /// then offer this text to the same mailbox again.
    Wait(String),
    /// The mailbox was closed, its session is shutting down: dispatch this
    /// text anew, so that it reaches the channel's next session.
    StartOver(String),
}

impl Offer {
    /// What is to follow this answer.  A refused text is never dropped: it
    /// is handed on to be offered again.
    pub fn followup(self) -> (next: Followup)
        ensures
            match self {
                Offer::Accepted => next is Done,
                Offer::Full(text) => next == Followup::Wait(text),
                Offer::Closed(text) => next == Followup::StartOver(text),
            },
    {
        match self {
            Offer::Accepted => Followup::Done,
            Offer::Full(text) => Followup::Wait(text),
            Offer::Closed(text) => Followup::StartOver(text),
        }
    }
}

/// The texts of a queue of strings.
pub open spec fn texts_of(queue: Seq<String>) -> Seq<Seq<char>> {
    Seq::new(queue.len(), |i: int| queue[i]@)
}

/// A bounded queue of texts.  Every mailbox that `new` or `default` made and
/// that only the methods below have touched keeps its bound, `self@.wf()`.
pub struct Mailbox {
    queue: VecDeque<String>,
    capacity: usize,
    closed: bool,
}

impl View for Mailbox {
    type V = MailboxView;

    closed spec fn view(&self) -> MailboxView {
        MailboxView {
            queue: texts_of(self.queue@),
            capacity: self.capacity as nat,
            closed: self.closed,
        }
    }
}

impl Mailbox {
    /// An open, empty mailbox for at most `capacity` texts.
    pub fn new(capacity: usize) -> (mailbox: Mailbox)
        requires
            capacity > 0,
        ensures
            mailbox@ == MailboxView::empty(capacity as nat),
            mailbox@.wf(),
    {
        let mailbox = Mailbox { queue: VecDeque::new(), capacity, closed: false };
        assert(mailbox@.queue =~= Seq::empty());
        mailbox
    }

    /// How many texts the mailbox holds at most.
    pub fn capacity(&self) -> (n: usize)
        ensures
            n == self@.capacity,
    {
        self.capacity
    }

    /// How many texts wait in the mailbox.
    pub fn len(&self) -> (n: usize)
        ensures
            n == self@.queue.len(),
    {
        self.queue.len()
    }

    /// Whether no text waits in the mailbox.
    pub fn is_empty(&self) -> (b: bool)
        ensures
            b == (self@.queue.len() == 0),
    {
        self.queue.len() == 0
    }

    /// Whether the mailbox holds as many texts as it can.
    pub fn is_full(&self) -> (b: bool)
        ensures
            b == self@.is_full(),
    {
        self.queue.len() >= self.capacity
    }

    /// Whether the mailbox has been closed.
    pub fn is_closed(&self) -> (b: bool)
        ensures
            b == self@.closed,
    {
        self.closed
    }

    /// Offers `text` to the mailbox.  It is appended at the back unless the
    /// mailbox is closed or full; a refused text comes back in the answer.
    pub fn try_enqueue(&mut self, text: String) -> (answer: Offer)
        requires
            old(self)@.wf(),
        ensures
            final(self)@ == old(self)@.offer(text@),
            final(self)@.wf(),
            match answer {
                Offer::Accepted => old(self)@.accepts(),
                Offer::Full(back) => !old(self)@.closed && old(self)@.is_full() && back@ == text@,
                Offer::Closed(back) => old(self)@.closed && back@ == text@,
            },
    {
        if self.closed {
            Offer::Closed(text)
        } else if self.queue.len() >= self.capacity {
            Offer::Full(text)
        } else {
            let ghost before = self.queue@;
            self.queue.push_back(text);
            assert(texts_of(self.queue@) =~= texts_of(before).push(text@));
            Offer::Accepted
        }
    }

    /// Takes the oldest waiting text out of the mailbox, if there is one.
    /// A closed mailbox still hands out what it holds.
    pub fn dequeue(&mut self) -> (next: Option<String>)
        requires
            old(self)@.wf(),
        ensures
            final(self)@ == old(self)@.take(),
            final(self)@.wf(),
            match next {
                Some(text) => old(self)@.queue.len() > 0 && text@ == old(self)@.queue[0],
                None => old(self)@.queue.len() == 0,
            },
    {
        let ghost before = self.queue@;
        let next = self.queue.pop_front();
        proof {
            if before.len() > 0 {
                assert(texts_of(self.queue@) =~= texts_of(before).drop_first());
            }
        }
        next
    }

    /// Closes the mailbox to new texts.  What it holds stays.
    pub fn close(&mut self)
        requires
            old(self)@.wf(),
        ensures
            final(self)@ == old(self)@.close(),
            final(self)@.wf(),
    {
        self.closed = true;
    }
}

impl Default for Mailbox {
    /// The mailbox that a session is given.
    fn default() -> (mailbox: Mailbox)
        ensures
            mailbox@ == MailboxView::empty(MAILBOX_CAPACITY as nat),
            mailbox@.wf(),
    {
        Mailbox::new(MAILBOX_CAPACITY)
    }
}

} // verus!
