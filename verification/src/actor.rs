//! The session actor: the one owner of a channel's game state while the
//! channel has a live session.
//!
//! The actor is a state machine.  Whoever runs it waits on the session's
//! mailbox, tells the actor what the wait produced, and carries out the
//! directive that the actor answers with.

use crate::codec::{encoded, restored, CodecError};
use crate::game::{advanced, lemma_advanced_twice, next_state, reply_in, GameData};
use crate::mailbox::{Mailbox, MailboxView};
use vstd::prelude::*;

verus! {

/// How long an active actor waits for a text before its idle timeout
/// strikes, in seconds: ten minutes.
pub const IDLE_TIMEOUT_SECS: u64 = 600;

/// Where a session actor is in its life.
#[derive(Debug, Clone, Copy, PartialEq, Eq, Structural)]
pub enum Phase {
    /// Waiting for texts and answering them.
    Active,
    /// The idle timeout has struck: the mailbox is being closed and emptied.
    Draining,
    /// Nothing is processed any more; the last snapshot is authoritative.
    Terminated,
}

/// What a wait on the mailbox produced.
#[derive(Debug)]
pub enum Event {
    /// A text was taken out of the mailbox.
    Message(String),
    /// No text arrived within the idle timeout.
    IdleTimeout,
    /// The mailbox holds nothing and no text can arrive any more.
    Empty,
}

/// An event with its text as a sequence of characters.
pub enum EventView {
    Message(Seq<char>),
    IdleTimeout,
    Empty,
}

impl View for Event {
    type V = EventView;

    open spec fn view(&self) -> EventView {
        match self {
            Event::Message(text) => EventView::Message(text@),
            Event::IdleTimeout => EventView::IdleTimeout,
            Event::Empty => EventView::Empty,
        }
    }
}

/// The outcome of answering one text.
#[derive(Debug)]
pub struct Turn {
    /// The text to send to the channel.
    pub reply: String,
    /// The snapshot of the new state, to be written to the store.
    pub snapshot: Result<Vec<u8>, CodecError>,
}

/// A turn as plain values; the snapshot is absent where encoding failed.
pub struct TurnView {
    pub reply: Seq<char>,
    pub snapshot: Option<Seq<u8>>,
}

impl View for Turn {
    type V = TurnView;

    open spec fn view(&self) -> TurnView {
        TurnView {
            reply: self.reply@,
            snapshot: match self.snapshot {
                Ok(bytes) => Some(bytes@),
                Err(_) => None,
            },
        }
    }
}

/// What the runner of an actor is to do next.
#[derive(Debug)]
pub enum Directive {
    /// Send the reply to the channel, write the snapshot to the store, then
    /// go on as before.  A failure of either is logged and changes nothing.
    Respond(Turn),
    /// Take exclusive access to the registry, close the mailbox to new texts,
    /// and hand the actor every text that the mailbox still holds.
    Drain,
    /// Write this snapshot of the actor's last state to the store, then
    /// remove the channel's registry entry, give up exclusive access, stop.
    Deregister(Result<Vec<u8>, CodecError>),
    /// Nothing to do: go on as before.
    Wait,
    /// The actor has terminated; the event was discarded.
    Stopped,
}

/// A directive as plain values.
pub enum DirectiveView {
    Respond(TurnView),
    Drain,
    Deregister(Option<Seq<u8>>),
    Wait,
    Stopped,
}

impl View for Directive {
    type V = DirectiveView;

    open spec fn view(&self) -> DirectiveView {
        match self {
            Directive::Respond(turn) => DirectiveView::Respond(turn@),
            Directive::Drain => DirectiveView::Drain,
            Directive::Deregister(snapshot) => DirectiveView::Deregister(
                match snapshot {
                    Ok(bytes) => Some(bytes@),
                    Err(_) => None,
                },
            ),
            Directive::Wait => DirectiveView::Wait,
            Directive::Stopped => DirectiveView::Stopped,
        }
    }
}

/// A session actor as plain values.
pub struct ActorView {
    /// The channel that the actor serves.
    pub channel: u64,
    pub phase: Phase,
    /// The state of the channel's game.
    pub game: nat,
}

/// The turn that answers a text arriving in `state`.
pub open spec fn turn_in(state: nat) -> TurnView {
    TurnView { reply: reply_in(state), snapshot: Some(encoded(next_state(state))) }
}

/// The turns that answer `count` texts in a row, the first arriving in
/// `state`.
pub open spec fn turns_from(state: nat, count: nat) -> Seq<TurnView> {
    Seq::new(count, |i: int| turn_in(advanced(state, i as nat)))
}

/// The transition function of the actor: the actor after `event`, and the
/// directive it gives.
///
/// An active or draining actor answers every text.  The idle timeout turns an
/// active actor into a draining one; a draining actor terminates once its
/// mailbox is empty, and hands out the snapshot of its last state to be
/// written before its registry entry goes.  A terminated actor does nothing.
pub open spec fn step(actor: ActorView, event: EventView) -> (ActorView, DirectiveView) {
    match (actor.phase, event) {
        (Phase::Terminated, _) => (actor, DirectiveView::Stopped),
        (_, EventView::Message(_)) => (
            ActorView { game: next_state(actor.game), ..actor },
            DirectiveView::Respond(turn_in(actor.game)),
        ),
        (Phase::Active, EventView::IdleTimeout) => (
            ActorView { phase: Phase::Draining, ..actor },
            DirectiveView::Drain,
        ),
        (Phase::Active, EventView::Empty) => (actor, DirectiveView::Wait),
        (Phase::Draining, EventView::IdleTimeout) => (actor, DirectiveView::Wait),
        (Phase::Draining, EventView::Empty) => (
            ActorView { phase: Phase::Terminated, ..actor },
            DirectiveView::Deregister(Some(encoded(actor.game))),
        ),
    }
}

/// The actor once it has answered `count` more texts and found its mailbox
/// empty.
pub open spec fn drained(actor: ActorView, count: nat) -> ActorView {
    ActorView { phase: Phase::Terminated, game: advanced(actor.game, count), ..actor }
}

/// The turns of a list as plain values.
pub open spec fn views_of(turns: Seq<Turn>) -> Seq<TurnView> {
    Seq::new(turns.len(), |i: int| turns[i]@)
}

/// What a draining actor leaves behind.
#[derive(Debug)]
pub struct Closing {
    /// The turns that answer the texts which the mailbox still held, in the
    /// order of the texts.
    pub turns: Vec<Turn>,
    /// The snapshot of the actor's last state, to be written to the store
    /// before the channel's registry entry is removed.
    pub snapshot: Result<Vec<u8>, CodecError>,
}

/// The actor that serves one channel.
#[derive(Debug)]
pub struct SessionActor {
    channel: u64,
    game: GameData,
    phase: Phase,
}

impl View for SessionActor {
    type V = ActorView;

    closed spec fn view(&self) -> ActorView {
        ActorView { channel: self.channel, phase: self.phase, game: self.game@ }
    }
}

impl SessionActor {
    /// A new, active actor for `channel` that owns `game`.
    pub fn new(channel: u64, game: GameData) -> (actor: SessionActor)
        ensures
            actor@ == (ActorView { channel, phase: Phase::Active, game: game@ }),
    {
        SessionActor { channel, game, phase: Phase::Active }
    }

    /// A new, active actor for `channel`.  Its game starts from what the
    /// snapshot store holds for the channel (no bytes where it holds
    /// nothing); bytes that cannot be decoded give a fresh game.
    pub fn spawn(channel: u64, snapshot: &[u8]) -> (actor: SessionActor)
        ensures
            actor@ == (ActorView { channel, phase: Phase::Active, game: restored(snapshot@) }),
    {
        SessionActor::new(channel, GameData::from_snapshot(snapshot))
    }

    /// The channel that the actor serves.
    pub fn channel(&self) -> (channel: u64)
        ensures
            channel == self@.channel,
    {
        self.channel
    }

    /// Where the actor is in its life.
    pub fn phase(&self) -> (phase: Phase)
        ensures
            phase == self@.phase,
    {
        self.phase
    }

    /// The state of the channel's game.
    pub fn game(&self) -> (game: &GameData)
        ensures
            game@ == self@.game,
    {
        &self.game
    }

    /// Answers one text with the game and encodes the new state.
    fn answer(&mut self, text: &str) -> (turn: Turn)
        ensures
            final(self)@ == (ActorView { game: next_state(old(self)@.game), ..old(self)@ }),
            turn@ == turn_in(old(self)@.game),
    {
        let reply = self.game.process_input(text);
        let snapshot = self.game.encode();
        Turn { reply, snapshot }
    }

    /// Takes one event and says what is to be done about it.
    pub fn on_event(&mut self, event: Event) -> (directive: Directive)
        ensures
            (final(self)@, directive@) == step(old(self)@, event@),
    {
        match self.phase {
            Phase::Terminated => Directive::Stopped,
            Phase::Active => match event {
                Event::Message(text) => Directive::Respond(self.answer(text.as_str())),
                Event::IdleTimeout => {
                    self.phase = Phase::Draining;
                    Directive::Drain
                },
                Event::Empty => Directive::Wait,
            },
            Phase::Draining => match event {
                Event::Message(text) => Directive::Respond(self.answer(text.as_str())),
                Event::IdleTimeout => Directive::Wait,
                Event::Empty => {
                    self.phase = Phase::Terminated;
                    Directive::Deregister(self.game.encode())
                },
            },
        }
    }

    /// Empties the mailbox of a draining actor: closes it to new texts,
    /// answers every text that it still holds, oldest first, and terminates.
    /// What comes back is to be carried out in this order: the turns, then
    /// the write of the last snapshot, then the removal of the channel's
    /// registry entry.
    pub fn drain(&mut self, mailbox: &mut Mailbox) -> (closing: Closing)
        requires
            old(self)@.phase == Phase::Draining,
            old(mailbox)@.wf(),
        ensures
            final(mailbox)@ == (MailboxView {
                queue: Seq::empty(),
                closed: true,
                capacity: old(mailbox)@.capacity,
            }),
            final(self)@ == drained(old(self)@, old(mailbox)@.queue.len()),
            views_of(closing.turns@) == turns_from(old(self)@.game, old(mailbox)@.queue.len()),
            closing.snapshot is Ok,
            closing.snapshot->Ok_0@ == encoded(final(self)@.game),
    {
        let ghost start = self@;
        let ghost waiting = mailbox@.queue;
        mailbox.close();
        let mut turns: Vec<Turn> = Vec::new();
        proof {
            lemma_advanced_twice(start.game, 0, 0);
            self.game.lemma_view_bounded();
        }
        loop
            invariant
                turns@.len() <= waiting.len(),
                start.phase == Phase::Draining,
                self@ == (ActorView { game: advanced(start.game, turns@.len() as nat), ..start }),
                mailbox@.wf(),
                mailbox@.closed,
                mailbox@.capacity == old(mailbox)@.capacity,
                mailbox@.queue == waiting.skip(turns@.len() as int),
                views_of(turns@) == turns_from(start.game, turns@.len() as nat),
            ensures
                mailbox@.queue.len() == 0,
            decreases waiting.len() - turns@.len(),
        {
            let ghost done = turns@;
            match mailbox.dequeue() {
                Some(text) => {
                    match self.on_event(Event::Message(text)) {
                        Directive::Respond(turn) => {
                            turns.push(turn);
                        },
                        _ => {},
                    }
                    proof {
                        lemma_advanced_twice(start.game, done.len(), 1);
                    }
                    assert(views_of(turns@) =~= turns_from(start.game, turns@.len() as nat)) by {
                        assert forall|i: int| 0 <= i < turns@.len() implies views_of(turns@)[i]
                            == turns_from(start.game, turns@.len() as nat)[i] by {
                            if i < done.len() {
                                assert(views_of(done)[i] == turns_from(
                                    start.game,
                                    done.len() as nat,
                                )[i]);
                            }
                        }
                    }
                },
                None => {
                    break ;
                },
            }
        }
        assert(mailbox@.queue =~= Seq::empty());
        match self.on_event(Event::Empty) {
            Directive::Deregister(snapshot) => Closing { turns, snapshot },
            _ => Closing { turns, snapshot: self.game.encode() },
        }
    }
}

} // verus!
