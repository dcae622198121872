//! The session protocol: how dispatch calls and session actors act on the
//! registry, the mailboxes and the snapshot store, one atomic step at a time.
//!
//! A `World` holds everything that the steps read and write.  Each step is
//! what one party does while it holds the access it needs: a dispatch call
//! holds the registry while it routes and offers its text; an actor answers
//! one text on its own, and holds the registry exclusively from the moment
//! its idle timeout is acted upon until it has written its last snapshot and
//! its entry is removed.  The steps are
//! put together from the transition functions of the parts: `route_for` and
//! `registered` of the registry, `offer`, `take` and `close` of the mailbox,
//! `step` of the actor, `restored` of the codec.

use crate::actor::{step, ActorView, EventView, Phase};
use crate::codec::restored;
use crate::mailbox::{MailboxView, MAILBOX_CAPACITY};
use crate::registry::{registered, route_for, Route};
use vstd::prelude::*;

verus! {

/// A session: an actor and the mailbox it consumes.
pub struct Session {
    pub actor: ActorView,
    pub mailbox: MailboxView,
}

/// Everything the protocol acts on.
pub struct World {
    /// The registry: each live channel with the index of its session.
    pub registry: Map<u64, nat>,
    /// Every session that was ever spawned, in the order of spawning.
    pub sessions: Seq<Session>,
    /// The snapshot store: the bytes kept for each channel.
    pub store: Map<u64, Seq<u8>>,
    /// For each channel, the texts that dispatch has accepted, in order.
    pub accepted: Map<u64, Seq<Seq<char>>>,
    /// For each channel, the texts that were handed to the game, in order.
    pub consumed: Map<u64, Seq<Seq<char>>>,
    /// For each channel, the replies that the game gave, in order.
    pub replies: Map<u64, Seq<Seq<char>>>,
}

/// The texts logged for `channel`; none where nothing was logged yet.
pub open spec fn texts(log: Map<u64, Seq<Seq<char>>>, channel: u64) -> Seq<Seq<char>> {
    if log.contains_key(channel) {
        log[channel]
    } else {
        Seq::empty()
    }
}

/// The log with `text` appended to the texts of `channel`.
pub open spec fn logged(log: Map<u64, Seq<Seq<char>>>, channel: u64, text: Seq<char>) -> Map<
    u64,
    Seq<Seq<char>>,
> {
    log.insert(channel, texts(log, channel).push(text))
}

/// The bytes that the store keeps for `channel`; none where it keeps nothing.
pub open spec fn snapshot(store: Map<u64, Seq<u8>>, channel: u64) -> Seq<u8> {
    if store.contains_key(channel) {
        store[channel]
    } else {
        Seq::empty()
    }
}

/// Whether a session's actor has not terminated.
pub open spec fn live(session: Session) -> bool {
    session.actor.phase != Phase::Terminated
}

/// The world before anything happened: no session, and `store` on disk.
pub open spec fn initial(store: Map<u64, Seq<u8>>) -> World {
    World {
        registry: Map::empty(),
        sessions: Seq::empty(),
        store,
        accepted: Map::empty(),
        consumed: Map::empty(),
        replies: Map::empty(),
    }
}

/// The session that a dispatch spawns for `channel` with `text` as its first
/// text: an active actor whose game comes from the channel's snapshot, and a
/// fresh mailbox that holds the text.
pub open spec fn spawned(store: Map<u64, Seq<u8>>, channel: u64, text: Seq<char>) -> Session {
    Session {
        actor: ActorView {
            channel,
            phase: Phase::Active,
            game: restored(snapshot(store, channel)),
        },
        mailbox: MailboxView::empty(MAILBOX_CAPACITY as nat).offer(text),
    }
}

/// Whether a dispatch of a text for `channel` goes through at once.  It does
/// not while the mailbox of the channel's session is full or closed: then the
/// caller waits.
pub open spec fn can_dispatch(w: World, channel: u64) -> bool {
    w.registry.contains_key(channel) ==> {
        &&& w.registry[channel] < w.sessions.len()
        &&& w.sessions[w.registry[channel] as int].mailbox.accepts()
    }
}

/// A dispatch of `text` for `channel`.  Where the channel has a live session,
/// the text is offered to its mailbox.  Where it has none, a session is
/// spawned, entered in the registry and given the text.
pub open spec fn dispatch(w: World, channel: u64, text: Seq<char>) -> World {
    if !can_dispatch(w, channel) {
        w
    } else {
        match route_for(w.registry, channel) {
            Route::Existing => {
                let i = w.registry[channel] as int;
                let session = w.sessions[i];
                World {
                    sessions: w.sessions.update(
                        i,
                        Session { mailbox: session.mailbox.offer(text), ..session },
                    ),
                    accepted: logged(w.accepted, channel, text),
                    ..w
                }
            },
            Route::Create => World {
                registry: registered(w.registry, channel, w.sessions.len()),
                sessions: w.sessions.push(spawned(w.store, channel, text)),
                accepted: logged(w.accepted, channel, text),
                ..w
            },
        }
    }
}

/// Whether session `i` can answer a text now: its actor has not terminated
/// and its mailbox holds a text.
pub open spec fn can_receive(w: World, i: nat) -> bool {
    &&& i < w.sessions.len()
    &&& live(w.sessions[i as int])
    &&& w.sessions[i as int].mailbox.queue.len() > 0
}

/// The actor of session `i` takes the oldest text out of its mailbox and
/// answers it: the reply goes out, and the snapshot of the new state is
/// written to the store, which succeeds or not as `stored` says.
pub open spec fn receive(w: World, i: nat, stored: bool) -> World {
    if !can_receive(w, i) {
        w
    } else {
        let session = w.sessions[i as int];
        let channel = session.actor.channel;
        let text = session.mailbox.queue[0];
        let (actor, directive) = step(session.actor, EventView::Message(text));
        let turn = directive->Respond_0;
        World {
            sessions: w.sessions.update(
                i as int,
                Session { actor, mailbox: session.mailbox.take() },
            ),
            store: if stored && turn.snapshot is Some {
                w.store.insert(channel, turn.snapshot->Some_0)
            } else {
                w.store
            },
            consumed: logged(w.consumed, channel, text),
            replies: logged(w.replies, channel, turn.reply),
            ..w
        }
    }
}

/// Whether the idle timeout of session `i` can be acted upon.
pub open spec fn can_time_out(w: World, i: nat) -> bool {
    &&& i < w.sessions.len()
    &&& w.sessions[i as int].actor.phase == Phase::Active
}

/// The idle timeout of session `i` is acted upon: the actor, now holding the
/// registry exclusively, starts to drain and closes its mailbox.
pub open spec fn time_out(w: World, i: nat) -> World {
    if !can_time_out(w, i) {
        w
    } else {
        let session = w.sessions[i as int];
        let (actor, directive) = step(session.actor, EventView::IdleTimeout);
        World {
            sessions: w.sessions.update(
                i as int,
                Session { actor, mailbox: session.mailbox.close() },
            ),
            ..w
        }
    }
}

/// Whether session `i` can end: it is draining and its mailbox is empty.
pub open spec fn can_finish(w: World, i: nat) -> bool {
    &&& i < w.sessions.len()
    &&& w.sessions[i as int].actor.phase == Phase::Draining
    &&& w.sessions[i as int].mailbox.queue.len() == 0
}

/// Session `i` ends: its actor terminates, the snapshot of its last state
/// is written to the store, which succeeds or not as `stored` says, and then
/// the channel's entry is removed from the registry.
pub open spec fn finish(w: World, i: nat, stored: bool) -> World {
    if !can_finish(w, i) {
        w
    } else {
        let session = w.sessions[i as int];
        let channel = session.actor.channel;
        let (actor, directive) = step(session.actor, EventView::Empty);
        let last = directive->Deregister_0;
        World {
            registry: w.registry.remove(channel),
            sessions: w.sessions.update(i as int, Session { actor, ..session }),
            store: if stored && last is Some {
                w.store.insert(channel, last->Some_0)
            } else {
                w.store
            },
            ..w
        }
    }
}

/// Dispatches of `texts` for `channel`, one after the other: the order in
/// which concurrent dispatch calls for one channel get hold of the registry.
pub open spec fn dispatch_all(w: World, channel: u64, texts: Seq<Seq<char>>) -> World
    decreases texts.len(),
{
    if texts.len() == 0 {
        w
    } else {
        dispatch(dispatch_all(w, channel, texts.drop_last()), channel, texts.last())
    }
}

/// Session `i` answers the texts in its mailbox until none is left; every
/// snapshot reaches the store or none does, as `stored` says.
pub open spec fn drain_all(w: World, i: nat, stored: bool) -> World
    decreases
        (if i < w.sessions.len() {
            w.sessions[i as int].mailbox.queue.len()
        } else {
            0
        }),
{
    if can_receive(w, i) {
        drain_all(receive(w, i, stored), i, stored)
    } else {
        w
    }
}

/// The teardown of session `i`: its idle timeout is acted upon, it answers
/// what its mailbox still holds, and it ends.  `stored` says whether the
/// snapshots of the turns reach the store, `kept` whether the last snapshot
/// does.
pub open spec fn retire(w: World, i: nat, stored: bool, kept: bool) -> World {
    finish(drain_all(time_out(w, i), i, stored), i, kept)
}

/// One atomic step of the protocol.
pub enum Step {
    /// A dispatch call for `channel` with `text`.
    Dispatch { channel: u64, text: Seq<char> },
    /// Session `session` answers its oldest text; `stored` says whether the
    /// snapshot reached the store.
    Receive { session: nat, stored: bool },
    /// The idle timeout of session `session` is acted upon.
    TimeOut { session: nat },
    /// Session `session`, drained, ends; `stored` says whether the snapshot
    /// of its last state reached the store.
    Finish { session: nat, stored: bool },
}

/// The world after `step`.  A step that cannot be taken leaves the world as
/// it is.
pub open spec fn next(w: World, step: Step) -> World {
    match step {
        Step::Dispatch { channel, text } => dispatch(w, channel, text),
        Step::Receive { session, stored } => receive(w, session, stored),
        Step::TimeOut { session } => time_out(w, session),
        Step::Finish { session, stored } => finish(w, session, stored),
    }
}

/// The world after `steps`, taken in order.
pub open spec fn run(w: World, steps: Seq<Step>) -> World
    decreases steps.len(),
{
    if steps.len() == 0 {
        w
    } else {
        next(run(w, steps.drop_last()), steps.last())
    }
}

} // verus!
