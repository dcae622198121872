//! A host that runs sessions on one thread.
//!
//! The host owns a registry, the actors and mailboxes of all sessions that
//! it ever spawned, and a snapshot store in memory.  Each of its methods
//! takes one step of the protocol, so that the host as a whole is a world of
//! the protocol and keeps the protocol's invariant.

use crate::actor::{
    turn_in, turns_from, views_of, Closing, Directive, Event, Phase, SessionActor, Turn,
};
use crate::codec::encoded;
use crate::laws::{
    inv, lemma_dispatch_inv, lemma_initial_inv, lemma_receive_inv, lemma_teardown, pending, sound,
};
use crate::mailbox::{Mailbox, MailboxView, Offer};
use crate::protocol::{
    can_dispatch, can_receive, can_time_out, dispatch, initial, receive, retire, texts, Session,
    World,
};
use crate::registry::SessionRegistry;
use std::collections::HashMap;
use vstd::prelude::*;

verus! {

broadcast use vstd::std_specs::hash::group_hash_axioms;

/// The sessions of one thread.
pub struct SessionHost {
    registry: SessionRegistry<usize>,
    actors: Vec<SessionActor>,
    mailboxes: Vec<Mailbox>,
    store: HashMap<u64, Vec<u8>>,
    accepted: Ghost<Map<u64, Seq<Seq<char>>>>,
    consumed: Ghost<Map<u64, Seq<Seq<char>>>>,
    replies: Ghost<Map<u64, Seq<Seq<char>>>>,
}

impl View for SessionHost {
    type V = World;

    /// The world that the host is: its registry, its sessions in the order
    /// of spawning, its store, and the logs of what it accepted, handed to
    /// the games and replied.
    closed spec fn view(&self) -> World {
        World {
            registry: self.registry@.map_values(|i: usize| i as nat),
            sessions: Seq::new(
                self.actors@.len(),
                |i: int| Session { actor: self.actors@[i]@, mailbox: self.mailboxes@[i]@ },
            ),
            store: self.store@.map_values(|bytes: Vec<u8>| bytes@),
            accepted: self.accepted@,
            consumed: self.consumed@,
            replies: self.replies@,
        }
    }
}

impl SessionHost {
    /// Every host that `new` made and that only the methods below have
    /// touched is well formed.
    pub closed spec fn wf(&self) -> bool {
        &&& self.actors@.len() == self.mailboxes@.len()
        &&& inv(self@)
    }

    /// A well-formed host is a world in which the invariant of the protocol
    /// holds.
    pub proof fn lemma_wf_inv(&self)
        requires
            self.wf(),
        ensures
            inv(self@),
    {
    }

    /// A host without sessions and with an empty store.
    pub fn new() -> (host: SessionHost)
        ensures
            host.wf(),
            host@ == initial(Map::empty()),
    {
        let host = SessionHost {
            registry: SessionRegistry::new(),
            actors: Vec::new(),
            mailboxes: Vec::new(),
            store: HashMap::new(),
            accepted: Ghost(Map::empty()),
            consumed: Ghost(Map::empty()),
            replies: Ghost(Map::empty()),
        };
        proof {
            lemma_initial_inv(Map::empty());
            assert(host@.registry =~= Map::empty());
            assert(host@.store =~= Map::empty());
            assert(host@.sessions =~= Seq::empty());
        }
        host
    }

    /// The number of sessions that the host has spawned so far.
    pub fn spawned(&self) -> (n: usize)
        requires
            self.wf(),
        ensures
            n == self@.sessions.len(),
    {
        self.actors.len()
    }

    /// The session that is live for `channel`, if there is one.
    pub fn session_of(&self, channel: u64) -> (session: Option<usize>)
        requires
            self.wf(),
        ensures
            match session {
                Some(i) => self@.registry.contains_key(channel) && self@.registry[channel] == i,
                None => !self@.registry.contains_key(channel),
            },
    {
        match self.registry.lookup(channel) {
            Some(i) => Some(*i),
            None => None,
        }
    }

    /// Hands `text` to the session of `channel`, spawning one where the
    /// channel has none.  Where the mailbox of the channel's session is full
    /// or closed, nothing changes and the text comes back.
    pub fn dispatch(&mut self, channel: u64, text: String) -> (answer: Offer)
        requires
            old(self).wf(),
        ensures
            final(self).wf(),
            final(self)@ == dispatch(old(self)@, channel, text@),
            match answer {
                Offer::Accepted => can_dispatch(old(self)@, channel),
                Offer::Full(back) => {
                    &&& old(self)@.registry.contains_key(channel)
                    &&& !pending_mailbox(old(self)@, channel).closed
                    &&& pending_mailbox(old(self)@, channel).is_full()
                    &&& back@ == text@
                },
                Offer::Closed(back) => {
                    &&& old(self)@.registry.contains_key(channel)
                    &&& pending_mailbox(old(self)@, channel).closed
                    &&& back@ == text@
                },
            },
    {
        let ghost w = self@;
        let ghost v = dispatch(w, channel, text@);
        proof {
            lemma_dispatch_inv(w, channel, text@);
        }
        match self.registry.lookup(channel) {
            Some(index) => {
                let i = *index;
                let answer = self.mailboxes[i].try_enqueue(text);
                if let Offer::Accepted = answer {
                    self.accepted = Ghost(v.accepted);
                }
                proof {
                    assert(self@.sessions =~= v.sessions);
                }
                answer
            },
            None => {
                let empty: Vec<u8> = Vec::new();
                let actor = match self.store.get(&channel) {
                    Some(bytes) => SessionActor::spawn(channel, bytes.as_slice()),
                    None => SessionActor::spawn(channel, empty.as_slice()),
                };
                let i = self.actors.len();
                self.registry.register(channel, i);
                let mut mailbox = Mailbox::default();
                let answer = mailbox.try_enqueue(text);
                self.actors.push(actor);
                self.mailboxes.push(mailbox);
                self.accepted = Ghost(v.accepted);
                proof {
                    assert(self@.sessions =~= v.sessions);
                    assert(self@.registry =~= v.registry);
                }
                answer
            },
        }
    }

    /// The actor of session `session`.
    pub fn actor(&self, session: usize) -> (actor: &SessionActor)
        requires
            self.wf(),
            session < self@.sessions.len(),
        ensures
            actor@ == self@.sessions[session as int].actor,
    {
        &self.actors[session]
    }

    /// The mailbox of session `session`.
    pub fn mailbox(&self, session: usize) -> (mailbox: &Mailbox)
        requires
            self.wf(),
            session < self@.sessions.len(),
        ensures
            mailbox@ == self@.sessions[session as int].mailbox,
    {
        &self.mailboxes[session]
    }

    /// The snapshot that the store holds for `channel`, if it holds one.
    pub fn snapshot(&self, channel: u64) -> (bytes: Option<&Vec<u8>>)
        ensures
            match bytes {
                Some(b) => self@.store.contains_key(channel) && b@ == self@.store[channel],
                None => !self@.store.contains_key(channel),
            },
    {
        self.store.get(&channel)
    }

    /// Puts `bytes` into the store as the snapshot of `channel`, as when the
    /// host is first told what is on disk.
    pub fn put_snapshot(&mut self, channel: u64, bytes: Vec<u8>)
        requires
            old(self).wf(),
        ensures
            final(self).wf(),
            final(self)@ == (World { store: old(self)@.store.insert(channel, bytes@), ..old(self)@ }),
    {
        let ghost w = self@;
        self.store.insert(channel, bytes);
        proof {
            assert(self@.store =~= w.store.insert(channel, bytes@));
            lemma_store_is_free(w, self@);
        }
    }

    /// Whether session `session` has a text that it can answer now.
    pub fn can_receive(&self, session: usize) -> (ok: bool)
        requires
            self.wf(),
        ensures
            ok == can_receive(self@, session as nat),
    {
        if session >= self.actors.len() {
            return false;
        }
        let actor = &self.actors[session];
        let mailbox = &self.mailboxes[session];
        actor.phase() != Phase::Terminated && !mailbox.is_empty()
    }

    /// The actor of session `session` takes the oldest text out of its
    /// mailbox and answers it; the snapshot of the new state goes into the
    /// store.  The turn comes back for the reply to be sent.  Where the
    /// session has no text that it can answer, nothing changes.
    pub fn receive(&mut self, session: usize) -> (turn: Option<Turn>)
        requires
            old(self).wf(),
        ensures
            final(self).wf(),
            final(self)@ == receive(old(self)@, session as nat, true),
            match turn {
                Some(t) => {
                    &&& can_receive(old(self)@, session as nat)
                    &&& t@ == turn_in(old(self)@.sessions[session as int].actor.game)
                },
                None => !can_receive(old(self)@, session as nat),
            },
    {
        let ghost w = self@;
        let ghost v = receive(w, session as nat, true);
        if !self.can_receive(session) {
            return None;
        }
        proof {
            lemma_receive_inv(w, session as nat, true);
        }
        let channel = self.actors[session].channel();
        match self.mailboxes[session].dequeue() {
            Some(text) => {
                match self.actors[session].on_event(Event::Message(text)) {
                    Directive::Respond(turn) => {
                        match &turn.snapshot {
                            Ok(bytes) => {
                                let copy = bytes.clone();
                                self.store.insert(channel, copy);
                            },
                            Err(_) => {},
                        }
                        self.consumed = Ghost(v.consumed);
                        self.replies = Ghost(v.replies);
                        proof {
                            assert(self@.sessions =~= v.sessions);
                            assert(self@.store =~= v.store);
                        }
                        Some(turn)
                    },
                    _ => None,
                }
            },
            None => None,
        }
    }

    /// Whether session `session` can be torn down now: its actor is active.
    pub fn can_retire(&self, session: usize) -> (ok: bool)
        requires
            self.wf(),
        ensures
            ok == can_time_out(self@, session as nat),
    {
        if session >= self.actors.len() {
            return false;
        }
        self.actors[session].phase() == Phase::Active
    }

    /// The idle teardown of session `session`: its actor closes its mailbox,
    /// answers every text that the mailbox still holds, oldest first, and
    /// terminates; the snapshot of its last state goes into the store, and
    /// then the channel's registry entry is removed.  What the actor leaves
    /// comes back for the replies to be sent.
    pub fn retire(&mut self, session: usize) -> (closing: Closing)
        requires
            old(self).wf(),
            can_time_out(old(self)@, session as nat),
        ensures
            final(self).wf(),
            final(self)@ == retire(old(self)@, session as nat, true, true),
            views_of(closing.turns@) == turns_from(
                old(self)@.sessions[session as int].actor.game,
                old(self)@.sessions[session as int].mailbox.queue.len(),
            ),
            closing.snapshot is Ok,
            closing.snapshot->Ok_0@ == encoded(final(self)@.sessions[session as int].actor.game),
            final(self)@.store.contains_key(old(self)@.sessions[session as int].actor.channel),
            final(self)@.store[old(self)@.sessions[session as int].actor.channel] == encoded(
                final(self)@.sessions[session as int].actor.game,
            ),
            !final(self)@.registry.contains_key(old(self)@.sessions[session as int].actor.channel),
    {
        let ghost w = self@;
        let ghost v = retire(w, session as nat, true, true);
        proof {
            lemma_teardown(w, session as nat, true, true);
        }
        let channel = self.actors[session].channel();
        self.actors[session].on_event(Event::IdleTimeout);
        let closing = self.actors[session].drain(&mut self.mailboxes[session]);
        match &closing.snapshot {
            Ok(bytes) => {
                let copy = bytes.clone();
                self.store.insert(channel, copy);
            },
            Err(_) => {},
        }
        self.registry.deregister(channel);
        self.consumed = Ghost(v.consumed);
        self.replies = Ghost(v.replies);
        proof {
            assert(self@.sessions =~= v.sessions);
            assert(self@.registry =~= v.registry);
            assert(self@.store =~= v.store);
        }
        closing
    }
}

/// The mailbox that a text for `channel` is offered to.
pub open spec fn pending_mailbox(w: World, channel: u64) -> MailboxView {
    w.sessions[w.registry[channel] as int].mailbox
}

/// The invariant of the protocol does not depend on what the store holds.
proof fn lemma_store_is_free(w: World, v: World)
    requires
        inv(w),
        v == (World { store: v.store, ..w }),
    ensures
        inv(v),
{
    assert forall|c: u64| #[trigger]
        texts(v.accepted, c) == texts(v.consumed, c) + pending(v, c) by {}
}

impl Default for SessionHost {
    fn default() -> (host: SessionHost)
        ensures
            host.wf(),
            host@ == initial(Map::empty()),
    {
        SessionHost::new()
    }
}

} // verus!
