//! The session registry: which channels have a live session, and the handle
//! of each session's mailbox.
//!
//! A channel has an entry exactly while a session actor is live for it and
//! holds the freshest state of its game; a channel without an entry has its
//! freshest state in the snapshot store.  An entry is made only by `register`
//! and removed only by `deregister`, both of which need exclusive access;
//! `lookup` and `route` need shared access only.

use std::collections::HashMap;
use vstd::prelude::*;

verus! {

broadcast use vstd::std_specs::hash::group_hash_axioms;

/// What a dispatch does with a text for some channel.
#[derive(Debug, Clone, Copy, PartialEq, Eq, Structural)]
pub enum Route {
    /// The channel has a live session: offer the text to its mailbox.
    Existing,
    /// The channel has none: with exclusive access, load its snapshot,
    /// spawn an actor with a fresh mailbox, register the mailbox's handle,
    /// offer the text, and only then give up the access.
    Create,
}

/// The route of a text for `channel` while `sessions` are live.
pub open spec fn route_for<H>(sessions: Map<u64, H>, channel: u64) -> Route {
    if sessions.contains_key(channel) {
        Route::Existing
    } else {
        Route::Create
    }
}

/// The sessions after a handle for `channel` asked to be entered: the first
/// handle for a channel is entered, any later one changes nothing.
pub open spec fn registered<H>(sessions: Map<u64, H>, channel: u64, handle: H) -> Map<u64, H> {
    if sessions.contains_key(channel) {
        sessions
    } else {
        sessions.insert(channel, handle)
    }
}

/// Exactly-once registration: of two handles that ask to be entered for one
/// channel, the first stays and the second changes nothing; from the first
/// on, texts for the channel take the route to the live session.
pub proof fn lemma_first_registration_wins<H>(
    sessions: Map<u64, H>,
    channel: u64,
    first: H,
    second: H,
)
    ensures
        registered(registered(sessions, channel, first), channel, second) == registered(
            sessions,
            channel,
            first,
        ),
        route_for(registered(sessions, channel, first), channel) == Route::Existing,
        !sessions.contains_key(channel) ==> registered(sessions, channel, first)[channel] == first,
{
}

/// The registry of live sessions, with mailbox handles of type `H`.
pub struct SessionRegistry<H> {
    sessions: HashMap<u64, H>,
}

impl<H> View for SessionRegistry<H> {
    type V = Map<u64, H>;

    /// The live channels, each with its mailbox handle.
    closed spec fn view(&self) -> Map<u64, H> {
        self.sessions@
    }
}

impl<H> SessionRegistry<H> {
    /// A registry without sessions.
    pub fn new() -> (registry: SessionRegistry<H>)
        ensures
            registry@ == Map::<u64, H>::empty(),
    {
        SessionRegistry { sessions: HashMap::new() }
    }

    /// The number of live sessions.
    pub fn len(&self) -> (n: usize)
        ensures
            n == self@.len(),
            self@.dom().finite(),
    {
        self.sessions.len()
    }

    /// Whether `channel` has a live session.
    pub fn contains(&self, channel: u64) -> (live: bool)
        ensures
            live == self@.contains_key(channel),
    {
        self.sessions.contains_key(&channel)
    }

    /// The mailbox handle of the live session of `channel`, if it has one.
    pub fn lookup(&self, channel: u64) -> (handle: Option<&H>)
        ensures
            match handle {
                Some(h) => self@.contains_key(channel) && *h == self@[channel],
                None => !self@.contains_key(channel),
            },
    {
        self.sessions.get(&channel)
    }

    /// The route of a text for `channel`.
    pub fn route(&self, channel: u64) -> (route: Route)
        ensures
            route == route_for(self@, channel),
    {
        if self.sessions.contains_key(&channel) {
            Route::Existing
        } else {
            Route::Create
        }
    }

    /// Enters `handle` as the mailbox of the live session of `channel`,
    /// unless the channel already has one: then nothing changes and the
    /// handle comes back.
    pub fn register(&mut self, channel: u64, handle: H) -> (rejected: Option<H>)
        ensures
            final(self)@ == registered(old(self)@, channel, handle),
            rejected == if old(self)@.contains_key(channel) {
                Some(handle)
            } else {
                None
            },
    {
        if self.sessions.contains_key(&channel) {
            Some(handle)
        } else {
            self.sessions.insert(channel, handle);
            None
        }
    }

    /// Removes the entry of `channel` and hands out its mailbox handle, if
    /// the channel had a live session.
    pub fn deregister(&mut self, channel: u64) -> (handle: Option<H>)
        ensures
            final(self)@ == old(self)@.remove(channel),
            handle == if old(self)@.contains_key(channel) {
                Some(old(self)@[channel])
            } else {
                None
            },
    {
        self.sessions.remove(&channel)
    }
}

impl<H> Default for SessionRegistry<H> {
    fn default() -> (registry: SessionRegistry<H>)
        ensures
            registry@ == Map::<u64, H>::empty(),
    {
        SessionRegistry::new()
    }
}

} // verus!
