//! A small text-adventure engine together with the session core that serves
//! it to many conversation channels at once.
//!
//! Each channel that talks to the game gets a session: an actor that owns the
//! channel's game state and answers the channel's texts one after the other,
//! fed through a bounded mailbox.  A registry says which channels have a live
//! session.  A session that stays idle shuts itself down; from then on the
//! snapshot that it wrote is the channel's state, until the next text starts
//! a new session from it.
//!
//! Every function in this crate is verified with Verus against the contract
//! written on it.  What waits, sends or touches the disk is left to the
//! program around the crate, which asks the crate what to do next and carries
//! it out.
//!
//! * [`game`]: the game state and its state-transition function.
//! * [`codec`]: snapshots, the game state as bytes.
//! * [`store`]: the names under which snapshots are kept.
//! * [`mailbox`]: the bounded queue of texts between dispatch and actor.
//! * [`actor`]: the state machine of a session actor.
//! * [`registry`]: the map from channels to live sessions.
//! * [`gateway`]: which events of the messaging gateway are taken.
//! * [`protocol`]: how the parts act together, as steps on a world.
//! * [`laws`]: what holds in every world that those steps can reach.
//! * [`host`]: a host that takes those steps, one thread for all sessions.
//! * [`room`]: room identifiers and the room table of the game.
//! * [`text`]: decimal numerals and byte-wise text.

pub mod actor;
pub mod codec;
pub mod game;
pub mod gateway;
pub mod host;
pub mod laws;
pub mod mailbox;
pub mod protocol;
pub mod registry;
pub mod room;
pub mod store;
pub mod text;

pub use game::GameData;
pub use room::{room_db, room_id, Room, RoomID};
