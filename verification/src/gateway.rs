//! What the core asks of the messaging gateway's events before it takes
//! them.

use vstd::prelude::*;

verus! {

/// Whether a text event is one that a game answers: games are played in
/// private conversations, and never with a bot, this program included.
pub open spec fn eligible(author_is_bot: bool, channel_is_private: bool) -> bool {
    !author_is_bot && channel_is_private
}

/// Whether a text event is to be dispatched to a game session.
pub fn is_eligible(author_is_bot: bool, channel_is_private: bool) -> (ok: bool)
    ensures
        ok == eligible(author_is_bot, channel_is_private),
{
    !author_is_bot && channel_is_private
}

} // verus!
