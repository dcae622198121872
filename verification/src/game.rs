//! The game state and its state-transition function.

use crate::text::{decimal, decimal_string};
use vstd::arithmetic::div_mod::lemma_add_mod_noop_right;
use vstd::prelude::*;

verus! {

/// The state of one game: how many inputs it has answered so far.
#[derive(Debug, Clone)]
pub struct GameData {
    message_count: u64,
}

impl View for GameData {
    type V = nat;

    /// A game is fully described by the number of inputs it has answered.
    closed spec fn view(&self) -> nat {
        self.message_count as nat
    }
}

/// The number of states that a game can be in: its counter has 64 bits.
pub open spec fn states() -> nat {
    0x1_0000_0000_0000_0000
}

/// The state that a game in `state` is in once `count` more inputs have been
/// answered.  The counter wraps: after the last state comes the first.
pub open spec fn advanced(state: nat, count: nat) -> nat {
    (state + count) % states()
}

/// The state that follows `state` once one more input has been answered.
pub open spec fn next_state(state: nat) -> nat {
    advanced(state, 1)
}

/// The reply given to an input that arrives in `state`: the decimal numeral
/// of the state that follows.
pub open spec fn reply_in(state: nat) -> Seq<char> {
    decimal(next_state(state))
}

/// Answering inputs one after the other adds up.
pub proof fn lemma_advanced_twice(state: nat, first: nat, second: nat)
    ensures
        advanced(advanced(state, first), second) == advanced(state, first + second),
        advanced(state, 0) == state % states(),
        advanced(state, first) < states(),
{
    lemma_add_mod_noop_right(second as int, (state + first) as int, states() as int);
}

impl Default for GameData {
    /// A fresh game has answered nothing.
    fn default() -> (game: GameData)
        ensures
            game@ == 0,
    {
        GameData { message_count: 0 }
    }
}

impl GameData {
    /// Every game state fits the counter that stores it.
    pub proof fn lemma_view_bounded(&self)
        ensures
            self@ <= u64::MAX,
    {
    }

    /// Two games that have answered the same number of inputs are the same
    /// game.
    pub proof fn lemma_view_injective(a: GameData, b: GameData)
        requires
            a@ == b@,
        ensures
            a == b,
    {
    }

    /// A game that has already answered `count` inputs.
    pub fn with_count(count: u64) -> (game: GameData)
        ensures
            game@ == count,
    {
        GameData { message_count: count }
    }

    /// The number of inputs answered so far.
    pub fn message_count(&self) -> (count: u64)
        ensures
            count == self@,
    {
        self.message_count
    }

    /// Answers one input line.  The reply does not depend on the text of the
    /// input, only on how many inputs came before it.  Every call returns: a
    /// game whose counter is full starts counting from zero again.
    pub fn process_input(&mut self, _input: &str) -> (reply: String)
        ensures
            final(self)@ == next_state(old(self)@),
            reply@ == reply_in(old(self)@),
    {
        self.message_count = self.message_count.wrapping_add(1);
        decimal_string(self.message_count)
    }
}

} // verus!
