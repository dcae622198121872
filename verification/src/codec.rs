//! The snapshot codec: a game state as bytes, and back.
//!
//! A snapshot is the bincode encoding of the state's message counter: eight
//! bytes, least significant first.  Decoding reads the first eight bytes and
//! ignores whatever follows them.

use crate::game::GameData;
use vstd::bytes::{
    lemma_auto_spec_u64_to_from_le_bytes, spec_u64_from_le_bytes, spec_u64_to_le_bytes,
};
use vstd::prelude::*;
use vstd::std_specs::convert::TryFromSpecImpl;

verus! {

/// The number of bytes a snapshot needs.
pub const SNAPSHOT_LEN: usize = 8;

/// bincode's error value.  Nothing is known of what it holds.
#[verifier::external_type_specification]
#[verifier::external_body]
pub struct ExBincodeErrorKind(bincode::ErrorKind);

/// Why a snapshot could not be written or read.  Each variant carries the
/// error that bincode gave.
#[derive(Debug)]
pub enum CodecError {
    /// The state could not be turned into bytes.
    Encode(Box<bincode::ErrorKind>),
    /// The bytes do not hold a state.
    Decode(Box<bincode::ErrorKind>),
}

/// The snapshot of a game in `state`.
pub open spec fn encoded(state: nat) -> Seq<u8>
    recommends
        state <= u64::MAX,
{
    spec_u64_to_le_bytes(state as u64)
}

/// The state that `bytes` hold, if they hold one: at least eight bytes are
/// needed, and the first eight are read.
pub open spec fn decoded(bytes: Seq<u8>) -> Option<nat> {
    if bytes.len() >= SNAPSHOT_LEN {
        Some(spec_u64_from_le_bytes(bytes.subrange(0, SNAPSHOT_LEN as int)) as nat)
    } else {
        None
    }
}

/// The state a session starts from when the store holds `bytes` for its
/// channel: the decoded state, or a fresh game where nothing can be decoded.
/// A channel without a snapshot is one whose bytes are empty.
pub open spec fn restored(bytes: Seq<u8>) -> nat {
    match decoded(bytes) {
        Some(state) => state,
        None => 0,
    }
}

/// `bincode::serialize` on a `u64`, with bincode's default configuration
/// (fixed-width integers, little endian, no size limit): the call succeeds
/// and yields the eight bytes of `n`, least significant first.
#[verifier::external_body]
fn bincode_serialize_u64(n: u64) -> (r: Result<Vec<u8>, Box<bincode::ErrorKind>>)
    ensures
        r is Ok,
        r->Ok_0@ == spec_u64_to_le_bytes(n),
{
    bincode::serialize(&n)
}

/// `bincode::deserialize` to a `u64`, with bincode's default configuration:
/// a slice shorter than eight bytes is an error; otherwise the first eight
/// bytes are read least significant first and trailing bytes are ignored.
#[verifier::external_body]
fn bincode_deserialize_u64(bytes: &[u8]) -> (r: Result<u64, Box<bincode::ErrorKind>>)
    ensures
        bytes@.len() < 8 ==> r is Err,
        bytes@.len() >= 8 ==> r is Ok && r->Ok_0 == spec_u64_from_le_bytes(bytes@.subrange(0, 8)),
{
    bincode::deserialize(bytes)
}

impl GameData {
    /// Encodes the state as a snapshot.
    pub fn encode(&self) -> (r: Result<Vec<u8>, CodecError>)
        ensures
            r is Ok,
            r->Ok_0@ == encoded(self@),
    {
        match bincode_serialize_u64(self.message_count()) {
            Ok(bytes) => Ok(bytes),
            Err(e) => Err(CodecError::Encode(e)),
        }
    }

    /// Decodes a snapshot.  Fails exactly when `bytes` is shorter than a
    /// snapshot.
    pub fn decode(bytes: &[u8]) -> (r: Result<GameData, CodecError>)
        ensures
            match decoded(bytes@) {
                Some(state) => r is Ok && r->Ok_0@ == state,
                None => r is Err && r->Err_0 is Decode,
            },
    {
        match bincode_deserialize_u64(bytes) {
            Ok(count) => Ok(GameData::with_count(count)),
            Err(e) => Err(CodecError::Decode(e)),
        }
    }

    /// The state a session starts from, given what the snapshot store holds
    /// for its channel (no bytes where it holds nothing).  Bytes that cannot
    /// be decoded give a fresh game.
    pub fn from_snapshot(bytes: &[u8]) -> (game: GameData)
        ensures
            game@ == restored(bytes@),
    {
        match GameData::decode(bytes) {
            Ok(game) => game,
            Err(_) => GameData::default(),
        }
    }
}

impl<'a> TryFrom<&'a [u8]> for GameData {
    type Error = CodecError;

    fn try_from(value: &'a [u8]) -> (r: Result<GameData, CodecError>)
        ensures
            match decoded(value@) {
                Some(state) => r is Ok && r->Ok_0@ == state,
                None => r is Err && r->Err_0 is Decode,
            },
    {
        GameData::decode(value)
    }
}

impl<'a> TryFromSpecImpl<&'a [u8]> for GameData {
    /// The error of a failed conversion is bincode's, which no spec function
    /// can produce: what the conversion does is said by the `ensures` of
    /// `try_from` instead.
    open spec fn obeys_try_from_spec() -> bool {
        false
    }

    open spec fn try_from_spec(v: &'a [u8]) -> Result<GameData, CodecError> {
        arbitrary()
    }
}

impl<'a> TryFrom<&'a GameData> for Vec<u8> {
    type Error = CodecError;

    fn try_from(value: &'a GameData) -> (r: Result<Vec<u8>, CodecError>)
        ensures
            r is Ok,
            r->Ok_0@ == encoded(value@),
    {
        value.encode()
    }
}

impl<'a> TryFromSpecImpl<&'a GameData> for Vec<u8> {
    /// As for decoding, what the conversion does is said by the `ensures`
    /// of `try_from`.
    open spec fn obeys_try_from_spec() -> bool {
        false
    }

    open spec fn try_from_spec(v: &'a GameData) -> Result<Vec<u8>, CodecError> {
        arbitrary()
    }
}

/// Decoding what was encoded gives the state back, whatever bytes follow the
/// snapshot.
pub proof fn lemma_snapshot_round_trip(state: nat, trailing: Seq<u8>)
    requires
        state <= u64::MAX,
    ensures
        encoded(state).len() == SNAPSHOT_LEN,
        decoded(encoded(state) + trailing) == Some(state),
        restored(encoded(state) + trailing) == state,
{
    lemma_auto_spec_u64_to_from_le_bytes();
    let bytes = encoded(state);
    assert((bytes + trailing).subrange(0, SNAPSHOT_LEN as int) =~= bytes);
}

/// Snapshot round trip: decoding the snapshot of a game gives that game, and
/// no other.
pub proof fn lemma_game_round_trip(game: GameData, back: GameData)
    ensures
        decoded(encoded(game@)) == Some(game@),
        decoded(encoded(game@)) == Some(back@) ==> back == game,
{
    game.lemma_view_bounded();
    lemma_snapshot_round_trip(game@, Seq::empty());
    assert(encoded(game@) + Seq::<u8>::empty() =~= encoded(game@));
    if back@ == game@ {
        GameData::lemma_view_injective(back, game);
    }
}

} // verus!
