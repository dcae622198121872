//! Room identifiers and the table of rooms.
//!
//! A room is named by up to four bytes.  The identifier packs them, first
//! byte most significant, into one non-zero 32-bit number; names shorter than
//! four bytes are filled up with `.` on the right.

use crate::text::latin1;
use vstd::arithmetic::div_mod::lemma_fundamental_div_mod_converse;
use vstd::prelude::*;
use vstd::string::{is_ascii, is_ascii_spec_bytes, StringExecFns, StringSliceAdditionalSpecFns};

verus! {

/// The byte that fills a short room name up to four bytes: `.`.
pub const PAD: u8 = 46;

/// `name` filled up with `PAD` on the right to exactly four bytes.
pub open spec fn padded(name: Seq<u8>) -> Seq<u8>
    recommends
        name.len() <= 4,
{
    Seq::new(
        4,
        |i: int|
            if i < name.len() {
                name[i]
            } else {
                PAD
            },
    )
}

/// The number whose big-endian bytes are `b0, b1, b2, b3`.
pub open spec fn pack(b0: u8, b1: u8, b2: u8, b3: u8) -> nat {
    (b0 as nat) * 0x100_0000 + (b1 as nat) * 0x1_0000 + (b2 as nat) * 0x100 + (b3 as nat)
}

/// The number a room name stands for.
pub open spec fn room_code(name: Seq<u8>) -> nat
    recommends
        name.len() <= 4,
{
    let p = padded(name);
    pack(p[0], p[1], p[2], p[3])
}

/// The names that identify a room: at most four bytes, not all of them zero.
pub open spec fn is_room_name(name: Seq<u8>) -> bool {
    &&& name.len() <= 4
    &&& room_code(name) != 0
}

/// The four big-endian bytes of `code`, most significant first.
pub open spec fn unpack(code: nat) -> Seq<u8>
    recommends
        code <= u32::MAX,
{
    seq![
        (code / 0x100_0000 % 0x100) as u8,
        (code / 0x1_0000 % 0x100) as u8,
        (code / 0x100 % 0x100) as u8,
        (code % 0x100) as u8,
    ]
}

/// How an identifier is shown: its four bytes, each as the character with
/// that code point, between `RoomID(` and `)`.
pub open spec fn debug_text(code: nat) -> Seq<char>
    recommends
        code <= u32::MAX,
{
    "RoomID("@ + latin1(unpack(code)) + ")"@
}

/// The identifier of a room.
#[derive(Debug, Clone, Copy, PartialEq, Eq, PartialOrd, Ord, Hash)]
pub struct RoomID(u32);

impl View for RoomID {
    type V = nat;

    /// The number that the identifier packs its name into.
    closed spec fn view(&self) -> nat {
        self.0 as nat
    }
}

impl RoomID {
    #[verifier::type_invariant]
    spec fn nonzero(self) -> bool {
        self.0 != 0
    }

    /// The identifier as a number; never zero.
    pub fn get(&self) -> (code: u32)
        ensures
            code == self@,
            code != 0,
    {
        proof {
            use_type_invariant(self);
        }
        self.0
    }

    /// The identifier as text, with the bytes of the room's name readable.
    pub fn debug_string(&self) -> (text: String)
        ensures
            text@ == debug_text(self@),
    {
        let code: u32 = self.0;
        let mut text = String::from_str("RoomID(");
        text.push((code / 0x100_0000) as u8 as char);
        text.push((code / 0x1_0000 % 0x100) as u8 as char);
        text.push((code / 0x100 % 0x100) as u8 as char);
        text.push((code % 0x100) as u8 as char);
        text.push(')');
        proof {
            reveal_strlit(")");
        }
        text
    }
}

impl Default for RoomID {
    /// The identifier of the room with the empty name, `....`.
    fn default() -> (id: RoomID)
        ensures
            id@ == room_code(Seq::<u8>::empty()),
    {
        proof {
            reveal_strlit("");
            lemma_ascii_name("");
        }
        room_id("")
    }
}

/// The bytes of a name made of ASCII characters are the code points of its
/// characters.
pub proof fn lemma_ascii_name(s: &str)
    requires
        is_ascii(s),
    ensures
        s.spec_bytes() == Seq::new(s@.len(), |i: int| s@[i] as u8),
{
    is_ascii_spec_bytes(s);
}

/// Unpacking recovers the four bytes that were packed.
pub proof fn lemma_unpack_pack(b0: u8, b1: u8, b2: u8, b3: u8)
    ensures
        pack(b0, b1, b2, b3) <= u32::MAX,
        unpack(pack(b0, b1, b2, b3)) == seq![b0, b1, b2, b3],
{
    let code = pack(b0, b1, b2, b3) as int;
    let (a, b, c, d) = (b0 as int, b1 as int, b2 as int, b3 as int);
    lemma_fundamental_div_mod_converse(code, 0x100_0000, a, b * 0x1_0000 + c * 0x100 + d);
    lemma_fundamental_div_mod_converse(a, 0x100, 0, a);
    lemma_fundamental_div_mod_converse(code, 0x1_0000, a * 0x100 + b, c * 0x100 + d);
    lemma_fundamental_div_mod_converse(a * 0x100 + b, 0x100, a, b);
    lemma_fundamental_div_mod_converse(code, 0x100, a * 0x1_0000 + b * 0x100 + c, d);
    lemma_fundamental_div_mod_converse(a * 0x1_0000 + b * 0x100 + c, 0x100, a * 0x100 + b, c);
}

/// The identifier of the room called `s`.
pub fn room_id(s: &str) -> (id: RoomID)
    requires
        is_room_name(s.spec_bytes()),
    ensures
        id@ == room_code(s.spec_bytes()),
{
    let bytes = s.as_bytes();
    let n = bytes.len();
    let b0: u8 = if n > 0 { bytes[0] } else { PAD };
    let b1: u8 = if n > 1 { bytes[1] } else { PAD };
    let b2: u8 = if n > 2 { bytes[2] } else { PAD };
    let b3: u8 = if n > 3 { bytes[3] } else { PAD };
    let high: u32 = (b0 as u32) * 0x100_0000 + (b1 as u32) * 0x1_0000;
    let low: u32 = (b2 as u32) * 0x100 + (b3 as u32);
    RoomID(high + low)
}

/// The text of an identifier shows the name it was made from, filled up to
/// four bytes.
pub proof fn lemma_debug_shows_name(name: Seq<u8>)
    requires
        name.len() <= 4,
    ensures
        room_code(name) <= u32::MAX,
        debug_text(room_code(name)) == "RoomID("@ + latin1(padded(name)) + ")"@,
{
    let p = padded(name);
    lemma_unpack_pack(p[0], p[1], p[2], p[3]);
}

/// A room of the game.
#[derive(Debug, Clone, Copy, PartialEq, Eq, PartialOrd, Ord, Hash)]
pub struct Room {
    pub id: RoomID,
    pub name: &'static str,
    pub description: &'static str,
}

impl Default for Room {
    /// The placeholder room `DEAD`, whose name and description are both
    /// `Default`.
    fn default() -> (room: Room)
        ensures
            room.id@ == room_code("DEAD".spec_bytes()),
            room.name@ == "Default"@,
            room.description@ == "Default"@,
    {
        proof {
            reveal_strlit("DEAD");
            lemma_ascii_name("DEAD");
        }
        Room { id: room_id("DEAD"), name: "Default", description: "Default" }
    }
}

/// A room with the given name whose description is still the placeholder's.
fn undescribed(code: &'static str, name: &'static str) -> (room: Room)
    requires
        is_room_name(code.spec_bytes()),
    ensures
        room.id@ == room_code(code.spec_bytes()),
        room.name@ == name@,
        room.description@ == "Default"@,
{
    Room { id: room_id(code), name, description: "Default" }
}

/// The rooms of the game as pairs of four-byte name and title, in the order
/// of the table.
pub open spec fn room_entries() -> Seq<(&'static str, &'static str)> {
    seq![
        ("c_H8", "Shrine of Resurrection"),
        ("d101", "entry"),
        ("d102", "deadend"),
        ("d103", "deadend"),
        ("d104", "hall-north"),
        ("d105", "room"),
        ("d106", "room"),
        ("d107", "room"),
        ("d108", "room"),
        ("d109", "room"),
        ("d110", "room"),
        ("d111", "hall"),
        ("d112", "hall-turn-west"),
        ("d113", "stairs-down"),
        ("d114", "mini-treasure?"),
        ("d115", "sage?"),
        ("d116", "hall-turn-north"),
        ("d117", "boss-fight"),
        ("d118", "the-cape"),
        ("w_H4", "Zakros Isle"),
        ("w_H8", "Firros"),
        ("w_I4", "Baikal"),
        ("w_I5", "Baikal"),
        ("w_I6", "Torshavn"),
        ("w_I7", "Torshavn"),
        ("w_I8", "Torshavn"),
    ]
}

/// Whether `rooms` is the table that `entries` describes: one room for each
/// entry, in order, with the entry's identifier and title and the
/// placeholder description.
pub open spec fn rooms_match(rooms: Seq<Room>, entries: Seq<(&'static str, &'static str)>) -> bool {
    &&& rooms.len() == entries.len()
    &&& forall|i: int|
        0 <= i < rooms.len() ==> {
            &&& (#[trigger] rooms[i]).id@ == room_code(entries[i].0.spec_bytes())
            &&& rooms[i].name@ == entries[i].1@
            &&& rooms[i].description@ == "Default"@
        }
}

/// Whether the identifiers of `rooms` strictly increase along the table, so
/// that the table is sorted and no identifier occurs twice.
pub open spec fn ids_increase(rooms: Seq<Room>) -> bool {
    forall|i: int, j: int| 0 <= i < j < rooms.len() ==> rooms[i].id@ < rooms[j].id@
}

/// The code of a name of four ASCII characters packs their code points.
pub proof fn lemma_four_ascii(s: &str)
    requires
        s@.len() == 4,
        is_ascii(s),
    ensures
        s.spec_bytes().len() == 4,
        room_code(s.spec_bytes()) == pack(s@[0] as u8, s@[1] as u8, s@[2] as u8, s@[3] as u8),
{
    lemma_ascii_name(s);
}

/// Adds the next room of the table, called `code` with title `name`, to the
/// end of `rooms`.
fn add_room(rooms: &mut Vec<Room>, code: &'static str, name: &'static str)
    requires
        old(rooms)@.len() < room_entries().len(),
        room_entries()[old(rooms)@.len() as int] == (code, name),
        rooms_match(old(rooms)@, room_entries().take(old(rooms)@.len() as int)),
        is_room_name(code.spec_bytes()),
        ids_increase(old(rooms)@),
        old(rooms)@.len() > 0 ==> old(rooms)@.last().id@ < room_code(code.spec_bytes()),
    ensures
        final(rooms)@.len() == old(rooms)@.len() + 1,
        rooms_match(final(rooms)@, room_entries().take(final(rooms)@.len() as int)),
        ids_increase(final(rooms)@),
        final(rooms)@.last().id@ == room_code(code.spec_bytes()),
{
    let room = undescribed(code, name);
    rooms.push(room);
    let ghost before = old(rooms)@;
    let ghost k = before.len() as int;
    assert forall|i: int, j: int| 0 <= i < j < rooms@.len() implies rooms@[i].id@ < rooms@[j].id@ by {
        if j < k {
        } else if i < k - 1 {
        }
    }
}

/// The table of rooms, sorted by identifier.
pub fn room_db() -> (rooms: Vec<Room>)
    ensures
        rooms_match(rooms@, room_entries()),
        ids_increase(rooms@),
{
    let mut rooms: Vec<Room> = Vec::new();
    proof {
        reveal_strlit("c_H8");
        lemma_four_ascii("c_H8");
    }
    add_room(&mut rooms, "c_H8", "Shrine of Resurrection");
    proof {
        reveal_strlit("d101");
        lemma_four_ascii("d101");
    }
    add_room(&mut rooms, "d101", "entry");
    proof {
        reveal_strlit("d102");
        lemma_four_ascii("d102");
    }
    add_room(&mut rooms, "d102", "deadend");
    proof {
        reveal_strlit("d103");
        lemma_four_ascii("d103");
    }
    add_room(&mut rooms, "d103", "deadend");
    proof {
        reveal_strlit("d104");
        lemma_four_ascii("d104");
    }
    add_room(&mut rooms, "d104", "hall-north");
    proof {
        reveal_strlit("d105");
        lemma_four_ascii("d105");
    }
    add_room(&mut rooms, "d105", "room");
    proof {
        reveal_strlit("d106");
        lemma_four_ascii("d106");
    }
    add_room(&mut rooms, "d106", "room");
    proof {
        reveal_strlit("d107");
        lemma_four_ascii("d107");
    }
    add_room(&mut rooms, "d107", "room");
    proof {
        reveal_strlit("d108");
        lemma_four_ascii("d108");
    }
    add_room(&mut rooms, "d108", "room");
    proof {
        reveal_strlit("d109");
        lemma_four_ascii("d109");
    }
    add_room(&mut rooms, "d109", "room");
    proof {
        reveal_strlit("d110");
        lemma_four_ascii("d110");
    }
    add_room(&mut rooms, "d110", "room");
    proof {
        reveal_strlit("d111");
        lemma_four_ascii("d111");
    }
    add_room(&mut rooms, "d111", "hall");
    proof {
        reveal_strlit("d112");
        lemma_four_ascii("d112");
    }
    add_room(&mut rooms, "d112", "hall-turn-west");
    proof {
        reveal_strlit("d113");
        lemma_four_ascii("d113");
    }
    add_room(&mut rooms, "d113", "stairs-down");
    proof {
        reveal_strlit("d114");
        lemma_four_ascii("d114");
    }
    add_room(&mut rooms, "d114", "mini-treasure?");
    proof {
        reveal_strlit("d115");
        lemma_four_ascii("d115");
    }
    add_room(&mut rooms, "d115", "sage?");
    proof {
        reveal_strlit("d116");
        lemma_four_ascii("d116");
    }
    add_room(&mut rooms, "d116", "hall-turn-north");
    proof {
        reveal_strlit("d117");
        lemma_four_ascii("d117");
    }
    add_room(&mut rooms, "d117", "boss-fight");
    proof {
        reveal_strlit("d118");
        lemma_four_ascii("d118");
    }
    add_room(&mut rooms, "d118", "the-cape");
    proof {
        reveal_strlit("w_H4");
        lemma_four_ascii("w_H4");
    }
    add_room(&mut rooms, "w_H4", "Zakros Isle");
    proof {
        reveal_strlit("w_H8");
        lemma_four_ascii("w_H8");
    }
    add_room(&mut rooms, "w_H8", "Firros");
    proof {
        reveal_strlit("w_I4");
        lemma_four_ascii("w_I4");
    }
    add_room(&mut rooms, "w_I4", "Baikal");
    proof {
        reveal_strlit("w_I5");
        lemma_four_ascii("w_I5");
    }
    add_room(&mut rooms, "w_I5", "Baikal");
    proof {
        reveal_strlit("w_I6");
        lemma_four_ascii("w_I6");
    }
    add_room(&mut rooms, "w_I6", "Torshavn");
    proof {
        reveal_strlit("w_I7");
        lemma_four_ascii("w_I7");
    }
    add_room(&mut rooms, "w_I7", "Torshavn");
    proof {
        reveal_strlit("w_I8");
        lemma_four_ascii("w_I8");
    }
    add_room(&mut rooms, "w_I8", "Torshavn");
    rooms
}

} // verus!
