use rpgsanta_2022::{room_db, room_id, Room, RoomID};
use std::collections::HashSet;

#[test]
fn test_room_db_sorted() {
    let db: Vec<Room> = room_db();
    assert!(db.is_sorted(), "ROOM_DB not sorted! Should be: {:?}", {
        let mut v = db.clone();
        v.sort();
        v
    });
}

#[test]
fn test_all_room_ids_different() {
    let db: Vec<Room> = room_db();
    let mut set = HashSet::new();
    for room in db.iter() {
        set.insert(room.id);
    }
    assert_eq!(db.len(), set.len());
}

#[test]
fn room_id_packs_big_endian() {
    assert_eq!(room_id("d101").get(), 0x6431_3031);
    assert_eq!(room_id("DEAD").get(), u32::from_be_bytes(*b"DEAD"));
    assert_eq!(room_id("c_H8").get(), u32::from_be_bytes(*b"c_H8"));
}

#[test]
fn room_id_pads_short_names_with_dots() {
    assert_eq!(room_id("").get(), u32::from_be_bytes(*b"...."));
    assert_eq!(room_id("a").get(), u32::from_be_bytes(*b"a..."));
    assert_eq!(room_id("ab").get(), u32::from_be_bytes(*b"ab.."));
    assert_eq!(room_id("abc").get(), u32::from_be_bytes(*b"abc."));
}

#[test]
fn room_id_takes_any_bytes_but_four_zeros() {
    assert_eq!(room_id("\0").get(), u32::from_be_bytes([0, b'.', b'.', b'.']));
    assert_eq!(room_id("\0\0\0a").get(), u32::from(b'a'));
    assert_eq!(room_id("é!").get(), u32::from_be_bytes([0xc3, 0xa9, b'!', b'.']));
}

#[test]
fn room_id_default_is_the_empty_name() {
    assert_eq!(RoomID::default(), room_id(""));
    assert_eq!(RoomID::default().get(), 0x2e2e_2e2e);
}

#[test]
fn room_ids_order_as_their_names() {
    assert!(room_id("d101") < room_id("d102"));
    assert!(room_id("c_H8") < room_id("d101"));
    assert!(room_id("w_I8") > room_id("w_I7"));
    assert_eq!(room_id("d101"), room_id("d101"));
    assert_ne!(room_id("d101"), room_id("d10"));
}

#[test]
fn room_id_debug_string_shows_the_name() {
    assert_eq!(room_id("d101").debug_string(), "RoomID(d101)");
    assert_eq!(room_id("ab").debug_string(), "RoomID(ab..)");
    assert_eq!(RoomID::default().debug_string(), "RoomID(....)");
}

#[test]
fn room_id_debug_string_maps_bytes_to_code_points() {
    // The two bytes of `é` in UTF-8 are shown as the characters U+00C3 and U+00A9.
    assert_eq!(room_id("é").debug_string(), "RoomID(\u{c3}\u{a9}..)");
}

#[test]
fn room_default_is_the_placeholder() {
    let room = Room::default();
    assert_eq!(room.id, room_id("DEAD"));
    assert_eq!(room.name, "Default");
    assert_eq!(room.description, "Default");
}

#[test]
fn room_db_holds_the_rooms_in_order() {
    let db = room_db();
    assert_eq!(db.len(), 26);
    assert_eq!(db[0], Room { id: room_id("c_H8"), name: "Shrine of Resurrection", description: "Default" });
    assert_eq!(db[1], Room { id: room_id("d101"), name: "entry", description: "Default" });
    assert_eq!(db[18], Room { id: room_id("d118"), name: "the-cape", description: "Default" });
    assert_eq!(db[19], Room { id: room_id("w_H4"), name: "Zakros Isle", description: "Default" });
    assert_eq!(db[25], Room { id: room_id("w_I8"), name: "Torshavn", description: "Default" });
    let names: Vec<&str> = db.iter().map(|room| room.name).collect();
    assert_eq!(
        names,
        vec![
            "Shrine of Resurrection", "entry", "deadend", "deadend", "hall-north", "room", "room",
            "room", "room", "room", "room", "hall", "hall-turn-west", "stairs-down",
            "mini-treasure?", "sage?", "hall-turn-north", "boss-fight", "the-cape", "Zakros Isle",
            "Firros", "Baikal", "Baikal", "Torshavn", "Torshavn", "Torshavn",
        ]
    );
}

#[test]
fn room_db_ids_strictly_increase() {
    let db = room_db();
    for pair in db.windows(2) {
        assert!(pair[0].id < pair[1].id);
    }
}
