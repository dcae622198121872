use rpgsanta_2022::codec::CodecError;
use rpgsanta_2022::GameData;

#[test]
fn fresh_game_has_answered_nothing() {
    assert_eq!(GameData::default().message_count(), 0);
}

#[test]
fn process_input_counts_and_replies_with_the_count() {
    let mut game = GameData::default();
    assert_eq!(game.process_input("look"), "1");
    assert_eq!(game.process_input("go north"), "2");
    assert_eq!(game.process_input(""), "3");
    assert_eq!(game.message_count(), 3);
}

#[test]
fn process_input_ignores_the_text() {
    let mut a = GameData::with_count(41);
    let mut b = GameData::with_count(41);
    assert_eq!(a.process_input("look"), b.process_input("something else entirely"));
    assert_eq!(a.message_count(), b.message_count());
}

#[test]
fn process_input_replies_in_decimal() {
    let mut game = GameData::with_count(9);
    assert_eq!(game.process_input("x"), "10");
    let mut game = GameData::with_count(99_999);
    assert_eq!(game.process_input("x"), "100000");
    let mut game = GameData::with_count(u64::MAX - 1);
    assert_eq!(game.process_input("x"), "18446744073709551615");
}

#[test]
fn process_input_returns_at_a_full_counter_and_starts_from_zero() {
    let mut game = GameData::with_count(u64::MAX);
    assert_eq!(game.process_input("x"), "0");
    assert_eq!(game.message_count(), 0);
    assert_eq!(game.process_input("x"), "1");
}

#[test]
fn game_decoded_from_eight_ff_bytes_still_answers() {
    let mut game = GameData::decode(&[0xff; 8]).unwrap();
    assert_eq!(game.message_count(), u64::MAX);
    assert_eq!(game.process_input("look"), "0");
}

#[test]
fn encode_gives_eight_little_endian_bytes() {
    assert_eq!(GameData::default().encode().unwrap(), vec![0u8; 8]);
    assert_eq!(GameData::with_count(1).encode().unwrap(), vec![1, 0, 0, 0, 0, 0, 0, 0]);
    assert_eq!(
        GameData::with_count(0x0102_0304_0506_0708).encode().unwrap(),
        vec![8, 7, 6, 5, 4, 3, 2, 1]
    );
    assert_eq!(GameData::with_count(u64::MAX).encode().unwrap(), vec![0xff; 8]);
}

#[test]
fn decode_reads_eight_little_endian_bytes() {
    let game = GameData::decode(&[8, 7, 6, 5, 4, 3, 2, 1]).unwrap();
    assert_eq!(game.message_count(), 0x0102_0304_0506_0708);
    let game = GameData::decode(&[2, 0, 0, 0, 0, 0, 0, 0]).unwrap();
    assert_eq!(game.message_count(), 2);
}

#[test]
fn decode_ignores_trailing_bytes() {
    let game = GameData::decode(&[5, 0, 0, 0, 0, 0, 0, 0, 0xaa, 0xbb]).unwrap();
    assert_eq!(game.message_count(), 5);
}

#[test]
fn decode_rejects_short_input() {
    assert!(matches!(GameData::decode(&[]), Err(CodecError::Decode(_))));
    assert!(matches!(GameData::decode(&[1, 2, 3]), Err(CodecError::Decode(_))));
    assert!(matches!(GameData::decode(&[0; 7]), Err(CodecError::Decode(_))));
    assert!(GameData::decode(&[0; 8]).is_ok());
}

#[test]
fn decode_error_carries_the_cause() {
    match GameData::decode(&[1, 2, 3]).unwrap_err() {
        CodecError::Decode(cause) => assert!(matches!(*cause, bincode::ErrorKind::Io(_))),
        other => panic!("expected a decoding error, got {other:?}"),
    }
}

#[test]
fn snapshot_round_trip() {
    for count in [0u64, 1, 2, 255, 256, 65_535, 1 << 32, u64::MAX - 1, u64::MAX] {
        let game = GameData::with_count(count);
        let bytes = game.encode().unwrap();
        assert_eq!(bytes.len(), 8);
        assert_eq!(GameData::decode(&bytes).unwrap().message_count(), count);
    }
}

#[test]
fn snapshot_round_trip_after_play() {
    let mut game = GameData::default();
    game.process_input("look");
    game.process_input("go north");
    let bytes = game.encode().unwrap();
    let mut back = GameData::decode(&bytes).unwrap();
    assert_eq!(back.message_count(), 2);
    assert_eq!(back.process_input("look"), "3");
}

#[test]
fn try_from_bytes_decodes() {
    let bytes: Vec<u8> = vec![7, 0, 0, 0, 0, 0, 0, 0];
    let game = GameData::try_from(bytes.as_ref()).unwrap();
    assert_eq!(game.message_count(), 7);
    let short: Vec<u8> = Vec::new();
    assert!(GameData::try_from(short.as_ref()).is_err());
}

#[test]
fn try_from_game_encodes() {
    let game = GameData::with_count(7);
    let bytes = Vec::<u8>::try_from(&game).unwrap();
    assert_eq!(bytes, vec![7, 0, 0, 0, 0, 0, 0, 0]);
}

#[test]
fn from_snapshot_falls_back_to_a_fresh_game() {
    assert_eq!(GameData::from_snapshot(&[]).message_count(), 0);
    assert_eq!(GameData::from_snapshot(&[9, 9, 9]).message_count(), 0);
    assert_eq!(GameData::from_snapshot(&[3, 0, 0, 0, 0, 0, 0, 0]).message_count(), 3);
}

#[test]
fn game_data_clones() {
    let mut game = GameData::with_count(4);
    let copy = game.clone();
    game.process_input("x");
    assert_eq!(copy.message_count(), 4);
    assert_eq!(game.message_count(), 5);
}
