use rpgsanta_2022::gateway::is_eligible;
use rpgsanta_2022::store::{local_snapshot_file_name, snapshot_dir, snapshot_file_name};
use rpgsanta_2022::text::{decimal_string, push_decimal};

#[test]
fn decimal_string_of_small_and_large_numbers() {
    assert_eq!(decimal_string(0), "0");
    assert_eq!(decimal_string(7), "7");
    assert_eq!(decimal_string(10), "10");
    assert_eq!(decimal_string(1_234_567_890), "1234567890");
    assert_eq!(decimal_string(u64::MAX), "18446744073709551615");
}

#[test]
fn decimal_string_agrees_with_std() {
    for n in [0u64, 1, 9, 10, 11, 99, 100, 101, 999, 1000, 4_294_967_295, 4_294_967_296] {
        assert_eq!(decimal_string(n), n.to_string());
    }
}

#[test]
fn push_decimal_appends() {
    let mut out = String::from("n=");
    push_decimal(&mut out, 305);
    assert_eq!(out, "n=305");
    push_decimal(&mut out, 0);
    assert_eq!(out, "n=3050");
}

#[test]
fn snapshot_file_name_is_number_dot_data() {
    assert_eq!(snapshot_file_name(0), "0.data");
    assert_eq!(snapshot_file_name(1_049_157_246_647_304_263), "1049157246647304263.data");
    assert_eq!(snapshot_file_name(u64::MAX), "18446744073709551615.data");
}

#[test]
fn snapshot_file_names_differ_between_channels() {
    assert_ne!(snapshot_file_name(1), snapshot_file_name(10));
    assert_ne!(snapshot_file_name(12), snapshot_file_name(21));
}

#[test]
fn snapshot_locations() {
    assert_eq!(snapshot_dir(), "save_data");
    assert_eq!(local_snapshot_file_name(), "local_save.data");
}

#[test]
fn only_private_texts_from_people_are_eligible() {
    assert!(is_eligible(false, true));
    assert!(!is_eligible(true, true));
    assert!(!is_eligible(false, false));
    assert!(!is_eligible(true, false));
}
