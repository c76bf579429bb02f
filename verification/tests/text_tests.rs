use r_blockchain::arr_to_string;
use r_blockchain::i32_to_string;
use r_blockchain::join_with_commas;
use r_blockchain::string_to_arr;
use r_blockchain::u64_to_string;

#[test]
fn u64_renders_exactly() {
    assert_eq!(u64_to_string(0), "0");
    assert_eq!(u64_to_string(7), "7");
    assert_eq!(u64_to_string(10), "10");
    assert_eq!(u64_to_string(90210), "90210");
    assert_eq!(u64_to_string(u64::MAX), "18446744073709551615");
}

#[test]
fn i32_renders_exactly() {
    assert_eq!(i32_to_string(0), "0");
    assert_eq!(i32_to_string(42), "42");
    assert_eq!(i32_to_string(-13), "-13");
    assert_eq!(i32_to_string(i32::MAX), "2147483647");
    assert_eq!(i32_to_string(i32::MIN), "-2147483648");
}

#[test]
fn join_with_commas_matches_plain_join() {
    assert_eq!(join_with_commas(&Vec::new()), "");
    assert_eq!(join_with_commas(&vec!["a".to_string()]), "a");
    let parts = vec!["a".to_string(), "b".to_string(), "c".to_string()];
    assert_eq!(join_with_commas(&parts), "a,b,c");
}

#[test]
fn owner_array_round_trips_with_padding() {
    let arr: [char; 25] = string_to_arr("satoshi");
    let text = arr_to_string(&arr);
    assert_eq!(text.len(), 25);
    assert!(text.starts_with("satoshi"));
    assert!(text[7..].chars().all(|c| c == '\0'));
}

#[test]
fn owner_array_of_full_width_keeps_every_character() {
    let name = "abcdefghijklmnopqrstuvwxy";
    let arr: [char; 25] = string_to_arr(name);
    assert_eq!(arr_to_string(&arr), name);
}
