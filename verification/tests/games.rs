use rustack::hot_metal::hot_metal;
use rustack::palindrome::palindrome_checker;

#[test]
fn hot_metal_six_players() {
    let names = vec!["Jerry", "Tom", "Jim", "Carter", "Rose", "Xavier"];
    assert_eq!(hot_metal(names, 10), "Carter");
}

#[test]
fn hot_metal_three_players_one_pass() {
    assert_eq!(hot_metal(vec!["A", "B", "C"], 1), "C");
}

#[test]
fn hot_metal_no_passes_eliminates_in_order() {
    assert_eq!(hot_metal(vec!["A", "B", "C"], 0), "C");
}

#[test]
fn hot_metal_single_player() {
    assert_eq!(hot_metal(vec!["Solo"], 5), "Solo");
}

#[test]
fn palindrome_examples() {
    assert!(palindrome_checker("racecar"));
    assert!(palindrome_checker("rustsur"));
    assert!(!palindrome_checker("Greek"));
    assert!(!palindrome_checker("ab"));
    assert!(palindrome_checker("aa"));
    assert!(!palindrome_checker("abca"));
}

#[test]
fn palindrome_edges() {
    assert!(palindrome_checker(""));
    assert!(palindrome_checker("x"));
    // Case matters: the characters must be identical.
    assert!(!palindrome_checker("Aa"));
    // Comparison is by character, not by byte.
    assert!(palindrome_checker("été"));
}
