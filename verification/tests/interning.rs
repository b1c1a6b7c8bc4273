//! Interning and text normalization behaviour.
use recipe_tracker::interner::Interner;
use recipe_tracker::text::eq_ignore_case;
use recipe_tracker::text::normalize_manifest_text;
use recipe_tracker::text::normalize_reward_path;
use recipe_tracker::text::split_lines;
use recipe_tracker::text::str_le;

#[test]
fn intern_same_value_twice_gives_equal_handles() {
    let mut interner = Interner::new();
    let a = interner.intern(String::from("/Lotus/Types/Items/Alloy"));
    let b = interner.intern(String::from("/Lotus/Types/Items/Alloy"));
    assert_eq!(a, b);
    // the two handles share one backing allocation
    assert!(std::rc::Rc::ptr_eq(&a, &b));
    assert_eq!(interner.len(), 1);
}

#[test]
fn intern_grows_once_per_distinct_value() {
    let mut interner = Interner::new();
    interner.intern(String::from("alpha"));
    interner.intern(String::from("beta"));
    interner.intern(String::from("alpha"));
    interner.intern(String::from("beta"));
    interner.intern(String::from("gamma"));
    assert_eq!(interner.len(), 3);
}

#[test]
fn reward_path_normalization_removes_store_items_segment() {
    let normalized = normalize_reward_path("/Lotus/StoreItems/Types/Game/Projections/Foo");
    assert_eq!(normalized, "/Lotus/Types/Game/Projections/Foo");
}

#[test]
fn reward_path_normalization_is_idempotent() {
    let once = normalize_reward_path("/Lotus/StoreItems/Types/Game/Projections/Foo");
    let twice = normalize_reward_path(&once);
    assert_eq!(once, twice);

    let plain = normalize_reward_path("/Lotus/Types/Game/Projections/Bar");
    assert_eq!(plain, "/Lotus/Types/Game/Projections/Bar");
    assert_eq!(normalize_reward_path(&plain), plain);
}

#[test]
fn reward_path_normalization_drops_every_marker_segment() {
    let normalized = normalize_reward_path("StoreItems/A/StoreItems/B/StoreItems");
    assert_eq!(normalized, "A/B");
}

#[test]
fn manifest_text_normalization_strips_escapes_and_line_breaks() {
    let cleaned = normalize_manifest_text("{\"a\":\\r \"b\"\r\n}\n");
    assert_eq!(cleaned, "{\"a\": \"b\"}");
}

#[test]
fn case_insensitive_comparison_folds_ascii_letters() {
    assert!(eq_ignore_case("/Lotus/Types/FOO", "/lotus/types/foo"));
    assert!(!eq_ignore_case("/Lotus/Types/FOO", "/lotus/types/bar"));
    assert!(!eq_ignore_case("abc", "abcd"));
}

#[test]
fn lexicographic_order_on_text() {
    assert!(str_le("abc", "abd"));
    assert!(str_le("abc", "abc"));
    assert!(str_le("ab", "abc"));
    assert!(!str_le("abd", "abc"));
}

#[test]
fn split_lines_handles_trailing_newline_and_carriage_returns() {
    let lines = split_lines("one\r\ntwo\nthree\n");
    assert_eq!(lines, vec!["one", "two", "three"]);
    let empty: Vec<String> = split_lines("");
    assert!(empty.is_empty());
}
