use platter_game::strings::AnyString;
use platter_game::strings::AnyUniqueString;

#[test]
fn any_string_variants_keep_their_text() {
    let owned = AnyString::from(String::from("hello"));
    let fixed = AnyString::from("hello");
    assert_eq!(owned.as_string(), "hello");
    assert_eq!(fixed.as_string(), "hello");
    assert_eq!(owned.as_str(), "hello");
}

#[test]
fn any_string_equality_is_structural() {
    let owned = AnyString::from(String::from("hello"));
    let fixed = AnyString::from("hello");
    // the derived equality distinguishes the variants
    assert_ne!(owned, fixed);
    assert_eq!(owned, AnyString::from(String::from("hello")));
    assert_eq!(fixed, AnyString::from("hello"));
}

#[test]
fn any_unique_string_equality_is_textual() {
    let owned = AnyUniqueString::from(String::from("hello"));
    let fixed = AnyUniqueString::from("hello");
    assert_eq!(owned, fixed);
    assert_ne!(owned, AnyUniqueString::from("world"));
    assert_eq!(fixed.as_string(), "hello");
}
