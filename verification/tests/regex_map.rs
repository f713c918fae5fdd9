use regex_map::PatternError;
use regex_map::RegexMap;

fn text_map(items: &[(&str, i32)]) -> RegexMap<i32> {
    let owned: Vec<(String, i32)> = items.iter().map(|(e, v)| (e.to_string(), *v)).collect();
    RegexMap::new(owned).unwrap()
}

fn byte_map(items: &[(&str, i32)]) -> regex_map::bytes::RegexMap<i32> {
    let owned: Vec<(String, i32)> = items.iter().map(|(e, v)| (e.to_string(), *v)).collect();
    regex_map::bytes::RegexMap::new(owned).unwrap()
}

const SIX: [(&str, i32); 6] =
    [("foo", 1), ("bar", 2), ("foobar", 3), ("^foo$", 4), ("^bar$", 5), ("^foobar$", 6)];

#[test]
fn text_get_matches_in_declaration_order() {
    let map = text_map(&SIX);
    assert_eq!(map.get("foo"), vec![&1, &4]);
    assert_eq!(map.get("bar"), vec![&2, &5]);
    assert_eq!(map.get("foobar"), vec![&1, &2, &3, &6]);
    assert_eq!(map.get("XXX foo XXX"), vec![&1]);
    assert_eq!(map.get("XXX bar XXX"), vec![&2]);
}

#[test]
fn text_get_first_match() {
    let map = text_map(&[("foo", 1), ("bar", 2)]);
    assert_eq!(*map.get("foo")[0], 1);
}

#[test]
fn text_no_match_is_empty_and_not_contained() {
    let map = text_map(&[("foo", 1)]);
    assert!(!map.contains_key("baz"));
    assert!(map.get("baz").is_empty());
}

#[test]
fn text_invalid_pattern_fails_construction() {
    let owned = vec![("(".to_string(), 1)];
    let r = RegexMap::new(owned);
    assert!(matches!(r, Err(PatternError::Syntax(_))));
}

#[test]
fn text_contains_key_agrees_with_get() {
    let map = text_map(&SIX);
    for key in ["foo", "bar", "foobar", "XXX foo XXX", "baz", ""] {
        assert_eq!(map.contains_key(key), !map.get(key).is_empty());
    }
}

#[test]
fn text_get_is_repeatable() {
    let map = text_map(&SIX);
    assert_eq!(map.get("foobar"), map.get("foobar"));
    assert_eq!(map.get("baz"), map.get("baz"));
}

#[test]
fn text_empty_pattern_list_matches_nothing() {
    let map: RegexMap<i32> = RegexMap::new(Vec::new()).unwrap();
    assert!(!map.contains_key("anything"));
    assert!(map.get("anything").is_empty());
    assert!(map.get("").is_empty());
}

#[test]
fn text_too_big_pattern_fails_construction() {
    let owned = vec![("a{1000}{1000}{1000}".to_string(), 1)];
    let r = RegexMap::new(owned);
    assert!(matches!(r, Err(PatternError::CompiledTooBig(_))));
}

#[test]
fn bytes_get_matches_in_declaration_order() {
    let map = byte_map(&SIX);
    assert_eq!(map.get(b"foo"), vec![&1, &4]);
    assert_eq!(map.get(b"bar"), vec![&2, &5]);
    assert_eq!(map.get(b"foobar"), vec![&1, &2, &3, &6]);
    assert_eq!(map.get(b"XXX foo XXX"), vec![&1]);
    assert_eq!(map.get(b"XXX bar XXX"), vec![&2]);
}

#[test]
fn bytes_get_first_match() {
    let map = byte_map(&[("foo", 1), ("bar", 2)]);
    assert_eq!(*map.get(b"foo")[0], 1);
}

#[test]
fn bytes_no_match_is_empty_and_not_contained() {
    let map = byte_map(&[("foo", 1)]);
    assert!(!map.contains_key(b"baz"));
    assert!(map.get(b"baz").is_empty());
}

#[test]
fn bytes_invalid_pattern_fails_construction() {
    let owned = vec![("(".to_string(), 1)];
    let r = regex_map::bytes::RegexMap::new(owned);
    assert!(matches!(r, Err(PatternError::Syntax(_))));
}

#[test]
fn bytes_contains_key_agrees_with_get() {
    let map = byte_map(&SIX);
    let keys: [&[u8]; 6] = [b"foo", b"bar", b"foobar", b"XXX foo XXX", b"baz", b""];
    for key in keys {
        assert_eq!(map.contains_key(key), !map.get(key).is_empty());
    }
}

#[test]
fn bytes_key_need_not_be_valid_text() {
    let map = byte_map(&[("foo", 1), (r"\xFF", 2)]);
    let key: &[u8] = &[0xFF, b'f', b'o', b'o', 0xFE];
    assert!(map.contains_key(key));
    assert_eq!(map.get(key), vec![&1]);
}

#[test]
fn bytes_non_utf8_matching_with_byte_classes() {
    // (?-u) turns off Unicode mode so the pattern can match raw bytes.
    let map = byte_map(&[(r"(?-u)\xFFfoo", 1), ("bar", 2)]);
    let key: &[u8] = &[0xFF, b'f', b'o', b'o'];
    assert_eq!(map.get(key), vec![&1]);
    assert!(!map.contains_key(&[0xFFu8][..]));
}

#[test]
fn values_need_not_be_copyable() {
    let owned = vec![("^a+$".to_string(), "alpha".to_string()), ("b".to_string(), "beta".to_string())];
    let map = RegexMap::new(owned).unwrap();
    let hits = map.get("aaa");
    assert_eq!(hits.len(), 1);
    assert_eq!(hits[0], "alpha");
}
