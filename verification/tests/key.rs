use ledger_storage::key::{key_eq, key_lt_exec, Key, KeyError};

fn key(parts: &[&str]) -> Key {
    let segments: Vec<String> = parts.iter().map(|s| s.to_string()).collect();
    Key::from_segments(segments).expect("well-formed key")
}

#[test]
fn from_segments_builds_the_path() {
    let k = key(&["gov", "counter"]);
    assert_eq!(k.len(), 2);
    assert_eq!(k.to_string(), "gov/counter");
}

#[test]
fn from_segments_rejects_empty_list() {
    assert_eq!(Key::from_segments(Vec::new()).unwrap_err(), KeyError::EmptyPath);
}

#[test]
fn from_segments_rejects_empty_segment() {
    let segs = vec!["a".to_string(), String::new()];
    assert_eq!(Key::from_segments(segs).unwrap_err(), KeyError::EmptyPath);
}

#[test]
fn from_segments_rejects_separator_in_segment() {
    let segs = vec!["a/b".to_string()];
    assert_eq!(Key::from_segments(segs).unwrap_err(), KeyError::InvalidSegment);
}

#[test]
fn from_segments_rejects_non_ascii() {
    let segs = vec!["caf\u{e9}".to_string()];
    assert_eq!(Key::from_segments(segs).unwrap_err(), KeyError::InvalidSegment);
}

#[test]
fn join_appends_one_segment() {
    let k = key(&["gov"]);
    let j = k.join("counter".to_string()).unwrap();
    assert_eq!(j.to_string(), "gov/counter");
    assert_eq!(k.to_string(), "gov");
    assert_eq!(k.join(String::new()).unwrap_err(), KeyError::EmptyPath);
    assert_eq!(
        k.join("a/b".to_string()).unwrap_err(),
        KeyError::InvalidSegment
    );
}

#[test]
fn prefix_relation() {
    let p = key(&["gov"]);
    let k = key(&["gov", "counter"]);
    let other = key(&["token", "counter"]);
    assert!(p.is_prefix_of(&k));
    assert!(p.is_prefix_of(&p));
    assert!(!k.is_prefix_of(&p));
    assert!(!p.is_prefix_of(&other));
    assert!(!other.is_prefix_of(&k));
}

#[test]
fn string_round_trip() {
    for parts in [
        vec!["gov"],
        vec!["gov", "min-proposal-fund"],
        vec!["a", "b", "c"],
    ] {
        let k = key(&parts);
        let s = k.to_string();
        let back = Key::parse(&s).expect("round trip parses");
        assert!(key_eq(&back, &k));
        assert_eq!(back, k);
    }
}

#[test]
fn parse_rejects_empty_segments() {
    assert_eq!(Key::parse("").unwrap_err(), KeyError::EmptyPath);
    assert_eq!(Key::parse("/a").unwrap_err(), KeyError::EmptyPath);
    assert_eq!(Key::parse("a/").unwrap_err(), KeyError::EmptyPath);
    assert_eq!(Key::parse("a//b").unwrap_err(), KeyError::EmptyPath);
}

#[test]
fn parse_rejects_non_ascii() {
    assert_eq!(Key::parse("caf\u{e9}").unwrap_err(), KeyError::InvalidSegment);
}

#[test]
fn key_order_is_segment_wise() {
    let a = key(&["a"]);
    let ab = key(&["a", "b"]);
    let b = key(&["b"]);
    assert!(key_lt_exec(&a, &ab));
    assert!(key_lt_exec(&ab, &b));
    assert!(key_lt_exec(&a, &b));
    assert!(!key_lt_exec(&b, &a));
    assert!(!key_lt_exec(&a, &a));
}
