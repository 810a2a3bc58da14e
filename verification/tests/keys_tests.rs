use flight_dispatcher::keys::{parse_stream_key, StageKey, StreamKey};

#[test]
fn test_render_joins_with_delimiter() {
    let key = StreamKey::create("q1".to_string(), "st".to_string(), "out".to_string());
    assert_eq!(key.render(), "q1/st/out");
}

#[test]
fn test_parse_round_trips_render() {
    let key = StreamKey::create("query_id".to_string(), "stage_id".to_string(), "stream_id".to_string());
    let parsed = parse_stream_key(&key.render()).expect("rendered keys must parse");
    assert!(parsed.equals(&key));
}

#[test]
fn test_parse_splits_on_first_two_delimiters() {
    let parsed = parse_stream_key("a/b/c/d").expect("two delimiters are present");
    assert_eq!(parsed.query_id, "a");
    assert_eq!(parsed.stage_id, "b");
    assert_eq!(parsed.stream_id, "c/d");
}

#[test]
fn test_parse_rejects_short_forms() {
    assert!(parse_stream_key("").is_none());
    assert!(parse_stream_key("abc").is_none());
    assert!(parse_stream_key("a/b").is_none());
}

#[test]
fn test_key_equality_is_field_wise() {
    let a = StreamKey::create("q".to_string(), "s".to_string(), "x".to_string());
    let b = StreamKey::create("q".to_string(), "s".to_string(), "x".to_string());
    let c = StreamKey::create("q".to_string(), "s".to_string(), "y".to_string());
    assert!(a.equals(&b));
    assert!(!a.equals(&c));

    let sa = StageKey::create("q".to_string(), "s".to_string());
    let sb = StageKey::create("q".to_string(), "t".to_string());
    assert!(!sa.equals(&sb));
    assert!(sa.equals(&StageKey::create("q".to_string(), "s".to_string())));
}
