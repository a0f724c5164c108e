use std::sync::Arc;

use ara_source::error::Error;
use ara_source::source::Source;
use ara_source::source::SourceKind;
use ara_source::SourceMap;

fn loaded(origin: &str, content: &str) -> Source {
    let mut source = Source::new(SourceKind::Script, "/project", origin);
    source.content = Some(Arc::new(content.to_string()));
    source
}

#[test]
fn test_source_map() {
    let mut map = SourceMap::new(vec![]);

    map.add(loaded("foo.ara", "function foo(): void {}"));
    map.add(loaded("bar.ara", "function bar(): void {}"));

    assert_eq!(map.get(1).unwrap().origin, Some("foo.ara".to_string()));
    assert_eq!(map.get(2).unwrap().origin, Some("bar.ara".to_string()));
    assert!(map.get(3).is_err());

    assert_eq!(
        map.named("foo.ara").unwrap().origin,
        Some("foo.ara".to_string())
    );
    assert_eq!(
        map.named("bar.ara").unwrap().origin,
        Some("bar.ara".to_string())
    );
    assert!(map.named("baz.ara").is_err());

    let mut other = SourceMap::new(vec![]);

    other.add(loaded("baz.ara", "function baz(): void {}"));

    map.merge(&mut other);

    assert_eq!(map.get(1).unwrap().origin, Some("foo.ara".to_string()));
    assert_eq!(map.get(2).unwrap().origin, Some("bar.ara".to_string()));
    assert_eq!(map.get(3).unwrap().origin, Some("baz.ara".to_string()));

    assert!(other.get(1).is_err());
}

#[test]
fn added_source_is_found_by_origin_and_by_position() {
    let mut map = SourceMap::new(vec![]);
    map.add(Source::inline(SourceKind::Script, "anonymous"));
    map.add(loaded("lib/a.ara", "a"));
    map.add(loaded("lib/b.ara", "b"));

    let by_name = map.named("lib/b.ara").unwrap();
    let by_index = map.get(3).unwrap();
    assert_eq!(by_name, by_index);
    assert_eq!(by_name.content, Some(Arc::new("b".to_string())));
}

#[test]
fn named_returns_the_first_of_equal_origins() {
    let mut map = SourceMap::new(vec![]);
    map.add(loaded("twice.ara", "first"));
    map.add(loaded("twice.ara", "second"));

    assert_eq!(
        map.named("twice.ara").unwrap().content,
        Some(Arc::new("first".to_string()))
    );
    assert_eq!(
        map.get(2).unwrap().content,
        Some(Arc::new("second".to_string()))
    );
}

#[test]
fn named_never_matches_a_source_without_origin() {
    let mut map = SourceMap::new(vec![]);
    map.add(Source::inline(SourceKind::Script, "text"));

    assert!(map.named("").is_err());
    assert!(map.named("<unknown>").is_err());
}

#[test]
fn get_zero_and_past_the_end_are_not_found() {
    let mut map = SourceMap::new(vec![]);
    map.add(loaded("one.ara", "1"));
    map.add(loaded("two.ara", "2"));

    match map.get(0) {
        Err(Error::SourceNotFound(key)) => assert_eq!(key, "0"),
        _ => panic!("index 0 must not be found"),
    }
    match map.get(3) {
        Err(Error::SourceNotFound(key)) => assert_eq!(key, "3"),
        _ => panic!("index 3 must not be found"),
    }
    match map.get(usize::MAX) {
        Err(Error::SourceNotFound(key)) => assert_eq!(key, usize::MAX.to_string()),
        _ => panic!("the largest index must not be found"),
    }
}

#[test]
fn named_reports_the_origin_that_was_asked_for() {
    let map = SourceMap::new(vec![]);

    match map.named("missing.ara") {
        Err(Error::SourceNotFound(key)) => assert_eq!(key, "missing.ara"),
        _ => panic!("nothing can be found in an empty map"),
    }
}

#[test]
fn merge_appends_in_order_and_empties_the_donor() {
    let mut map = SourceMap::new(vec![loaded("a.ara", "a"), loaded("b.ara", "b")]);
    let mut other = SourceMap::new(vec![loaded("c.ara", "c"), loaded("d.ara", "d")]);

    map.merge(&mut other);

    let origins: Vec<Option<String>> = map.sources.iter().map(|s| s.origin.clone()).collect();
    assert_eq!(
        origins,
        vec![
            Some("a.ara".to_string()),
            Some("b.ara".to_string()),
            Some("c.ara".to_string()),
            Some("d.ara".to_string()),
        ]
    );
    assert_eq!(other.sources.len(), 0);
    assert!(matches!(other.get(1), Err(Error::SourceNotFound(_))));
    assert!(matches!(other.named("c.ara"), Err(Error::SourceNotFound(_))));
}

#[test]
fn equal_digests_do_not_confuse_lookup() {
    let mut map = SourceMap::new(vec![]);
    map.add(loaded("x.ara", ""));
    map.add(loaded("y.ara", "\0"));

    let first = map.sources[0].hash(None).unwrap();
    let second = map.sources[1].hash(None).unwrap();
    assert_eq!(first, second);
    assert_ne!(map.sources[0].content, map.sources[1].content);

    assert_eq!(map.named("y.ara").unwrap().origin, Some("y.ara".to_string()));
    assert_eq!(map.named("x.ara").unwrap().origin, Some("x.ara".to_string()));
    assert_eq!(map.get(2).unwrap().content, Some(Arc::new("\0".to_string())));

    let mut other = SourceMap::new(vec![loaded("z.ara", "")]);
    map.merge(&mut other);
    assert_eq!(map.sources.len(), 3);
    assert_eq!(map.named("z.ara").unwrap().origin, Some("z.ara".to_string()));
    assert_eq!(map.named("x.ara").unwrap().origin, Some("x.ara".to_string()));
}

#[test]
fn error_messages() {
    assert_eq!(
        Error::SourceNotFound("7".to_string()).message(),
        "source `7` not found."
    );
    assert_eq!(
        Error::InvalidSource("source `x` is not supported.".to_string()).message(),
        "invalid source: source `x` is not supported."
    );
    assert_eq!(
        Error::unsupported("docs").message(),
        "invalid source: source `docs` is not supported."
    );
}
