use metaboss::cache::ProgressCache;
use metaboss::loader::resolve_targets;
use metaboss::outcome::{CacheEntry, Outcome};
use metaboss::EngineError;

fn s(text: &str) -> String {
    text.to_owned()
}

/// An explicit list text parses, keeps its order, and drops repeats.
#[test]
fn explicit_list_is_parsed_and_deduplicated() {
    let text = s("[\"mintA\", \"mintB\", \"mintA\", \"mintC\"]");
    let targets = resolve_targets(Some(&text), None).unwrap();
    assert_eq!(targets, vec![s("mintA"), s("mintB"), s("mintC")]);
}

/// A text that is not a JSON array of strings is rejected before any work.
#[test]
fn malformed_list_is_invalid_input() {
    let text = s("these are not the mints you are looking for");
    match resolve_targets(Some(&text), None) {
        Err(EngineError::InvalidInput(_)) => {}
        _ => panic!("a malformed list must be InvalidInput"),
    }
    let numbers = s("[1, 2, 3]");
    assert!(matches!(
        resolve_targets(Some(&numbers), None),
        Err(EngineError::InvalidInput(_))
    ));
}

/// A list that parses to zero entries is rejected.
#[test]
fn empty_list_is_invalid_input() {
    let text = s("[]");
    assert!(matches!(
        resolve_targets(Some(&text), None),
        Err(EngineError::InvalidInput(_))
    ));
}

/// With no explicit list, the identifiers of a prior run's cache are used.
#[test]
fn cache_records_double_as_target_list() {
    let mut cache = ProgressCache::new();
    cache.record(CacheEntry {
        target: s("mintA"),
        outcome: Outcome::Success(s("sig")),
        new_value: None,
    });
    cache.record(CacheEntry {
        target: s("mintB"),
        outcome: Outcome::Failure(s("boom")),
        new_value: None,
    });
    let targets = resolve_targets(None, Some(&cache)).unwrap();
    assert_eq!(targets, vec![s("mintA"), s("mintB")]);
}

/// An empty cache supplies no targets.
#[test]
fn empty_cache_is_invalid_input() {
    let cache = ProgressCache::new();
    assert!(matches!(
        resolve_targets(None, Some(&cache)),
        Err(EngineError::InvalidInput(_))
    ));
}

/// With neither source supplied there is nothing to run against.
#[test]
fn neither_source_is_invalid_input() {
    match resolve_targets(None, None) {
        Err(e) => assert!(e.is_fatal()),
        Ok(_) => panic!("no source must be InvalidInput"),
    }
}

/// An explicit list takes precedence over a supplied cache.
#[test]
fn explicit_list_wins_over_cache() {
    let mut cache = ProgressCache::new();
    cache.record(CacheEntry {
        target: s("fromCache"),
        outcome: Outcome::Success(s("sig")),
        new_value: None,
    });
    let text = s("[\"fromList\"]");
    let targets = resolve_targets(Some(&text), Some(&cache)).unwrap();
    assert_eq!(targets, vec![s("fromList")]);
}
