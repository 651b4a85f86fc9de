use strix::blocklist::{validate_block, BlockError, BlockSet, PublisherCache, Verdict};

#[test]
fn validation_errors_and_messages() {
    assert_eq!(validate_block("app", "x.exe"), Err(BlockError::InvalidKind));
    assert_eq!(BlockError::InvalidKind.message(), "kind must be 'exe' or 'publisher'");
    assert_eq!(validate_block("exe", "  \t "), Err(BlockError::EmptyValue));
    assert_eq!(BlockError::EmptyValue.message(), "value is empty");
    assert_eq!(validate_block("exe", "  Chrome.exe "), Ok("Chrome.exe".to_string()));
    assert_eq!(validate_block("publisher", "Acme Corp"), Ok("Acme Corp".to_string()));
    // the kind check comes first
    assert_eq!(validate_block("other", ""), Err(BlockError::InvalidKind));
}

#[test]
fn stored_value_revalidates_unchanged() {
    let stored = validate_block("exe", "  Tool.exe\n").unwrap();
    assert_eq!(validate_block("exe", &stored), Ok(stored.clone()));
}

#[test]
fn new_set_is_empty() {
    let b = BlockSet::new();
    assert!(b.is_empty());
}

#[test]
fn added_exe_is_blocked_case_insensitively() {
    let mut b = BlockSet::new();
    let v = validate_block("exe", " Chrome.exe ").unwrap();
    b.add_block("exe", &v);
    assert!(!b.is_empty());
    assert!(b.name_blocked("CHROME.EXE"));
    assert!(b.name_blocked("chrome.exe"));
    assert!(!b.name_blocked("firefox.exe"));
    let cache = PublisherCache::new();
    assert_eq!(b.enforce_step(&cache, "Chrome.EXE", None), Verdict::Kill);
}

#[test]
fn remove_of_stored_value_restores() {
    let mut b = BlockSet::new();
    let v = validate_block("publisher", "Acme").unwrap();
    b.add_block("publisher", &v);
    assert!(!b.is_empty());
    b.remove_block("publisher", &v);
    assert!(b.is_empty());
}

#[test]
fn remove_with_untrimmed_value_keeps_entry() {
    // add stores the trimmed value, remove lowercases the raw one
    let mut b = BlockSet::new();
    let raw = " App.exe ";
    let v = validate_block("exe", raw).unwrap();
    b.add_block("exe", &v);
    b.remove_block("exe", raw);
    assert!(b.name_blocked("app.exe"));
}

#[test]
fn remove_with_unknown_kind_targets_publishers() {
    let mut b = BlockSet::new();
    b.add_block("publisher", "Acme");
    b.remove_block("something", "ACME");
    assert!(b.is_empty());
}

#[test]
fn adding_twice_is_adding_once() {
    let mut b = BlockSet::new();
    b.add_block("exe", "a.exe");
    b.add_block("exe", "A.EXE");
    b.remove_block("exe", "a.exe");
    assert!(b.is_empty());
}

#[test]
fn load_skips_unknown_kinds() {
    let rows = vec![
        ("exe".to_string(), "Game.EXE".to_string()),
        ("color".to_string(), "blue".to_string()),
        ("publisher".to_string(), "Evil Inc".to_string()),
    ];
    let b = BlockSet::load_blocks(&rows);
    assert!(b.name_blocked("game.exe"));
    assert!(!b.name_blocked("blue"));
    assert_eq!(b.publisher_verdict("EVIL INC"), Verdict::Kill);
    assert_eq!(b.publisher_verdict("blue"), Verdict::Spare);
    let empty = BlockSet::load_blocks(&Vec::new());
    assert!(empty.is_empty());
}

#[test]
fn empty_blocklist_spares_everything() {
    let b = BlockSet::new();
    let mut cache = PublisherCache::new();
    cache.insert("C:\\x.exe", "Evil Inc");
    assert_eq!(b.enforce_step(&cache, "x.exe", Some("C:\\x.exe")), Verdict::Spare);
}

#[test]
fn publisher_protocol() {
    let mut b = BlockSet::new();
    b.add_block("publisher", "Evil Inc");
    let mut cache = PublisherCache::new();
    // no executable path: nothing to look up
    assert_eq!(b.enforce_step(&cache, "x.exe", None), Verdict::Spare);
    // uncached: the publisher must be read
    assert_eq!(b.enforce_step(&cache, "x.exe", Some("C:\\x.exe")), Verdict::NeedPublisher);
    cache.insert("C:\\x.exe", "EVIL INC");
    assert_eq!(b.enforce_step(&cache, "x.exe", Some("C:\\x.exe")), Verdict::Kill);
    cache.insert("C:\\y.exe", "");
    assert_eq!(b.enforce_step(&cache, "y.exe", Some("C:\\y.exe")), Verdict::Spare);
    assert_eq!(b.publisher_verdict(""), Verdict::Spare);
}

#[test]
fn publisher_check_skipped_without_publishers() {
    let mut b = BlockSet::new();
    b.add_block("exe", "other.exe");
    let cache = PublisherCache::new();
    assert_eq!(b.enforce_step(&cache, "x.exe", Some("C:\\x.exe")), Verdict::Spare);
}

#[test]
fn cache_reads_back_writes() {
    let mut cache = PublisherCache::new();
    assert_eq!(cache.get("a"), None);
    cache.insert("a", "One");
    cache.insert("b", "Two");
    assert_eq!(cache.get("a"), Some("One".to_string()));
    assert_eq!(cache.get("b"), Some("Two".to_string()));
    cache.insert("a", "Three");
    assert_eq!(cache.get("a"), Some("Three".to_string()));
    assert_eq!(cache.get("c"), None);
}
