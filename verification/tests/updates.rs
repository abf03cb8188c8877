use rust_agent::update::{UpdateAction, UpdateEvent, Updater};

fn hash_of(s: &str) -> String {
    rust_agent::digest::content_hash_of(s)
}

fn is_read(a: &UpdateAction, name: &str) -> bool {
    matches!(a, UpdateAction::ReadFile { filename } if filename == name)
}

#[test]
fn an_update_without_files_finishes_at_once() {
    let u = Updater::new(Vec::new());
    assert!(matches!(u.action(), UpdateAction::Finish));
    assert!(u.hashes().is_empty());
}

#[test]
fn an_unchanged_file_is_skipped() {
    let u = Updater::new(vec!["a.md".to_string(), "b.md".to_string()]);
    assert!(is_read(&u.action(), "a.md"));
    let u = u.step(UpdateEvent::FileRead(Some("hello".to_string())));
    assert!(matches!(u.action(), UpdateAction::LookupStored { filename, hash } if filename == "a.md" && hash == hash_of("hello")));
    assert_eq!(u.hashes(), &vec![("a.md".to_string(), hash_of("hello"))]);
    let u = u.step(UpdateEvent::StoredHashes(Some(vec![hash_of("hello")])));
    assert!(is_read(&u.action(), "b.md"));
    let u = u.step(UpdateEvent::FileRead(None));
    assert!(matches!(u.action(), UpdateAction::Finish));
    assert_eq!(u.hashes().len(), 1);
}

#[test]
fn a_changed_file_is_embedded_and_inserted_chunk_by_chunk() {
    let content: String = std::iter::repeat('z').take(4096 + 3).collect();
    let u = Updater::new(vec!["a.md".to_string()]);
    let u = u.step(UpdateEvent::FileRead(Some(content.clone())));
    let u = u.step(UpdateEvent::StoredHashes(Some(vec!["stale".to_string()])));
    match u.action() {
        UpdateAction::Embed { filename, hash, text } => {
            assert_eq!(filename, "a.md");
            assert_eq!(hash, hash_of(&content));
            assert_eq!(text.chars().count(), 4096);
        }
        _ => panic!("expected the first chunk to be embedded"),
    }
    let u = u.step(UpdateEvent::Embedded(true));
    match u.action() {
        UpdateAction::Insert { text, .. } => assert_eq!(text.chars().count(), 4096),
        _ => panic!("expected the first chunk to be inserted"),
    }
    let u = u.step(UpdateEvent::Inserted);
    match u.action() {
        UpdateAction::Embed { text, .. } => assert_eq!(text, "zzz"),
        _ => panic!("expected the second chunk to be embedded"),
    }
    let u = u.step(UpdateEvent::Embedded(false));
    assert!(matches!(u.action(), UpdateAction::Finish));
}

#[test]
fn a_failed_lookup_indexes_the_file() {
    let u = Updater::new(vec!["a.md".to_string()]);
    let u = u.step(UpdateEvent::FileRead(Some("short".to_string())));
    let u = u.step(UpdateEvent::StoredHashes(None));
    assert!(matches!(u.action(), UpdateAction::Embed { text, .. } if text == "short"));
}

#[test]
fn an_empty_file_has_nothing_to_embed() {
    let u = Updater::new(vec!["a.md".to_string(), "b.md".to_string()]);
    let u = u.step(UpdateEvent::FileRead(Some(String::new())));
    let u = u.step(UpdateEvent::StoredHashes(None));
    assert!(is_read(&u.action(), "b.md"));
}

#[test]
fn an_event_that_answers_nothing_is_ignored() {
    let u = Updater::new(vec!["a.md".to_string()]);
    let u = u.step(UpdateEvent::Inserted);
    assert!(is_read(&u.action(), "a.md"));
    let u = u.step(UpdateEvent::Embedded(true));
    assert!(is_read(&u.action(), "a.md"));
    assert!(u.hashes().is_empty());
}

#[test]
fn every_file_read_records_its_hash() {
    let u = Updater::new(vec!["a.md".to_string(), "a.md".to_string()]);
    let u = u.step(UpdateEvent::FileRead(Some("one".to_string())));
    let u = u.step(UpdateEvent::StoredHashes(Some(vec![hash_of("one")])));
    let u = u.step(UpdateEvent::FileRead(Some("two".to_string())));
    assert_eq!(
        u.hashes(),
        &vec![("a.md".to_string(), hash_of("one")), ("a.md".to_string(), hash_of("two"))]
    );
}

#[test]
fn a_second_update_over_unchanged_files_only_reads_and_looks_up() {
    let files = vec!["a.md".to_string(), "b.md".to_string()];
    let contents = ["first", "second"];
    let mut u = Updater::new(files);
    let mut seen = Vec::new();
    for content in contents.iter() {
        seen.push(u.action());
        u = u.step(UpdateEvent::FileRead(Some(content.to_string())));
        seen.push(u.action());
        u = u.step(UpdateEvent::StoredHashes(Some(vec![hash_of(content)])));
    }
    assert!(matches!(u.action(), UpdateAction::Finish));
    assert_eq!(seen.len(), 4);
    assert!(seen.iter().all(|a| matches!(a, UpdateAction::ReadFile { .. } | UpdateAction::LookupStored { .. })));
}
