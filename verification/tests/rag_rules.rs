use rust_agent::pattern::Pattern;
use rust_agent::rag::{chunks, should_update, Rag, WalkEntry, CHUNK_SIZE};

fn entry(path: &str, is_dir: bool) -> WalkEntry {
    WalkEntry { path: path.to_string(), is_dir }
}

fn rules() -> Rag {
    Rag::new(vec!["docs".to_string()], ".*", "draft")
}

#[test]
fn collect_keeps_included_markdown_files_in_order() {
    let rag = rules();
    let entries = vec![
        entry("docs", true),
        entry("docs/a.md", false),
        entry("docs/draft.md", false),
        entry("docs/b.txt", false),
        entry("docs/sub.md", true),
        entry("docs/sub.md/c.md", false),
    ];
    assert_eq!(rag.collect(&entries), vec!["docs/a.md".to_string(), "docs/sub.md/c.md".to_string()]);
}

#[test]
fn collect_of_no_entries_is_empty() {
    let rag = rules();
    assert!(rag.collect(&Vec::new()).is_empty());
}

#[test]
fn admits_applies_exclusion_before_inclusion() {
    let rag = Rag::new(vec![], "notes", "secret");
    assert!(rag.admits("notes/today.md"));
    assert!(!rag.admits("notes/secret.md"));
    assert!(!rag.admits("docs/today.md"));
    assert!(!rag.admits("notes/today.txt"));
}

#[test]
fn new_keeps_the_folders() {
    let rag = match Rag::try_new(vec!["x".to_string(), "y".to_string()], "a", "b") {
        Ok(r) => r,
        Err(_) => panic!("refused"),
    };
    assert_eq!(rag.paths(), &vec!["x".to_string(), "y".to_string()]);
}

#[test]
fn new_names_the_refused_inclusion_pattern() {
    match Rag::try_new(vec![], "(", "[") {
        Ok(_) => panic!("an unbalanced pattern must be refused"),
        Err(e) => assert_eq!(e.pattern, "("),
    }
}

#[test]
fn try_new_accepts_valid_patterns_like_new() {
    let checked = match Rag::try_new(vec!["docs".to_string()], ".*", "draft") {
        Ok(r) => r,
        Err(_) => panic!("refused"),
    };
    let entries = vec![entry("docs/a.md", false), entry("docs/draft.md", false)];
    assert_eq!(checked.collect(&entries), rules().collect(&entries));
}

#[test]
fn new_names_the_refused_exclusion_pattern() {
    match Rag::try_new(vec![], ".*", "a[") {
        Ok(_) => panic!("an unbalanced pattern must be refused"),
        Err(e) => assert_eq!(e.pattern, "a["),
    }
}

#[test]
fn hidden_names_start_with_a_dot() {
    let rag = rules();
    assert!(rag.is_hidden(Some(".git")));
    assert!(rag.is_hidden(Some(".")));
    assert!(!rag.is_hidden(Some("notes.md")));
    assert!(!rag.is_hidden(Some("")));
    assert!(!rag.is_hidden(None));
}

#[test]
fn hasher_gives_the_sha256_hex_of_the_content() {
    let rag = rules();
    assert_eq!(
        rag.hasher(""),
        "e3b0c44298fc1c149afbf4c8996fb92427ae41e4649b934ca495991b7852b855"
    );
    assert_eq!(
        rag.hasher("abc"),
        "ba7816bf8f01cfea414140de5dae2223b00361a396177a9cb410ff61f20015ad"
    );
}

#[test]
fn hasher_is_64_lowercase_hex_digits() {
    let rag = rules();
    let h = rag.hasher("héllo wörld");
    assert_eq!(h.len(), 64);
    assert!(h.chars().all(|c| c.is_ascii_digit() || ('a'..='f').contains(&c)));
    assert_eq!(h, rag.hasher("héllo wörld"));
    assert_ne!(h, rag.hasher("hello world"));
}

#[test]
fn chunks_cut_every_4096_characters() {
    let content: String = std::iter::repeat('x').take(2 * CHUNK_SIZE + 10).collect();
    let parts = chunks(&content);
    assert_eq!(parts.len(), 3);
    assert_eq!(parts[0].len(), CHUNK_SIZE);
    assert_eq!(parts[1].len(), CHUNK_SIZE);
    assert_eq!(parts[2].len(), 10);
}

#[test]
fn chunks_count_characters_not_bytes() {
    let content: String = std::iter::repeat('é').take(5000).collect();
    let parts = rules().chunks(&content);
    assert_eq!(parts.len(), 2);
    assert_eq!(parts[0].len(), 4096);
    assert_eq!(parts[1].len(), 904);
    let rejoined: String = parts.concat().into_iter().collect();
    assert_eq!(rejoined, content);
}

#[test]
fn chunks_of_empty_content_are_none() {
    assert!(chunks("").is_empty());
}

#[test]
fn chunks_of_exactly_one_chunk() {
    let content: String = std::iter::repeat('a').take(CHUNK_SIZE).collect();
    let parts = chunks(&content);
    assert_eq!(parts.len(), 1);
    assert_eq!(parts[0].len(), CHUNK_SIZE);
}

#[test]
fn a_stored_matching_hash_means_no_update() {
    let rag = rules();
    let stored = Some(vec!["old".to_string(), "abc".to_string()]);
    assert!(!rag.should_we_update(&stored, &"abc".to_string()));
    assert!(rag.should_we_update(&stored, &"new".to_string()));
}

#[test]
fn no_stored_rows_or_a_failed_lookup_means_update() {
    assert!(should_update(&Some(Vec::new()), &"abc".to_string()));
    assert!(should_update(&None, &"abc".to_string()));
}

#[test]
fn folders_walked_in_order_and_overlaps_repeat() {
    let rag = rules();
    let first = vec![entry("docs/a.md", false), entry("docs/b.md", false)];
    let second = vec![entry("docs/a.md", false)];
    let mut both = first.clone_entries();
    both.extend(second.clone_entries());
    assert_eq!(
        rag.collect(&both),
        vec!["docs/a.md".to_string(), "docs/b.md".to_string(), "docs/a.md".to_string()]
    );
}

trait CloneEntries {
    fn clone_entries(&self) -> Vec<WalkEntry>;
}

impl CloneEntries for Vec<WalkEntry> {
    fn clone_entries(&self) -> Vec<WalkEntry> {
        self.iter().map(|e| entry(&e.path, e.is_dir)).collect()
    }
}

#[test]
fn a_pattern_matches_by_its_own_source() {
    let p = match Pattern::new("^b") {
        Ok(p) => p,
        Err(_) => panic!("refused"),
    };
    assert_eq!(p.as_str(), "^b");
    assert!(p.is_match("bcd"));
    assert!(!p.is_match("abc"));
}
