use rust_agent::tools::knowledge::{format_results, Excerpt, Knowledge, KnowledgeArgs, KnowledgeError};

fn excerpt(filename: &str, content: &str) -> Excerpt {
    Excerpt { filename: filename.to_string(), content: content.to_string() }
}

#[test]
fn excerpts_are_shown_with_their_sources() {
    let text = format_results(&vec![excerpt("a.md", "Alpha"), excerpt("b.md", "Beta")]);
    assert_eq!(text, "Source: a.md\nAlpha\n\nSource: b.md\nBeta");
}

#[test]
fn a_single_excerpt_has_no_separator() {
    assert_eq!(format_results(&vec![excerpt("x.md", "")]), "Source: x.md\n");
}

#[test]
fn no_excerpt_gives_the_fixed_message() {
    assert_eq!(format_results(&Vec::new()), "No matching documents found.");
}

#[test]
fn answer_reports_results_or_failure() {
    let tool = Knowledge::new(7u8);
    assert_eq!(*tool.rag(), 7u8);
    match tool.answer(Ok(vec![excerpt("a.md", "A")])) {
        Ok(t) => assert_eq!(t, "Source: a.md\nA"),
        Err(_) => panic!("expected an answer"),
    }
    match tool.answer(Err("connection refused".to_string())) {
        Ok(_) => panic!("expected a failure"),
        Err(e) => assert_eq!(e.message(), "Knowledge query failed: connection refused"),
    }
}

#[test]
fn error_message_names_the_cause() {
    let e = KnowledgeError::new("boom".to_string());
    assert_eq!(e.message(), "Knowledge query failed: boom");
}

#[test]
fn args_hold_the_query() {
    let a = KnowledgeArgs::new("billing rules".to_string());
    assert_eq!(a.query(), "billing rules");
}

#[test]
fn description_mentions_sources() {
    let tool = Knowledge::new(());
    let d = tool.description();
    assert!(d.starts_with("Search indexed company documentation"));
    assert!(d.contains("source filenames"));
}
