use rust_agent::mcp::{ChatReply, Conversations, Profile, MAX_TURNS};
use rust_agent::Server;

#[test]
fn server_keeps_its_address() {
    let s = Server::new("127.0.0.1:8080".to_string());
    assert_eq!(s.addr(), "127.0.0.1:8080");
}

#[test]
fn every_profile_name_is_served_by_alpha() {
    assert!(matches!(Profile::from_name("alpha"), Profile::Alpha));
    assert!(matches!(Profile::from_name("beta"), Profile::Alpha));
    assert_eq!(MAX_TURNS, 5);
}

#[test]
fn chat_replies_carry_answers_or_failures() {
    let ok = ChatReply::from_outcome(Ok("done".to_string()));
    assert!(!ok.is_error);
    assert_eq!(ok.text, "done");
    let err = ChatReply::from_outcome(Err("timeout".to_string()));
    assert!(err.is_error);
    assert_eq!(err.text, "error generating a response: timeout");
}

#[test]
fn a_known_conversation_reuses_its_agent() {
    let mut c = Conversations::new();
    assert_eq!(c.slot(&"one".to_string()), (0, true));
    assert_eq!(c.slot(&"two".to_string()), (1, true));
    assert_eq!(c.slot(&"one".to_string()), (0, false));
    assert_eq!(c.slot(&"two".to_string()), (1, false));
    assert_eq!(c.slot(&"three".to_string()), (2, true));
}
