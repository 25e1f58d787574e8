use duckkit::net::{chosen_ua, ua_override, PROFILE_UA};
use duckkit::session::ChatOutcome;
use duckkit::turn::{chat_step, logged, ChatAction, ChatEvent};
use duckkit::wire::WireMsg;

fn said(h: &[WireMsg]) -> Vec<(String, String)> {
    h.iter().map(|m| (m.role.clone(), m.text.clone())).collect()
}

fn answered(outcome: ChatOutcome, answer: &str, repeated: bool) -> ChatEvent {
    ChatEvent::Answered { outcome, answer: answer.to_string(), repeated }
}

#[test]
fn a_conversation_keeps_its_history() {
    let mut h: Vec<WireMsg> = Vec::new();
    let a = chat_step(&mut h, ChatEvent::Line(" \u{3000}hello there\u{85}\r\n".to_string()));
    assert!(matches!(&a, ChatAction::Send(t) if t == "hello there"));
    assert_eq!(logged(&a), Some(("user", "hello there")));
    let a = chat_step(&mut h, answered(ChatOutcome::Challenge, "half", false));
    assert!(matches!(a, ChatAction::Repeat));
    assert_eq!(logged(&a), None);
    let a = chat_step(&mut h, answered(ChatOutcome::Finished, "hi[ADS] you", true));
    assert!(matches!(&a, ChatAction::Show(t) if t == "hi you"));
    assert_eq!(logged(&a), Some(("assistant", "hi you")));
    let user = ("user".to_string(), "hello there".to_string());
    let reply = ("assistant".to_string(), "hi you".to_string());
    assert_eq!(said(&h), vec![user, reply]);
    assert!(matches!(chat_step(&mut h, ChatEvent::Line(" \t\n".to_string())), ChatAction::Leave));
    assert!(matches!(chat_step(&mut h, ChatEvent::InputEnded), ChatAction::Leave));
    assert_eq!(h.len(), 2);
}

#[test]
fn a_challenge_is_repeated_once_and_a_failure_is_logged() {
    let mut h: Vec<WireMsg> = Vec::new();
    let a = chat_step(&mut h, answered(ChatOutcome::Challenge, "x", true));
    assert!(matches!(a, ChatAction::Renewed));
    assert_eq!(logged(&a), None);
    let a = chat_step(&mut h, answered(ChatOutcome::Failed("down".to_string()), "x", false));
    assert!(matches!(&a, ChatAction::Report(t) if t == "down"));
    assert_eq!(logged(&a), Some(("error", "down")));
    assert!(h.is_empty());
}

#[test]
fn the_user_agent_can_be_chosen() {
    assert_eq!(chosen_ua(Some("mine".to_string())), "mine");
    assert_eq!(chosen_ua(Some(String::new())), PROFILE_UA);
    assert_eq!(chosen_ua(None), PROFILE_UA);
    assert_eq!(ua_override(Some("mine".to_string())), Some("mine".to_string()));
    assert_eq!(ua_override(Some(String::new())), None);
    assert_eq!(ua_override(None), None);
}
