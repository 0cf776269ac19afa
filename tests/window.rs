use chat_stream::conversation::Conversation;
use chat_stream::model::{CompletionMessage, CompletionRole};

fn contents(c: &Conversation) -> Vec<String> {
    c.snapshot().into_iter().map(|m| m.content).collect()
}

#[test]
fn window_keeps_messages_that_fit() {
    let mut c = Conversation::new(10);
    c.append(CompletionMessage::new_user_message("a".to_string()), 4);
    c.append(CompletionMessage::new_assistant_message("b".to_string()), 6);
    assert_eq!(contents(&c), vec!["a", "b"]);
    assert_eq!(c.total_cost(), 10);
    assert_eq!(c.window_size(), 10);
}

#[test]
fn overflow_evicts_oldest_first() {
    let mut c = Conversation::new(10);
    c.append(CompletionMessage::new_user_message("a".to_string()), 4);
    c.append(CompletionMessage::new_assistant_message("b".to_string()), 3);
    c.append(CompletionMessage::new_user_message("c".to_string()), 3);
    c.append(CompletionMessage::new_assistant_message("d".to_string()), 4);
    assert_eq!(contents(&c), vec!["b", "c", "d"]);
    assert_eq!(c.total_cost(), 10);
    c.append(CompletionMessage::new_user_message("e".to_string()), 9);
    assert_eq!(contents(&c), vec!["e"]);
    assert_eq!(c.total_cost(), 9);
    assert_eq!(c.snapshot()[0].role, CompletionRole::User);
}

#[test]
fn oversized_message_empties_window() {
    let mut c = Conversation::new(5);
    c.append(CompletionMessage::new_user_message("a".to_string()), 2);
    c.append(CompletionMessage::new_assistant_message("huge".to_string()), 6);
    assert_eq!(c.len(), 0);
    assert_eq!(c.total_cost(), 0);
}

#[test]
fn zero_window_holds_only_free_messages() {
    let mut c = Conversation::new(0);
    c.append(CompletionMessage::new_user_message("free".to_string()), 0);
    c.append(CompletionMessage::new_user_message("paid".to_string()), 1);
    assert_eq!(c.len(), 0);
    c.append(CompletionMessage::new_user_message("free".to_string()), 0);
    assert_eq!(contents(&c), vec!["free"]);
    c.append(CompletionMessage::new_user_message("max".to_string()), usize::MAX);
    assert_eq!(c.len(), 0);
}

#[test]
fn large_costs_do_not_overflow() {
    let mut c = Conversation::new(usize::MAX);
    c.append(CompletionMessage::new_user_message("a".to_string()), usize::MAX - 1);
    c.append(CompletionMessage::new_user_message("b".to_string()), 2);
    assert_eq!(contents(&c), vec!["b"]);
    assert_eq!(c.total_cost(), 2);
}

#[test]
fn request_messages_wrap_history() {
    let mut c = Conversation::new(100);
    c.append(CompletionMessage::new_user_message("q1".to_string()), 5);
    c.append(CompletionMessage::new_assistant_message("a1".to_string()), 5);
    let ms = c.request_messages("q2".to_string());
    assert_eq!(ms.len(), 4);
    assert_eq!(ms[0].role, CompletionRole::System);
    assert_eq!(ms[0].content, "You are a helpful assistant.");
    assert_eq!(ms[1].content, "q1");
    assert_eq!(ms[2].role, CompletionRole::Assistant);
    assert_eq!(ms[3].role, CompletionRole::User);
    assert_eq!(ms[3].content, "q2");
}
