use mia::message::{ChatMessage, Role};
use mia::session::{display_name, Conversation, SessionStore};
use mia::MiaMode;

fn user_msg(content: &str, timestamp: u64) -> ChatMessage {
    ChatMessage { role: Role::User, content: content.to_string(), timestamp, sources: None }
}

fn assistant_msg(content: &str, timestamp: u64) -> ChatMessage {
    ChatMessage { role: Role::Assistant, content: content.to_string(), timestamp, sources: None }
}

#[test]
fn history_cap_evicts_oldest_first() {
    let mut store = SessionStore::new();
    for i in 1..=20u64 {
        store.append_message(42, user_msg(&format!("m{}", i), i));
    }
    let history = store.get_chat_history(42);
    assert_eq!(history.len(), 15);
    assert_eq!(history[0].content, "m6");
    assert_eq!(history[14].content, "m20");
    for (k, m) in history.iter().enumerate() {
        assert_eq!(m.content, format!("m{}", k + 6));
    }
}

#[test]
fn append_creates_missing_conversation() {
    let mut store = SessionStore::new();
    store.append_message(7, user_msg("hello", 1));
    let history = store.get_chat_history(7);
    assert_eq!(history.len(), 1);
    assert_eq!(history[0].content, "hello");
    assert_eq!(history[0].timestamp, 1);
}

#[test]
fn missing_history_is_empty_not_error() {
    let store = SessionStore::new();
    assert!(store.get_chat_history(123).is_empty());
}

#[test]
fn create_new_chat_seeds_greeting_and_activates() {
    let mut store = SessionStore::new();
    let id = store.create_new_chat();
    assert_eq!(store.active_id, Some(id));
    let history = store.get_chat_history(id);
    assert_eq!(history.len(), 1);
    assert!(matches!(history[0].role, Role::Assistant));
    assert_eq!(history[0].content, "Hi! I'm Mia. How can I help you today?");
}

#[test]
fn two_new_chats_get_distinct_ids() {
    let mut store = SessionStore::new();
    let a = store.create_new_chat();
    let b = store.create_new_chat();
    assert_ne!(a, b);
    assert_eq!(store.get_all_chats().len(), 2);
}

#[test]
fn switch_chat_rejects_unknown_id() {
    let mut store = SessionStore::new();
    let id = store.create_new_chat();
    let err = store.switch_chat(9999).unwrap_err();
    assert_eq!(err, "Chat not found");
    assert_eq!(store.active_id, Some(id));
    assert!(store.switch_chat(id).is_ok());
    assert_eq!(store.active_id, Some(id));
}

#[test]
fn delete_active_never_leaves_dangling_id() {
    let mut store = SessionStore::new();
    store.append_message(1, user_msg("a", 1));
    store.append_message(2, user_msg("b", 2));
    store.switch_chat(2).unwrap();

    store.delete_chat(2).unwrap();
    assert_eq!(store.active_id, Some(1));
    assert!(store.get_chat_history(2).is_empty());

    store.switch_chat(1).unwrap();
    store.delete_chat(1).unwrap();
    assert_eq!(store.active_id, None);
    assert_eq!(store.get_all_chats().len(), 0);
}

#[test]
fn delete_inactive_keeps_active() {
    let mut store = SessionStore::new();
    store.append_message(1, user_msg("a", 1));
    store.append_message(2, user_msg("b", 2));
    store.switch_chat(1).unwrap();
    store.delete_chat(2).unwrap();
    assert_eq!(store.active_id, Some(1));
}

#[test]
fn delete_missing_is_an_error() {
    let mut store = SessionStore::new();
    store.append_message(1, user_msg("a", 1));
    let err = store.delete_chat(99).unwrap_err();
    assert_eq!(err, "Chat not found");
    assert_eq!(store.get_all_chats().len(), 1);
    assert_eq!(store.get_chat_history(1).len(), 1);
}

#[test]
fn listing_sorted_by_descending_last_activity() {
    let mut store = SessionStore::new();
    store.append_message(10, user_msg("first", 5));
    store.append_message(20, user_msg("second", 1));
    store.append_message(30, user_msg("third", 9));
    let entries = store.get_all_chats();
    let stamps: Vec<u64> = entries.iter().map(|e| e.last_active).collect();
    assert_eq!(stamps, vec![9, 5, 1]);
    assert_eq!(entries[0].id, 30);
    assert_eq!(entries[1].id, 10);
    assert_eq!(entries[2].id, 20);
}

#[test]
fn display_name_truncates_long_first_user_message() {
    let long = "Hello there, how are you doing today?";
    assert!(long.chars().count() > 25);
    let name = display_name(&vec![user_msg(long, 1)]);
    let expected: String = long.chars().take(25).collect::<String>() + "...";
    assert_eq!(name, expected);
    assert_eq!(name.chars().count(), 28);
}

#[test]
fn display_name_keeps_short_message() {
    let name = display_name(&vec![user_msg("Hi", 1)]);
    assert_eq!(name, "Hi");
}

#[test]
fn display_name_prefers_first_user_message() {
    let msgs = vec![assistant_msg("greeting", 1), user_msg("question", 2)];
    assert_eq!(display_name(&msgs), "question");
}

#[test]
fn display_name_falls_back_to_first_message() {
    let msgs = vec![assistant_msg("only assistant", 1)];
    assert_eq!(display_name(&msgs), "only assistant");
}

#[test]
fn display_name_of_empty_history() {
    assert_eq!(display_name(&Vec::new()), "New conversation");
}

#[test]
fn listing_handles_empty_conversation() {
    let store = SessionStore {
        convs: vec![Conversation { id: 5, messages: Vec::new() }],
        active_id: None,
        current_mode: MiaMode::Auto,
    };
    let entries = store.get_all_chats();
    assert_eq!(entries.len(), 1);
    assert_eq!(entries[0].name, "New conversation");
    assert_eq!(entries[0].last_active, 0);
}

#[test]
fn set_mode_changes_only_the_mode() {
    let mut store = SessionStore::new();
    store.append_message(1, user_msg("a", 1));
    store.set_mia_mode(MiaMode::Search);
    assert!(matches!(store.current_mode, MiaMode::Search));
    assert_eq!(store.get_all_chats().len(), 1);
}

#[test]
fn asking_needs_an_active_chat() {
    let mut store = SessionStore::new();
    assert_eq!(store.active_chat().unwrap_err(), "No active chat!");
    let id = store.create_new_chat();
    assert_eq!(store.active_chat().unwrap(), id);
}

#[test]
fn listing_ties_keep_registry_order() {
    let mut store = SessionStore::new();
    store.append_message(10, user_msg("a", 5));
    store.append_message(20, user_msg("b", 5));
    store.append_message(30, user_msg("c", 7));
    let entries = store.get_all_chats();
    let ids: Vec<u128> = entries.iter().map(|e| e.id).collect();
    assert_eq!(ids, vec![30, 10, 20]);
}
