use mia::codec::{decode_registry, encode_registry};
use mia::message::{ChatMessage, Role, WebSource};
use mia::session::{Conversation, SessionStore};

fn msg(role: Role, content: &str, timestamp: u64) -> ChatMessage {
    ChatMessage { role, content: content.to_string(), timestamp, sources: None }
}

fn assert_same_message(a: &ChatMessage, b: &ChatMessage) {
    assert_eq!(a.role, b.role);
    assert_eq!(a.content, b.content);
    assert_eq!(a.timestamp, b.timestamp);
    match (&a.sources, &b.sources) {
        (None, None) => {},
        (Some(x), Some(y)) => {
            assert_eq!(x.len(), y.len());
            for (s, t) in x.iter().zip(y.iter()) {
                assert_eq!(s.title, t.title);
                assert_eq!(s.url, t.url);
            }
        },
        _ => panic!("sources differ"),
    }
}

#[test]
fn empty_registry_encodes_to_empty_document() {
    let convs: Vec<Conversation> = Vec::new();
    let doc = encode_registry(&convs);
    assert_eq!(doc, "{}");
    let back = decode_registry(&doc).unwrap();
    assert!(back.is_empty());
}

#[test]
fn simple_registry_document_shape() {
    let convs = vec![Conversation { id: 7, messages: vec![msg(Role::User, "hi", 3)] }];
    let doc = encode_registry(&convs);
    assert_eq!(doc, "{\"7\":[{\"role\":\"user\",\"content\":\"hi\",\"timestamp\":3}]}");
}

#[test]
fn sources_are_persisted_when_present() {
    let sources = vec![WebSource { title: "T".to_string(), url: "https://u.example".to_string() }];
    let convs = vec![Conversation {
        id: 1,
        messages: vec![ChatMessage {
            role: Role::Assistant,
            content: "a".to_string(),
            timestamp: 9,
            sources: Some(sources),
        }],
    }];
    let doc = encode_registry(&convs);
    assert_eq!(
        doc,
        "{\"1\":[{\"role\":\"assistant\",\"content\":\"a\",\"timestamp\":9,\
         \"sources\":[{\"title\":\"T\",\"url\":\"https://u.example\"}]}]}"
    );
}

#[test]
fn round_trip_reproduces_identical_registry() {
    let sources = vec![
        WebSource { title: "Első".to_string(), url: "https://a.example/x?q=1".to_string() },
        WebSource { title: "quote \" here".to_string(), url: "//b.example".to_string() },
    ];
    let convs = vec![
        Conversation {
            id: 340282366920938463463374607431768211455, // largest possible id
            messages: vec![
                msg(Role::Assistant, "Hi! I'm Mia. How can I help you today?", 1),
                msg(Role::User, "miért élünk?", 2),
                ChatMessage {
                    role: Role::Assistant,
                    content: "line1\nline2\ttabbed \\ backslash \"quoted\" \u{1}ctrl".to_string(),
                    timestamp: u64::MAX,
                    sources: Some(sources),
                },
            ],
        },
        Conversation { id: 0, messages: Vec::new() },
        Conversation { id: 42, messages: vec![msg(Role::System, "", 0)] },
    ];
    let doc = encode_registry(&convs);
    let back = decode_registry(&doc).expect("own document must decode");
    assert_eq!(back.len(), convs.len());
    for (a, b) in convs.iter().zip(back.iter()) {
        assert_eq!(a.id, b.id);
        assert_eq!(a.messages.len(), b.messages.len());
        for (x, y) in a.messages.iter().zip(b.messages.iter()) {
            assert_same_message(x, y);
        }
    }
}

#[test]
fn decoder_defaults_missing_optional_fields() {
    let doc = "{\"5\":[{\"role\":\"user\",\"content\":\"hi\"}]}";
    let back = decode_registry(doc).unwrap();
    assert_eq!(back.len(), 1);
    assert_eq!(back[0].id, 5);
    assert_eq!(back[0].messages[0].timestamp, 0);
    assert!(back[0].messages[0].sources.is_none());
}

#[test]
fn decoder_rejects_malformed_documents() {
    assert!(decode_registry("").is_none());
    assert!(decode_registry("[]").is_none());
    assert!(decode_registry("{").is_none());
    assert!(decode_registry("{}extra").is_none());
    assert!(decode_registry("{\"1\":[]").is_none());
    assert!(decode_registry("{\"x\":[]}").is_none());
    assert!(decode_registry("{\"1\":[{\"role\":\"robot\",\"content\":\"hi\"}]}").is_none());
    assert!(decode_registry("{\"1\":[{\"content\":\"hi\"}]}").is_none());
}

#[test]
fn decoder_rejects_oversized_numbers() {
    // one above the largest possible id
    assert!(decode_registry("{\"340282366920938463463374607431768211456\":[]}").is_none());
    // timestamp above the 64-bit range
    assert!(
        decode_registry(
            "{\"1\":[{\"role\":\"user\",\"content\":\"a\",\"timestamp\":18446744073709551616}]}"
        )
        .is_none()
    );
}

#[test]
fn restore_round_trips_through_the_store() {
    let mut store = SessionStore::new();
    store.append_message(3, msg(Role::User, "hello", 11));
    store.append_message(4, msg(Role::User, "world", 12));
    let doc = encode_registry(&store.convs);
    let restored = SessionStore::restore(&doc);
    assert_eq!(restored.convs.len(), 2);
    assert_eq!(restored.active_id, None);
    assert_eq!(restored.get_chat_history(3)[0].content, "hello");
    assert_eq!(restored.get_chat_history(4)[0].content, "world");
}

#[test]
fn restore_of_bad_document_is_empty() {
    let restored = SessionStore::restore("not a document");
    assert!(restored.convs.is_empty());
    assert_eq!(restored.active_id, None);
}

#[test]
fn restore_rejects_duplicate_ids() {
    let restored = SessionStore::restore("{\"1\":[],\"1\":[]}");
    assert!(restored.convs.is_empty());
}
