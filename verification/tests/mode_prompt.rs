use mia::message::{ChatMessage, Role};
use mia::mode::get_settings_for_mode;
use mia::prompt::build_prompt;
use mia::upload::{classify_extension, unsupported_message, wrap_document, UploadKind};
use mia::{AppSettings, MiaMode};

const PHILOSOPHY_INSTRUCTION: &str = "You are Mia, in Philosopher Mode. Provide deep existential insights. Use poetic, serious language and challenge the user's perspective.";
const BASIC_INSTRUCTION: &str = "You are Mia, a cute and smart AI assistant. Your goal is to be helpful and kind. Use a friendly tone and emojis.";
const SEARCH_INSTRUCTION: &str = "You are Mia, a Fact-Checking Assistant. Answer using the provided web context accurately. DO NOT include URLs or links in your response text. Provide ONLY the information. The sources will be displayed as separate buttons by the system.";

#[test]
fn automatic_mode_reclassifies_reflective_keyword() {
    let (instruction, temp) = get_settings_for_mode("miért élünk?", &MiaMode::Auto);
    assert_eq!(instruction, PHILOSOPHY_INSTRUCTION);
    assert_eq!(temp, 125);
}

#[test]
fn automatic_mode_stays_casual_without_keyword() {
    let (instruction, temp) = get_settings_for_mode("what's 2+2", &MiaMode::Auto);
    assert_eq!(instruction, BASIC_INSTRUCTION);
    assert_eq!(temp, 75);
}

#[test]
fn keyword_match_is_case_insensitive() {
    let (instruction, _) = get_settings_for_mode("MIÉRT is?", &MiaMode::Auto);
    assert_eq!(instruction, PHILOSOPHY_INSTRUCTION);
}

#[test]
fn resolution_is_pure_and_repeatable() {
    let a = get_settings_for_mode("miért élünk?", &MiaMode::Auto);
    let b = get_settings_for_mode("miért élünk?", &MiaMode::Auto);
    assert_eq!(a.0, b.0);
    assert_eq!(a.1, b.1);
}

#[test]
fn search_mode_is_low_temperature() {
    let (instruction, temp) = get_settings_for_mode("anything", &MiaMode::Search);
    assert_eq!(instruction, SEARCH_INSTRUCTION);
    assert_eq!(temp, 30);
}

#[test]
fn explicit_basic_mode_ignores_keywords() {
    let (instruction, temp) = get_settings_for_mode("miért", &MiaMode::Basic);
    assert_eq!(instruction, BASIC_INSTRUCTION);
    assert_eq!(temp, 75);
}

#[test]
fn prompt_renders_role_tagged_blocks() {
    let history = vec![
        ChatMessage { role: Role::User, content: "hi".to_string(), timestamp: 1, sources: None },
        ChatMessage {
            role: Role::Assistant,
            content: "hello".to_string(),
            timestamp: 2,
            sources: None,
        },
    ];
    let p = build_prompt("SYS", "CTX", &history);
    let expected = "<|im_start|>system\nSYSCTX<|im_end|>\n\
                    <|im_start|>user\nhi<|im_end|>\n\
                    <|im_start|>assistant\nhello<|im_end|>\n\
                    <|im_start|>assistant\n";
    assert_eq!(p, expected);
}

#[test]
fn prompt_of_empty_history() {
    let p = build_prompt("S", "", &Vec::new());
    assert_eq!(p, "<|im_start|>system\nS<|im_end|>\n<|im_start|>assistant\n");
}

#[test]
fn default_settings_values() {
    let s = AppSettings::default();
    assert_eq!(s.games, vec!["cs2.exe".to_string(), "valorant.exe".to_string()]);
    assert_eq!(s.searxng_url, "https://searx.example.com");
    assert!(s.launch_on_startup);
}

#[test]
fn extension_classification() {
    assert!(matches!(classify_extension("txt"), UploadKind::PlainText));
    assert!(matches!(classify_extension("json"), UploadKind::PlainText));
    assert!(matches!(classify_extension("pdf"), UploadKind::Pdf));
    assert!(matches!(classify_extension("docx"), UploadKind::Docx));
    assert!(matches!(classify_extension("exe"), UploadKind::Unsupported));
    assert!(matches!(classify_extension(""), UploadKind::Unsupported));
}

#[test]
fn wrapped_document_frames_content() {
    let framed = wrap_document("notes.txt", "body text");
    assert_eq!(framed, "\n[DOKUMENTUM: notes.txt]\nbody text\n[DOKUMENTUM VÉGE]");
}

#[test]
fn unsupported_extension_message() {
    let m = unsupported_message("exe");
    assert_eq!(m, "A(z) .exe formátumot még nem tanítottad meg nekem!");
}
