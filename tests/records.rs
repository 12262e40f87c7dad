use samvada::config::{get_api_key, get_env_file_path, key_from_env_file, load_config, ConfigError};
use samvada::record::{conversation_record, get_frontmatter_from_config, response_record, ResponseMetadata};
use samvada::config::AppConfig;

fn meta(tokens: i64) -> ResponseMetadata {
    ResponseMetadata {
        model: "gpt-x".to_string(),
        id: "abc123".to_string(),
        created_formatted: "2024-01-01 10:00:00 +00:00".to_string(),
        total_tokens: tokens,
    }
}

#[test]
fn metadata_lines() {
    assert_eq!(
        meta(42).metadata_text(),
        "<!-- model: gpt-x -->\n<!-- id: abc123 -->\n<!-- created: 2024-01-01 10:00:00 +00:00 -->\n<!-- total_tokens: 42 -->\n"
    );
    assert!(meta(-7).metadata_text().ends_with("<!-- total_tokens: -7 -->\n"));
    assert!(meta(i64::MIN).metadata_text().ends_with("<!-- total_tokens: -9223372036854775808 -->\n"));
    assert!(meta(0).metadata_text().ends_with("<!-- total_tokens: 0 -->\n"));
}

#[test]
fn record_after_document_question() {
    let r = response_record(None, "The answer.", &meta(5));
    assert_eq!(
        r,
        "assistant:\nThe answer.\n\n<!-- model: gpt-x -->\n<!-- id: abc123 -->\n<!-- created: 2024-01-01 10:00:00 +00:00 -->\n<!-- total_tokens: 5 -->\n\nuser:\n"
    );
}

#[test]
fn record_after_quick_question() {
    let r = response_record(Some("Why?"), "Because.", &meta(5));
    assert!(r.starts_with("\nuser:\nWhy?\n\nassistant:\nBecause.\n\n<!-- model: gpt-x -->\n"));
    assert!(r.ends_with("<!-- total_tokens: 5 -->\n"));
}

#[test]
fn conversation_text() {
    assert_eq!(
        conversation_record("Q", "A", "id9", 1234),
        "\nuser:\nQ\n\nassistant:\nA\n\n<!-- id: id9 -->\n<!-- total_tokens: 1234 -->\n"
    );
}

#[test]
fn new_document_frontmatter() {
    let cfg = AppConfig {
        system_prompt: "sys".to_string(),
        model: "gpt-x".to_string(),
        api_endpoint: "https://e".to_string(),
    };
    assert_eq!(
        get_frontmatter_from_config("Notes", "T1", "T2", &cfg),
        "---\ntitle: Notes\nsystem: sys\nmodel: gpt-x\napi_endpoint: https://e\ncreated_at: T1\nupdated_at: T2\ntags: []\nsummary: \n---"
    );
}

#[test]
fn config_needs_every_key() {
    let ok = load_config(Some("s".into()), Some("m".into()), Some("e".into()));
    match ok {
        Ok(c) => assert_eq!((c.system_prompt, c.model, c.api_endpoint), ("s".into(), "m".into(), "e".into())),
        Err(_) => panic!("expected a configuration"),
    }
    match load_config(Some("s".into()), None, None) {
        Err(ConfigError::MissingField(k)) => assert_eq!(k, "model"),
        Ok(_) => panic!("expected an error"),
    }
    match load_config(None, Some("m".into()), Some("e".into())) {
        Err(ConfigError::MissingField(k)) => assert_eq!(k, "system_prompt"),
        Ok(_) => panic!("expected an error"),
    }
    match load_config(Some("s".into()), Some("m".into()), None) {
        Err(ConfigError::MissingField(k)) => assert_eq!(k, "api_endpoint"),
        Ok(_) => panic!("expected an error"),
    }
}

#[test]
fn env_file_location() {
    assert_eq!(get_env_file_path(true, "/home/u/.samvada"), ".env");
    assert_eq!(get_env_file_path(false, "/home/u/.samvada"), "/home/u/.samvada/.env");
    assert_eq!(get_env_file_path(false, "/cfg/"), "/cfg/.env");
}

#[test]
fn env_file_key_reading() {
    assert_eq!(key_from_env_file("A=1\nOPENAI_API_KEY= sk-1 \nOPENAI_API_KEY=sk-2\n"), Some("sk-1".to_string()));
    assert_eq!(key_from_env_file("OPENAI_API_KEY=a=b"), Some("a=b".to_string()));
    assert_eq!(key_from_env_file("OPENAI_API_KEY=\nOPENAI_API_KEY=sk-2\n"), None);
    assert_eq!(key_from_env_file(" OPENAI_API_KEY=x"), None);
    assert_eq!(key_from_env_file(""), None);
}

#[test]
fn api_key_precedence() {
    let file = Some("OPENAI_API_KEY=from-file\n".to_string());
    let var = Some("from-env".to_string());
    assert_eq!(get_api_key(Some("cli".into()), file.clone(), var.clone()), Some("cli".to_string()));
    assert_eq!(get_api_key(None, file.clone(), var.clone()), Some("from-file".to_string()));
    assert_eq!(get_api_key(None, Some("OTHER=1".into()), var.clone()), Some("from-env".to_string()));
    assert_eq!(get_api_key(None, None, None), None);
}
