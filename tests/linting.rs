use samvada::messages::Role;
use samvada::lint::{
    is_first_entry_user, is_last_entry_user, lint_reference_paths, validate_alternating_entries,
    combine_results, region_reference_paths, validate_chat_content, validate_file_references, validate_chat_file, Diagnostic, LintError,
};

const HEAD: &str = "---\ntitle: t\nsystem: s\nmodel: m\napi_endpoint: e\ncreated_at: c\nupdated_at: u\ntags: []\nsummary: x\n---\n";

fn doc(body: &str) -> String {
    format!("{}{}", HEAD, body)
}

fn messages(errors: &[LintError]) -> Vec<String> {
    errors.iter().map(|e| e.message()).collect()
}

#[test]
fn alternating_document_is_valid() {
    let c = doc("user:\nq\nassistant:\na\nuser:\n");
    assert!(validate_chat_content(&c, &vec![]).is_empty());
    assert!(validate_chat_file("chat.md", &c, &vec![]).is_ok());
}

#[test]
fn two_user_turns_fail_alternation_naming_the_line() {
    let c = doc("user:\nq\nuser:\nq2\n");
    let errs = validate_chat_content(&c, &vec![]);
    assert_eq!(errs.len(), 1);
    assert!(matches!(errs[0], LintError::NotAlternating(13)));
    assert_eq!(
        errs[0].message(),
        "Chat structure error: Entries must alternate between 'user:' and 'assistant:' (line 13)."
    );
}

#[test]
fn missing_reference_is_reported_alone() {
    let c = doc("user:\n[[missing.md]]\nassistant:\nok\nuser:\n");
    let paths = lint_reference_paths(&c, "dir/chat.md");
    assert_eq!(paths, vec!["dir/missing.md".to_string()]);
    let errs = validate_chat_content(&c, &vec![false]);
    assert_eq!(messages(&errs), vec!["File reference error: 'missing.md' not found.".to_string()]);
}

#[test]
fn every_missing_reference_is_listed() {
    let c = doc("user:\n[[a.md]] and [[b.md]]\nassistant:\n[[c.md]]\nuser: [[d.md]]\n");
    let paths = lint_reference_paths(&c, "chat.md");
    assert_eq!(paths, vec!["a.md".to_string(), "b.md".to_string(), "d.md".to_string()]);
    let errs = validate_chat_content(&c, &vec![false, true, false]);
    assert_eq!(
        messages(&errs),
        vec![
            "File reference error: 'a.md' not found.".to_string(),
            "File reference error: 'd.md' not found.".to_string(),
        ]
    );
}

#[test]
fn ending_with_assistant_fails_last_turn_rule() {
    let c = doc("user:\nq\nassistant:\n...\n");
    let errs = validate_chat_content(&c, &vec![]);
    assert!(matches!(errs[..], [LintError::LastNotUser]));
    assert_eq!(errs[0].message(), "Chat structure error: Last entry must start with 'user:'.");
}

#[test]
fn missing_keys_are_all_reported() {
    let c = "---\ntitle: t\nsystem: s\n---\nuser:\n";
    let errs = validate_chat_content(c, &vec![]);
    let want: Vec<String> = ["model", "api_endpoint", "created_at", "updated_at", "tags", "summary"]
        .iter()
        .map(|k| format!("Frontmatter error: '{}' is missing or has incorrect format.", k))
        .collect();
    assert_eq!(messages(&errs), want);
}

#[test]
fn key_without_value_at_end_is_missing() {
    let c = format!("{}user:\nsummary:", HEAD.replace("summary: x\n", ""));
    let errs = validate_chat_content(&c, &vec![]);
    assert_eq!(
        messages(&errs),
        vec!["Frontmatter error: 'summary' is missing or has incorrect format.".to_string()]
    );
}

#[test]
fn no_delimiter_is_reported() {
    let c = "title: t\nsystem: s\nmodel: m\napi_endpoint: e\ncreated_at: c\nupdated_at: u\ntags: []\nsummary: x\nuser:\n";
    let errs = validate_chat_content(c, &vec![]);
    assert!(matches!(errs[..], [LintError::NoFrontmatterEnd]));
    assert_eq!(errs[0].message(), "Missing frontmatter end delimiter '---'.");
}

#[test]
fn empty_body_is_reported() {
    let errs = validate_chat_content(&doc("  \n\n"), &vec![]);
    assert!(matches!(errs[..], [LintError::EmptyBody]));
    assert_eq!(errs[0].message(), "Chat structure error: No content after frontmatter.");
}

#[test]
fn first_turn_must_be_user() {
    let errs = validate_chat_content(&doc("assistant:\nhi\nuser:\n"), &vec![]);
    assert!(matches!(errs[..], [LintError::FirstNotUser]));
    assert_eq!(
        errs[0].message(),
        "Chat structure error: First entry after frontmatter must start with 'user:'."
    );
}

#[test]
fn validating_twice_gives_the_same_findings() {
    let c = doc("user:\n[[x.md]]\nuser:\n");
    let a = validate_chat_file("f.md", &c, &vec![false]);
    let b = validate_chat_file("f.md", &c, &vec![false]);
    let ma: Vec<(String, String)> = a.unwrap_err().iter().map(|d| (d.file_path.clone(), d.error.message())).collect();
    let mb: Vec<(String, String)> = b.unwrap_err().iter().map(|d| (d.file_path.clone(), d.error.message())).collect();
    assert_eq!(ma, mb);
    assert_eq!(ma.len(), 1);
    assert_eq!(ma[0].0, "f.md");
}

#[test]
fn entry_checks_on_chat_region() {
    let region = "\n\nuser: hello\n  text\nassistant:\nreply\nuser:\n";
    assert!(is_first_entry_user(region));
    assert!(validate_alternating_entries(region));
    assert!(is_last_entry_user(region));
    assert!(!is_first_entry_user("\nnote\nuser:\n"));
    assert!(!validate_alternating_entries("user:\nassistant:\nassistant:\n"));
    assert!(!is_last_entry_user("user:\nassistant:\nok\n"));
    assert!(!is_first_entry_user(""));
    assert!(is_first_entry_user("  user:"));
    assert!(is_last_entry_user("  user:"));
    assert!(validate_alternating_entries("  user:"));
}

#[test]
fn accepted_document_turns_alternate() {
    let c = doc("user:\nq\nassistant:\na\n<!-- id: 1 -->\nuser:\nq2\nassistant:\nb\nuser:\n");
    assert!(validate_chat_content(&c, &vec![]).is_empty());
    let parsed = samvada::document::parse_document(&c, &vec![]);
    let roles: Vec<Role> = match parsed {
        Ok(d) => d.turns.iter().map(|t| t.role).collect(),
        Err(_) => panic!("parse failed"),
    };
    assert_eq!(roles, vec![Role::User, Role::Assistant, Role::User, Role::Assistant, Role::User]);
    for w in roles.windows(2) {
        assert_ne!(w[0], w[1]);
    }
}

#[test]
fn indented_role_lines_are_turn_starts_for_the_checks() {
    let c = doc("user:\nq\n  assistant: a\nuser:\n");
    assert!(validate_chat_content(&c, &vec![]).is_empty());
    let c = doc("user:\n  assistant:\nassistant:\nuser:\n");
    let errs = validate_chat_content(&c, &vec![]);
    assert!(matches!(errs[..], [LintError::NotAlternating(13)]));
}

#[test]
fn key_without_value_on_its_line_is_missing() {
    let c = HEAD.replace("title: t\n", "title:\nsome text\n") + "user:\n";
    let errs = validate_chat_content(&c, &vec![]);
    assert_eq!(
        messages(&errs),
        vec!["Frontmatter error: 'title' is missing or has incorrect format.".to_string()]
    );
    let fresh = HEAD.replace("summary: x\n", "summary: \n") + "user:\n";
    let errs = validate_chat_content(&fresh, &vec![]);
    assert_eq!(
        messages(&errs),
        vec!["Frontmatter error: 'summary' is missing or has incorrect format.".to_string()]
    );
}

#[test]
fn directory_results_are_combined_in_order() {
    let bad = doc("user:\nq\nuser:\n");
    let good = doc("user:\n");
    let results = vec![
        validate_chat_file("a.md", &bad, &vec![]),
        validate_chat_file("b.md", &good, &vec![]),
        Err(vec![Diagnostic { file_path: "c.md".to_string(), error: LintError::Unreadable("denied".to_string()) }]),
    ];
    let ds = combine_results(results).unwrap_err();
    let got: Vec<(String, String)> = ds.iter().map(|d| (d.file_path.clone(), d.error.message())).collect();
    assert_eq!(got.len(), 2);
    assert_eq!(got[0].0, "a.md");
    assert_eq!(got[1], ("c.md".to_string(), "Failed to read the file: denied".to_string()));
    assert!(combine_results(vec![validate_chat_file("b.md", &good, &vec![])]).is_ok());
    assert!(combine_results(vec![]).is_ok());
}

#[test]
fn reference_check_on_a_chat_region() {
    let region = "\nuser:\n[[missing.md]]\n";
    assert_eq!(region_reference_paths(region, "/docs/chat.md"), vec!["/docs/missing.md".to_string()]);
    let errs = validate_file_references(region, &vec![false]);
    assert_eq!(messages(&errs), vec!["File reference error: 'missing.md' not found.".to_string()]);
    assert!(validate_file_references(region, &vec![true]).is_empty());
    let two = "user:\n[[a.md]]\n[[b.md]]\n[[c.md]]\n";
    assert_eq!(
        messages(&validate_file_references(two, &vec![false, true, false])),
        vec![
            "File reference error: 'a.md' not found.".to_string(),
            "File reference error: 'c.md' not found.".to_string(),
        ]
    );
}
