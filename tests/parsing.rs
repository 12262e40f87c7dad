use samvada::document::{parse_document, reference_paths, ParseError};
use samvada::messages::Role;
use samvada::paths::resolve_referenced_path;
use samvada::template::{render_frontmatter, template_keys};

fn turns_of(text: &str, reads: &Vec<Option<String>>) -> Vec<(Role, String)> {
    match parse_document(text, reads) {
        Ok(doc) => doc.turns.iter().map(|t| (t.role, t.content.clone())).collect(),
        Err(_) => panic!("parse failed"),
    }
}

#[test]
fn scenario_frontmatter_and_one_turn() {
    let text = "---\nsystem: be terse\nmodel: gpt-x\n---\nuser:\nhi\n";
    let doc = match parse_document(text, &vec![]) {
        Ok(d) => d,
        Err(_) => panic!("parse failed"),
    };
    assert_eq!(doc.frontmatter.len(), 2);
    assert_eq!(doc.frontmatter.get("system"), Some("be terse".to_string()));
    assert_eq!(doc.frontmatter.get("model"), Some("gpt-x".to_string()));
    assert_eq!(doc.turns.len(), 1);
    assert_eq!(doc.turns[0].role, Role::User);
    assert_eq!(doc.turns[0].content, "hi");
}

#[test]
fn assistant_metadata_comment_is_dropped_but_open_comment_kept() {
    let text = "---\nmodel: m\n---\nuser:\nq\nassistant:\nanswer\n<!-- id: abc123 -->\n<!-- note\nuser:\n";
    let turns = turns_of(text, &vec![]);
    assert_eq!(turns.len(), 3);
    assert_eq!(turns[1], (Role::Assistant, "answer\n<!-- note".to_string()));
    assert_eq!(turns[2], (Role::User, String::new()));
}

#[test]
fn continuation_lines_join_with_newlines() {
    let text = "---\nsystem: line one\n  line two\nline three\nmodel: m\n---\n";
    let doc = match parse_document(text, &vec![]) {
        Ok(d) => d,
        Err(_) => panic!("parse failed"),
    };
    let v = doc.frontmatter.get("system").unwrap();
    assert_eq!(v, "line one\nline two\nline three");
    assert_eq!(v.matches('\n').count(), 2);
    assert_eq!(doc.frontmatter.get("model"), Some("m".to_string()));
}

#[test]
fn later_field_overrides_earlier_and_empty_value_is_kept() {
    let text = "---\nmodel: a\ntitle:\nmodel: b\n---\n";
    let doc = match parse_document(text, &vec![]) {
        Ok(d) => d,
        Err(_) => panic!("parse failed"),
    };
    assert_eq!(doc.frontmatter.len(), 2);
    assert_eq!(doc.frontmatter.get("model"), Some("b".to_string()));
    assert_eq!(doc.frontmatter.get("title"), Some(String::new()));
    assert_eq!(doc.frontmatter.get("tags"), None);
    assert_eq!(doc.setting("model", "default"), "b");
    assert_eq!(doc.setting("api_endpoint", "https://x"), "https://x");
}

#[test]
fn unclosed_frontmatter_consumes_everything() {
    let text = "---\nmodel: m\nuser:\nhi\n";
    let doc = match parse_document(text, &vec![]) {
        Ok(d) => d,
        Err(_) => panic!("parse failed"),
    };
    assert_eq!(doc.turns.len(), 0);
    assert_eq!(doc.frontmatter.get("user"), Some("hi".to_string()));
}

#[test]
fn turns_trim_and_keep_inner_lines() {
    let text = "---\n---\nuser: first words  \n  more  \n\n<c> a note\nassistant:\n reply \nuser:\nnext\n";
    let turns = turns_of(text, &vec![]);
    assert_eq!(
        turns,
        vec![
            (Role::User, "first words\nmore".to_string()),
            (Role::Assistant, "reply".to_string()),
            (Role::User, "next".to_string()),
        ]
    );
}

#[test]
fn indented_role_line_is_not_a_turn_start() {
    let text = "---\n---\nuser:\na\n  assistant: b\n";
    let turns = turns_of(text, &vec![]);
    assert_eq!(turns, vec![(Role::User, "a\nassistant: b".to_string())]);
}

#[test]
fn file_reference_is_expanded() {
    let text = "---\n---\nuser:\nsee\n[[notes.md]]\n";
    let reads = vec![Some("NOTES".to_string())];
    let turns = turns_of(text, &reads);
    assert_eq!(turns, vec![(Role::User, "see\n\n[[notes.md]]\n\nNOTES".to_string())]);
}

#[test]
fn unreadable_file_reference_fails_the_parse() {
    let text = "---\n---\nuser:\n[[a.md]]\n[[b.md]]\n";
    let reads = vec![Some("A".to_string()), None];
    match parse_document(text, &reads) {
        Err(ParseError::FileReadFailed(p)) => assert_eq!(p, "b.md"),
        Ok(_) => panic!("expected a failure"),
    }
}

#[test]
fn reference_paths_are_resolved_in_order() {
    let text = "---\n---\nuser:\n[[a.md]]\n[[/abs/b.md]]\nassistant:\n[[c.md]]\nuser:\n[[my\\ file.md]]\n";
    let paths = reference_paths(text, "docs/chat.md");
    assert_eq!(
        paths,
        vec!["docs/a.md".to_string(), "/abs/b.md".to_string(), "docs/my file.md".to_string()]
    );
}

#[test]
fn resolve_relative_absolute_and_bare() {
    assert_eq!(resolve_referenced_path("x.md", "/home/u/chat.md"), "/home/u/x.md");
    assert_eq!(resolve_referenced_path("/etc/x.md", "/home/u/chat.md"), "/etc/x.md");
    assert_eq!(resolve_referenced_path("x.md", "chat.md"), "x.md");
    assert_eq!(resolve_referenced_path("a\\ b.md", "d/c.md"), "d/a b.md");
    assert_eq!(resolve_referenced_path("x", "/"), "x");
    assert_eq!(resolve_referenced_path("x", "d/"), "x");
    assert_eq!(resolve_referenced_path("x", "/a/"), "/x");
    assert_eq!(resolve_referenced_path("x", "/a"), "/x");
}

#[test]
fn api_messages_start_with_system() {
    let text = "---\nsystem: be brief\n---\nuser:\nq\nassistant:\na\nuser:\nq2\n";
    let doc = match parse_document(text, &vec![]) {
        Ok(d) => d,
        Err(_) => panic!("parse failed"),
    };
    let msgs = doc.api_messages();
    let want: Vec<(String, String)> = vec![
        ("system".into(), "be brief".into()),
        ("user".into(), "q".into()),
        ("assistant".into(), "a".into()),
        ("user".into(), "q2".into()),
    ];
    assert_eq!(msgs, want);
}

#[test]
fn api_messages_without_system_prompt() {
    let doc = match parse_document("---\n---\nuser:\nq\n", &vec![]) {
        Ok(d) => d,
        Err(_) => panic!("parse failed"),
    };
    let msgs = doc.api_messages();
    assert_eq!(msgs[0], ("system".to_string(), String::new()));
}

#[test]
fn template_round_trip() {
    let values: Vec<String> = vec![
        "My chat", "be terse", "gpt-x", "https://api.example/v1", "2024-01-01T00:00:00+00:00",
        "2024-01-01T00:00:00+00:00", "[]", "",
    ]
    .into_iter()
    .map(String::from)
    .collect();
    let block = render_frontmatter(&values);
    assert_eq!(
        block,
        "---\ntitle: My chat\nsystem: be terse\nmodel: gpt-x\napi_endpoint: https://api.example/v1\ncreated_at: 2024-01-01T00:00:00+00:00\nupdated_at: 2024-01-01T00:00:00+00:00\ntags: []\nsummary: \n---"
    );
    let doc = match parse_document(&block, &vec![]) {
        Ok(d) => d,
        Err(_) => panic!("parse failed"),
    };
    let found: Vec<String> = template_keys()
        .iter()
        .map(|k| doc.frontmatter.get(k).unwrap())
        .collect();
    assert_eq!(found, values);
    assert_eq!(render_frontmatter(&found), block);
}

#[test]
fn expansion_text_of_one_reference() {
    assert_eq!(
        samvada::messages::expand_reference("[[a b.md]]", Some("TEXT")),
        Ok("\n\n[[a b.md]]\n\nTEXT\n\n".to_string())
    );
    assert_eq!(
        samvada::messages::expand_reference("[[gone.md]]", None),
        Err("\n\nFailed to read file: gone.md\n\n".to_string())
    );
}

#[test]
fn reference_with_line_break_is_not_a_reference() {
    let with_break: Vec<char> = "[[a\nb]]".chars().collect();
    let plain: Vec<char> = "[[a b]]".chars().collect();
    assert!(!samvada::messages::is_file_reference(&with_break));
    assert!(samvada::messages::is_file_reference(&plain));
}

#[test]
fn continued_field_between_other_fields() {
    let text = "---\ntitle: t\nsystem: one\ntwo\n\nthree\nmodel: m\n---\n";
    let doc = match parse_document(text, &vec![]) {
        Ok(d) => d,
        Err(_) => panic!("parse failed"),
    };
    assert_eq!(doc.frontmatter.get("system"), Some("one\ntwo\n\nthree".to_string()));
    assert_eq!(doc.frontmatter.get("title"), Some("t".to_string()));
    assert_eq!(doc.frontmatter.get("model"), Some("m".to_string()));
}
