use samvada::greeting::{generate_goodbyes, generate_greetings, goodbye_for, greeting_for, validate_date_format};

fn names(v: &[&str]) -> Vec<String> {
    v.iter().map(|s| s.to_string()).collect()
}

#[test]
fn greets_the_world_without_names() {
    assert_eq!(generate_greetings(&vec![], false, None), vec!["Hello, world!".to_string()]);
    assert_eq!(generate_goodbyes(&vec![], true, Some("x"), None), vec!["Goodbye, world!".to_string()]);
}

#[test]
fn greets_each_name_with_surname_in_capitals() {
    assert_eq!(
        generate_greetings(&names(&["ann", "bo"]), true, Some("lee")),
        vec!["Hello, ANN LEE!".to_string(), "Hello, BO LEE!".to_string()]
    );
    assert_eq!(generate_greetings(&names(&["ann"]), false, None), vec!["Hello, ann!".to_string()]);
}

#[test]
fn goodbye_with_date() {
    assert_eq!(
        generate_goodbyes(&names(&["ann"]), false, None, Some("2024-05-01")),
        vec!["Goodbye, ann!, see you after 2024-05-01.".to_string()]
    );
    assert_eq!(goodbye_for("X", None), "Goodbye, X!");
    assert_eq!(greeting_for("Y"), "Hello, Y!");
}

#[test]
fn date_format() {
    assert!(validate_date_format("2024-05-01"));
    assert!(!validate_date_format("2024-5-01"));
    assert!(!validate_date_format("2024/05/01"));
    assert!(!validate_date_format("2024-05-011"));
    assert!(!validate_date_format(""));
}
