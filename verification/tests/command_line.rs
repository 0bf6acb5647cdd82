use safe::command::{parse_command, Command, UsageError, FAILURE, SUCCESS};

fn args(words: &[&str]) -> Vec<String> {
    words.iter().map(|w| w.to_string()).collect()
}

fn search(pattern: &str) -> Result<Command, UsageError> {
    Ok(Command::Search { pattern: pattern.to_string() })
}

#[test]
fn no_arguments_is_a_search_for_everything() {
    assert_eq!(parse_command(&args(&[])), search(""));
}

#[test]
fn search_takes_the_next_argument() {
    assert_eq!(parse_command(&args(&["search"])), search(""));
    assert_eq!(parse_command(&args(&["search", "git"])), search("git"));
    assert_eq!(parse_command(&args(&["search", "git", "more"])), search("git"));
    assert_eq!(parse_command(&args(&["search", "add"])), search("add"));
}

#[test]
fn any_other_word_is_the_pattern() {
    assert_eq!(parse_command(&args(&["git"])), search("git"));
    assert_eq!(parse_command(&args(&["git", "hub"])), search("git"));
    assert_eq!(parse_command(&args(&["Search", "x"])), search("Search"));
    assert_eq!(parse_command(&args(&["", "x"])), search(""));
}

#[test]
fn add_takes_key_and_password() {
    assert_eq!(
        parse_command(&args(&["add", "site", "pw123"])),
        Ok(Command::Add { key: "site".to_string(), password: "pw123".to_string() })
    );
    assert_eq!(
        parse_command(&args(&["add", " ", ";", "ignored"])),
        Ok(Command::Add { key: " ".to_string(), password: ";".to_string() })
    );
}

#[test]
fn add_refuses_an_empty_key() {
    assert_eq!(parse_command(&args(&["add"])), Err(UsageError::EmptyKey));
    assert_eq!(parse_command(&args(&["add", ""])), Err(UsageError::EmptyKey));
    assert_eq!(parse_command(&args(&["add", "", "pw"])), Err(UsageError::EmptyKey));
    assert_eq!(parse_command(&args(&["add", "", ""])), Err(UsageError::EmptyKey));
}

#[test]
fn add_refuses_an_empty_password() {
    assert_eq!(parse_command(&args(&["add", "site"])), Err(UsageError::EmptyPassword));
    assert_eq!(parse_command(&args(&["add", "site", ""])), Err(UsageError::EmptyPassword));
}

#[test]
fn exit_statuses() {
    assert_eq!(SUCCESS, 0);
    assert_eq!(FAILURE, 1);
}
