use task_list::command::{description, exit_code, parse_args, Command, Failure, Outcome, Request};

fn words(items: &[&str]) -> Vec<String> {
    items.iter().map(|s| s.to_string()).collect()
}

#[test]
fn names_are_read_exactly() {
    assert_eq!(Command::from_name("add"), Some(Command::Add));
    assert_eq!(Command::from_name("init"), Some(Command::Init));
    assert_eq!(Command::from_name("list"), Some(Command::List));
    assert_eq!(Command::from_name("sort"), Some(Command::Sort));
    assert_eq!(Command::from_name("remove"), Some(Command::Remove));
    assert_eq!(Command::from_name("Add"), None);
    assert_eq!(Command::from_name("ad"), None);
    assert_eq!(Command::from_name("adds"), None);
    assert_eq!(Command::from_name(""), None);
    assert_eq!(Command::from_name("delete"), None);
}

#[test]
fn names_are_given_back() {
    assert_eq!(Command::Add.name(), "add");
    assert_eq!(Command::Init.name(), "init");
    assert_eq!(Command::List.name(), "list");
    assert_eq!(Command::Sort.name(), "sort");
    assert_eq!(Command::Remove.name(), "remove");
    for command in [Command::Add, Command::Init, Command::List, Command::Sort, Command::Remove] {
        assert_eq!(Command::from_name(command.name()), Some(command));
    }
}

#[test]
fn only_an_unknown_command_is_a_failure() {
    assert_eq!(Request::Help.failure(), None);
    assert_eq!(Request::Unknown.failure(), Some(Failure::InvalidCommand));
    assert_eq!(Request::Run(Command::List, Vec::new()).failure(), None);
    assert_eq!(exit_code(Request::Help.failure()), 0);
    assert_eq!(exit_code(Request::Unknown.failure()), 1);
}

#[test]
fn no_command_asks_for_help() {
    assert_eq!(parse_args(words(&["task"])), Request::Help);
    assert_eq!(parse_args(Vec::new()), Request::Help);
}

#[test]
fn unknown_command_is_rejected() {
    assert_eq!(parse_args(words(&["task", "frobnicate"])), Request::Unknown);
    assert_eq!(parse_args(words(&["task", "frobnicate", "add"])), Request::Unknown);
}

#[test]
fn command_and_words_are_parted() {
    assert_eq!(
        parse_args(words(&["task", "add", "call", "mom"])),
        Request::Run(Command::Add, words(&["call", "mom"]))
    );
    assert_eq!(
        parse_args(words(&["task", "sort"])),
        Request::Run(Command::Sort, Vec::new())
    );
}

#[test]
fn exit_code_is_one_on_failure_only() {
    assert_eq!(exit_code(None), 0);
    assert_eq!(exit_code(Some(Failure::StorageNotFound)), 1);
    assert_eq!(exit_code(Some(Failure::StorageWriteFailed)), 1);
    assert_eq!(exit_code(Some(Failure::StorageAlreadyExists)), 1);
    assert_eq!(exit_code(Some(Failure::InvalidCommand)), 1);
}

#[test]
fn words_are_joined_by_single_spaces() {
    assert_eq!(description(&words(&["call", "mom"])), words(&["call mom"]));
    assert_eq!(description(&words(&["one"])), words(&["one"]));
    assert_eq!(description(&words(&["a", "", "b"])), words(&["a  b"]));
    assert_eq!(description(&words(&["walk dog"])), words(&["walk dog"]));
    assert_eq!(description(&Vec::new()), Vec::<String>::new());
}

#[test]
fn only_init_works_without_the_storage() {
    assert!(!Command::Init.reads_storage());
    assert!(Command::Add.reads_storage());
    assert!(Command::List.reads_storage());
    assert!(Command::Remove.reads_storage());
    assert!(Command::Sort.reads_storage());
}

#[test]
fn add_stores_the_new_entry_last() {
    let outcome = Command::Add.run(&words(&["call", "mom"]), Some("buy milk\nwalk dog\n"));
    assert_eq!(
        outcome,
        Outcome::Store("buy milk\nwalk dog\ncall mom\n".to_string(), Vec::new())
    );
}

#[test]
fn add_to_empty_storage() {
    let outcome = Command::Add.run(&words(&["first"]), Some(""));
    assert_eq!(outcome, Outcome::Store("first\n".to_string(), Vec::new()));
}

#[test]
fn add_without_words_adds_nothing() {
    let outcome = Command::Add.run(&Vec::new(), Some("a\n"));
    assert_eq!(outcome, Outcome::Store("a\n".to_string(), Vec::new()));
}

#[test]
fn remove_stores_the_list_without_the_entry() {
    let outcome = Command::Remove.run(&words(&["walk", "dog"]), Some("buy milk\nwalk dog\n"));
    assert_eq!(outcome, Outcome::Store("buy milk\n".to_string(), Vec::new()));
}

#[test]
fn remove_of_a_missing_entry_warns_and_still_stores() {
    let outcome = Command::Remove.run(&words(&["walk", "dog"]), Some("buy milk\n"));
    assert_eq!(
        outcome,
        Outcome::Store("buy milk\n".to_string(), words(&["walk dog"]))
    );
    assert_eq!(exit_code(None), 0);
}

#[test]
fn remove_takes_one_of_two_equal_entries() {
    let outcome = Command::Remove.run(&words(&["a"]), Some("a\nb\na\n"));
    assert_eq!(outcome, Outcome::Store("b\na\n".to_string(), Vec::new()));
}

#[test]
fn sort_stores_the_entries_ascending() {
    let outcome = Command::Sort.run(&Vec::new(), Some("banana\napple\ncherry\n"));
    assert_eq!(
        outcome,
        Outcome::Store("apple\nbanana\ncherry\n".to_string(), Vec::new())
    );
}

#[test]
fn list_prints_and_stores_nothing() {
    let outcome = Command::List.run(&Vec::new(), Some("buy milk\nwalk dog\n"));
    assert_eq!(outcome, Outcome::Print("buy milk\nwalk dog\n".to_string()));
}

#[test]
fn list_shows_a_blank_entry_as_a_blank_line() {
    let outcome = Command::List.run(&Vec::new(), Some("\n"));
    assert_eq!(outcome, Outcome::Print("\n".to_string()));
    let outcome = Command::List.run(&Vec::new(), Some("a\n\nb"));
    assert_eq!(outcome, Outcome::Print("a\n\nb\n".to_string()));
}

#[test]
fn list_of_missing_storage_fails() {
    let outcome = Command::List.run(&Vec::new(), None);
    assert_eq!(outcome, Outcome::Fail(Failure::StorageNotFound));
    assert_eq!(outcome.conclude(false), Some(Failure::StorageNotFound));
    assert_ne!(exit_code(outcome.conclude(false)), 0);
    assert_ne!(exit_code(outcome.conclude(true)), 0);
}

#[test]
fn every_command_but_init_fails_on_missing_storage() {
    for command in [Command::Add, Command::List, Command::Remove, Command::Sort] {
        assert_eq!(
            command.run(&words(&["x"]), None),
            Outcome::Fail(Failure::StorageNotFound)
        );
    }
}

#[test]
fn init_creates_and_fails_where_storage_exists() {
    let first = Command::Init.run(&Vec::new(), None);
    assert_eq!(first, Outcome::Create(String::new()));
    assert_eq!(first.conclude(true), None);
    assert_eq!(exit_code(first.conclude(true)), 0);
    let second = Command::Init.run(&Vec::new(), None);
    assert_eq!(second, Outcome::Create(String::new()));
    assert_eq!(second.conclude(false), Some(Failure::StorageAlreadyExists));
    assert_eq!(exit_code(second.conclude(false)), 1);
}

#[test]
fn init_does_not_look_at_the_storage() {
    assert_eq!(Command::Init.run(&words(&["x"]), Some("a\n")), Outcome::Create(String::new()));
}

#[test]
fn a_refused_write_is_a_failure() {
    let outcome = Command::Sort.run(&Vec::new(), Some("b\na\n"));
    assert_eq!(outcome, Outcome::Store("a\nb\n".to_string(), Vec::new()));
    assert_eq!(outcome.conclude(true), None);
    assert_eq!(outcome.conclude(false), Some(Failure::StorageWriteFailed));
}

#[test]
fn showing_the_list_cannot_fail() {
    let outcome = Command::List.run(&Vec::new(), Some(""));
    assert_eq!(outcome, Outcome::Print(String::new()));
    assert_eq!(outcome.conclude(true), None);
    assert_eq!(outcome.conclude(false), None);
}

#[test]
fn a_missing_entry_is_no_failure() {
    let outcome = Command::Remove.run(&words(&["walk", "dog"]), Some("buy milk\n"));
    assert_eq!(exit_code(outcome.conclude(true)), 0);
}
