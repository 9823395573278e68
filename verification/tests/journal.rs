use rusty_journal::encode::persist_tasks;
use rusty_journal::journal::JournalError;
use rusty_journal::journal::add_task;
use rusty_journal::journal::complete_task;
use rusty_journal::journal::list_tasks;
use rusty_journal::task::Task;

fn task(text: &str, created_at: u64) -> Task {
    Task::from_parts(String::from(text), created_at)
}

#[test]
fn empty_content_is_empty_list() {
    let tasks = list_tasks("").unwrap();
    assert_eq!(tasks.len(), 0);
}

#[test]
fn empty_list_persists_as_brackets() {
    let content = persist_tasks(&Vec::new());
    assert_eq!(content, "[]");
    assert_eq!(list_tasks(&content).unwrap().len(), 0);
}

#[test]
fn one_task_persists_exactly() {
    let content = persist_tasks(&vec![task("buy milk", 1700000000)]);
    assert_eq!(content, "[{\"text\":\"buy milk\",\"created_at\":1700000000}]");
}

#[test]
fn round_trip_keeps_order_text_and_time() {
    let tasks = vec![
        task("first", 1),
        task("second, with commas and }{ braces", 1600000000),
        task("", 0),
        task("caf\u{e9} \u{2615} unicode", 18446744073709551615),
    ];
    let content = persist_tasks(&tasks);
    let loaded = list_tasks(&content).unwrap();
    assert_eq!(loaded.len(), tasks.len());
    for (a, b) in tasks.iter().zip(loaded.iter()) {
        assert_eq!(a.text, b.text);
        assert_eq!(a.created_at, b.created_at);
    }
}

#[test]
fn quotes_and_backslashes_escape_and_round_trip() {
    let tasks = vec![task("a\"b\\c", 7)];
    let content = persist_tasks(&tasks);
    assert_eq!(content, "[{\"text\":\"a\\\"b\\\\c\",\"created_at\":7}]");
    let loaded = list_tasks(&content).unwrap();
    assert_eq!(loaded[0].text, "a\"b\\c");
    assert_eq!(loaded[0].created_at, 7);
}

#[test]
fn add_to_absent_store_makes_one_element_list() {
    // An absent or just-created file hands the core empty content.
    let (content, tasks) = add_task("", task("buy milk", 1700000000)).unwrap();
    assert_eq!(tasks.len(), 1);
    assert_eq!(tasks[0].text, "buy milk");
    assert_eq!(content, "[{\"text\":\"buy milk\",\"created_at\":1700000000}]");
}

#[test]
fn add_appends_at_the_end() {
    let (c1, t1) = add_task("", task("one", 10)).unwrap();
    let (c2, t2) = add_task(&c1, task("two", 20)).unwrap();
    let (_, t3) = add_task(&c2, task("three", 30)).unwrap();
    assert_eq!(t1.len(), 1);
    assert_eq!(t2.len(), 2);
    assert_eq!(t3.len(), 3);
    assert_eq!(t3[0].text, "one");
    assert_eq!(t3[1].text, "two");
    assert_eq!(t3[2].text, "three");
}

#[test]
fn add_to_malformed_store_fails() {
    let r = add_task("not a journal", task("x", 1));
    assert_eq!(r.unwrap_err(), JournalError::MalformedStore);
}

#[test]
fn complete_middle_keeps_the_rest_in_order() {
    let content = persist_tasks(&vec![task("A", 1), task("B", 2), task("C", 3)]);
    let (c2, tasks) = complete_task(&content, 2).unwrap();
    assert_eq!(tasks.len(), 2);
    assert_eq!(tasks[0].text, "A");
    assert_eq!(tasks[1].text, "C");
    let reloaded = list_tasks(&c2).unwrap();
    assert_eq!(reloaded.len(), 2);
    assert_eq!(reloaded[0].text, "A");
    assert_eq!(reloaded[1].text, "C");
}

#[test]
fn complete_first_and_last() {
    let content = persist_tasks(&vec![task("A", 1), task("B", 2)]);
    let (_, first_gone) = complete_task(&content, 1).unwrap();
    assert_eq!(first_gone.len(), 1);
    assert_eq!(first_gone[0].text, "B");
    let (_, last_gone) = complete_task(&content, 2).unwrap();
    assert_eq!(last_gone.len(), 1);
    assert_eq!(last_gone[0].text, "A");
}

#[test]
fn complete_position_zero_is_invalid() {
    let content = persist_tasks(&vec![task("A", 1)]);
    let r = complete_task(&content, 0);
    assert_eq!(r.unwrap_err(), JournalError::InvalidPosition);
}

#[test]
fn complete_past_end_is_invalid_and_store_untouched() {
    let content = persist_tasks(&vec![task("A", 1)]);
    let r = complete_task(&content, 5);
    assert_eq!(r.unwrap_err(), JournalError::InvalidPosition);
    // No new content came back, so the caller has nothing to write: the
    // stored content stands as it was.
    let still_there = list_tasks(&content).unwrap();
    assert_eq!(still_there.len(), 1);
    assert_eq!(still_there[0].text, "A");
}

#[test]
fn complete_on_empty_store_is_invalid() {
    let r = complete_task("", 1);
    assert_eq!(r.unwrap_err(), JournalError::InvalidPosition);
}

#[test]
fn complete_on_malformed_store_fails() {
    let r = complete_task("{broken", 1);
    assert_eq!(r.unwrap_err(), JournalError::MalformedStore);
}

#[test]
fn malformed_contents_are_rejected() {
    let bad = [
        "x",
        "[",
        "]",
        "[]x",
        "[ ]",
        " []",
        "[] ",
        "[{]",
        "{\"text\":\"a\",\"created_at\":1}",
        "[{\"text\":\"a\",\"created_at\":1}",
        "[{\"text\":\"a\",\"created_at\":1},]",
        "[{\"text\":\"a\",\"created_at\":}]",
        "[{\"text\":\"a\",\"created_at\":-1}]",
        "[{\"text\":\"a\",\"created_at\":1.5}]",
        "[{\"created_at\":1,\"text\":\"a\"}]",
        "[{\"text\":\"a\"}]",
        "[{\"text\":\"a\",\"created_at\":18446744073709551616}]",
        "[{\"text\":\"a\\x\",\"created_at\":1}]",
        "[{\"text\":\"a\",\"created_at\":1}{\"text\":\"b\",\"created_at\":2}]",
    ];
    for content in bad.iter() {
        let r = list_tasks(content);
        assert_eq!(r.unwrap_err(), JournalError::MalformedStore);
    }
}

#[test]
fn timestamp_bounds_round_trip() {
    let content = persist_tasks(&vec![task("low", 0), task("high", u64::MAX)]);
    assert_eq!(
        content,
        "[{\"text\":\"low\",\"created_at\":0},{\"text\":\"high\",\"created_at\":18446744073709551615}]"
    );
    let loaded = list_tasks(&content).unwrap();
    assert_eq!(loaded[0].created_at, 0);
    assert_eq!(loaded[1].created_at, u64::MAX);
}

#[test]
fn new_task_keeps_its_text() {
    let t = Task::new(String::from("walk the dog"));
    assert_eq!(t.text, "walk the dog");
}
