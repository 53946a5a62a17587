use mdhtml::index::{upsert, upsert_with_date, Data};
use std::collections::VecDeque;

fn record(slug: &str, title: &str, created_at: &str) -> Data {
    Data {
        slug: slug.to_string(),
        title: title.to_string(),
        created_at: created_at.to_string(),
    }
}

#[test]
fn upsert_with_date_adds_a_new_record_in_front() {
    let mut data = VecDeque::from(vec![record("a", "A", "2024-01-01")]);
    let date = upsert_with_date(&mut data, "b", "B", "2024-02-02");
    assert_eq!(date, "2024-02-02");
    assert_eq!(
        data,
        VecDeque::from(vec![
            record("b", "B", "2024-02-02"),
            record("a", "A", "2024-01-01"),
        ])
    );
}

#[test]
fn upsert_with_date_on_an_empty_index() {
    let mut data = VecDeque::new();
    let date = upsert_with_date(&mut data, "a", "A", "2024-01-01");
    assert_eq!(date, "2024-01-01");
    assert_eq!(data, VecDeque::from(vec![record("a", "A", "2024-01-01")]));
}

#[test]
fn upsert_with_date_changes_only_the_title_of_a_known_slug() {
    let mut data = VecDeque::from(vec![
        record("a", "A", "2024-01-01"),
        record("b", "B", "2024-02-02"),
        record("c", "C", "2024-03-03"),
    ]);
    let date = upsert_with_date(&mut data, "b", "New", "2030-12-31");
    assert_eq!(date, "2024-02-02");
    assert_eq!(
        data,
        VecDeque::from(vec![
            record("a", "A", "2024-01-01"),
            record("b", "New", "2024-02-02"),
            record("c", "C", "2024-03-03"),
        ])
    );
}

#[test]
fn upsert_with_date_changes_the_first_of_two_records_of_a_slug() {
    let mut data = VecDeque::from(vec![
        record("a", "A1", "2024-01-01"),
        record("a", "A2", "2024-02-02"),
    ]);
    let date = upsert_with_date(&mut data, "a", "New", "2030-12-31");
    assert_eq!(date, "2024-01-01");
    assert_eq!(
        data,
        VecDeque::from(vec![
            record("a", "New", "2024-01-01"),
            record("a", "A2", "2024-02-02"),
        ])
    );
}

#[test]
fn upsert_twice_with_the_same_slug() {
    let mut data = VecDeque::from(vec![record("a", "A", "2024-01-01")]);
    let first = upsert_with_date(&mut data, "b", "B", "2024-02-02");
    assert_eq!(data.len(), 2);
    let second = upsert_with_date(&mut data, "b", "B again", "2024-05-05");
    assert_eq!(first, "2024-02-02");
    assert_eq!(second, "2024-02-02");
    assert_eq!(data.len(), 2);
    assert_eq!(data[0], record("b", "B again", "2024-02-02"));
    assert_eq!(data[1], record("a", "A", "2024-01-01"));
    assert_eq!(data.iter().filter(|r| r.slug == "b").count(), 1);

    upsert_with_date(&mut data, "b", "B again", "2024-06-06");
    assert_eq!(
        data,
        VecDeque::from(vec![
            record("b", "B again", "2024-02-02"),
            record("a", "A", "2024-01-01"),
        ])
    );
}

#[test]
fn upsert_keeps_the_day_of_a_known_slug() {
    let mut data = VecDeque::from(vec![record("a", "A", "2024-01-01")]);
    let date = upsert(&mut data, "a", "New");
    assert_eq!(date, "2024-01-01");
    assert_eq!(data, VecDeque::from(vec![record("a", "New", "2024-01-01")]));
}

#[test]
fn upsert_gives_a_new_record_the_day_it_returns() {
    let mut data = VecDeque::from(vec![record("a", "A", "2024-01-01")]);
    let date = upsert(&mut data, "b", "B");
    assert_eq!(data.len(), 2);
    assert_eq!(data[0], record("b", "B", &date));
    assert_eq!(data[1], record("a", "A", "2024-01-01"));
    let parts: Vec<&str> = date.split('-').collect();
    assert_eq!(parts.len(), 3);
    assert_eq!(parts[0].len(), 4);
    assert_eq!(parts[1].len(), 2);
    assert_eq!(parts[2].len(), 2);
    assert!(date.chars().all(|c| c == '-' || c.is_ascii_digit()));

    let again = upsert(&mut data, "b", "B2");
    assert_eq!(again, date);
    assert_eq!(data.len(), 2);
    assert_eq!(data[0], record("b", "B2", &date));
}
