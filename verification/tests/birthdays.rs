use birthday_tg_rs::bth::{
    check_bth, choose_reminded, compare_bth_date, compare_bths, get_reminded_birthday, is_reminded, sort_bths_after_date,
    sort_bths_date, sort_bths_name, Birthday,
};
use chrono::TimeZone;
use std::cmp::Ordering;

/// The instant at noon, local time, of the given day.
fn noon(year: i32, month: u32, day: u32) -> i64 {
    chrono::Local.with_ymd_and_hms(year, month, day, 12, 0, 0).single().unwrap().timestamp()
}

fn bth(name: &str, day: i32, month: i32, reminder: i32, id: i32) -> Birthday {
    Birthday { name: name.to_string(), day, month, reminder, id }
}

fn names(v: &[Birthday]) -> Vec<String> {
    v.iter().map(|b| b.name.clone()).collect()
}

#[test]
fn check_bth_accepts_valid_birthdays() {
    assert!(check_bth(&bth("Ann", 29, 2, 3, 0)));
    assert!(check_bth(&bth("Ann", 31, 12, 0, 0)));
    assert!(check_bth(&bth("Ann", 30, 4, 0, 0)));
    assert!(check_bth(&bth("Ann", 0, 1, 0, 0)));
}

#[test]
fn check_bth_rejects_invalid_birthdays() {
    assert!(!check_bth(&bth("Ann", 30, 2, 3, 0)));
    assert!(!check_bth(&bth("Ann", 31, 4, 3, 0)));
    assert!(!check_bth(&bth("Ann", 31, 11, 3, 0)));
    assert!(!check_bth(&bth("Ann", 1, 13, 3, 0)));
    assert!(!check_bth(&bth("Ann", 1, 0, 3, 0)));
    assert!(!check_bth(&bth("Ann", -1, 5, 3, 0)));
    assert!(!check_bth(&bth("Ann", 1, 5, -1, 0)));
    assert!(!check_bth(&bth("", 1, 5, 1, 0)));
}

#[test]
fn compare_bth_date_orders_by_month_then_day() {
    let b = bth("Ann", 10, 5, 0, 0);
    assert_eq!(compare_bth_date(&b, 5, 10), Ordering::Equal);
    assert_eq!(compare_bth_date(&b, 5, 11), Ordering::Less);
    assert_eq!(compare_bth_date(&b, 5, 9), Ordering::Greater);
    assert_eq!(compare_bth_date(&b, 6, 1), Ordering::Less);
    assert_eq!(compare_bth_date(&b, 4, 30), Ordering::Greater);
}

#[test]
fn compare_bths_is_antisymmetric() {
    let a = bth("Ann", 10, 5, 0, 0);
    let b = bth("Bob", 1, 6, 0, 0);
    assert_eq!(compare_bths(&a, &b), Ordering::Less);
    assert_eq!(compare_bths(&b, &a), Ordering::Greater);
    assert_eq!(compare_bths(&a, &a), Ordering::Equal);
}

#[test]
fn sort_by_name_ignores_ascii_case_and_is_stable() {
    let mut v = vec![
        bth("bob", 1, 1, 0, 1),
        bth("Alice", 1, 1, 0, 2),
        bth("carl", 1, 1, 0, 3),
        bth("alice", 1, 1, 0, 4),
        bth("Bob", 1, 1, 0, 5),
    ];
    sort_bths_name(&mut v);
    assert_eq!(names(&v), vec!["Alice", "alice", "bob", "Bob", "carl"]);
}

#[test]
fn sort_by_name_compares_prefixes_first() {
    let mut v = vec![bth("Annabel", 1, 1, 0, 1), bth("ann", 1, 1, 0, 2), bth("B", 1, 1, 0, 3)];
    sort_bths_name(&mut v);
    assert_eq!(names(&v), vec!["ann", "Annabel", "B"]);
}

#[test]
fn sort_by_date_is_stable() {
    let mut v = vec![
        bth("d", 5, 3, 0, 1),
        bth("a", 1, 1, 0, 2),
        bth("c", 5, 3, 0, 3),
        bth("b", 2, 1, 0, 4),
        bth("e", 1, 12, 0, 5),
    ];
    sort_bths_date(&mut v);
    assert_eq!(names(&v), vec!["a", "b", "d", "c", "e"]);
}

#[test]
fn sort_after_date_puts_today_then_later_then_earlier() {
    let mut v = vec![
        bth("jan", 1, 1, 0, 1),
        bth("jun20", 20, 6, 0, 2),
        bth("today", 15, 6, 0, 3),
        bth("mar", 3, 3, 0, 4),
        bth("jul", 1, 7, 0, 5),
        bth("today2", 15, 6, 0, 6),
        bth("jun1", 1, 6, 0, 7),
    ];
    sort_bths_after_date(&mut v, 6, 15);
    assert_eq!(names(&v), vec!["today", "today2", "jun20", "jul", "jan", "mar", "jun1"]);
}

#[test]
fn sort_of_empty_list_is_empty() {
    let mut v: Vec<Birthday> = Vec::new();
    sort_bths_name(&mut v);
    sort_bths_date(&mut v);
    sort_bths_after_date(&mut v, 1, 1);
    assert!(v.is_empty());
}

#[test]
fn is_reminded_needs_date_between_today_and_reach() {
    let b = bth("Ann", 25, 12, 10, 1);
    assert!(is_reminded(&b, 12, 20, 12, 30));
    assert!(is_reminded(&b, 12, 25, 12, 25));
    assert!(!is_reminded(&b, 12, 26, 12, 30));
    assert!(!is_reminded(&b, 12, 20, 12, 24));
}

#[test]
fn reminded_birthdays_use_the_calendar() {
    let v = vec![
        bth("soon", 25, 12, 10, 1),
        bth("too_far", 25, 12, 3, 2),
        bth("past", 10, 12, 30, 3),
        bth("today", 20, 12, 0, 4),
    ];
    let r = get_reminded_birthday(v, noon(2024, 12, 20)).unwrap();
    assert_eq!(names(&r), vec!["soon", "today"]);
}

#[test]
fn reminded_birthdays_cross_month_ends() {
    // 2024-02-25 plus 5 days is 2024-03-01 (a leap year).
    let v = vec![bth("march_first", 1, 3, 5, 1), bth("march_second", 2, 3, 5, 2)];
    let r = get_reminded_birthday(v, noon(2024, 2, 25)).unwrap();
    assert_eq!(names(&r), vec!["march_first"]);
    // In 2023 the same reminder reaches 2023-03-02.
    let v = vec![bth("march_first", 1, 3, 5, 1), bth("march_second", 2, 3, 5, 2)];
    let r = get_reminded_birthday(v, noon(2023, 2, 25)).unwrap();
    assert_eq!(names(&r), vec!["march_first", "march_second"]);
}

#[test]
fn reminder_reaching_into_next_year_misses_january() {
    // From 2024-12-20 a reminder of 30 days reaches 2025-01-19: a date in
    // January is before today and a date in late December after 01/19, so
    // neither is chosen; a reminder that stays within December still works.
    let v = vec![bth("jan", 5, 1, 30, 1), bth("dec", 28, 12, 30, 2), bth("near", 22, 12, 5, 3)];
    let r = get_reminded_birthday(v, noon(2024, 12, 20)).unwrap();
    assert_eq!(names(&r), vec!["near"]);
}

#[test]
fn reminded_birthdays_fail_on_an_impossible_date() {
    let v = vec![bth("Ann", 25, 12, i32::MAX, 1)];
    assert!(get_reminded_birthday(v, noon(2024, 12, 20)).is_none());
    let v = vec![bth("Ann", 25, 12, 10, 1)];
    assert!(get_reminded_birthday(v, i64::MAX).is_none());
    let empty: Vec<Birthday> = Vec::new();
    assert!(get_reminded_birthday(empty, noon(2024, 12, 20)).unwrap().is_empty());
}

#[test]
fn choose_reminded_uses_the_dates_given() {
    let pending = vec![
        (bth("in", 25, 12, 10, 1), (12, 30)),
        (bth("short", 25, 12, 3, 2), (12, 23)),
        (bth("past", 10, 12, 30, 3), (1, 9)),
        (bth("today", 20, 12, 0, 4), (12, 20)),
    ];
    let r = choose_reminded(pending, (12, 20));
    assert_eq!(names(&r), vec!["in", "today"]);
}

#[test]
fn sorting_a_sorted_list_changes_nothing() {
    let mut v = vec![bth("b", 2, 2, 0, 1), bth("a", 1, 1, 0, 2), bth("c", 2, 2, 0, 3)];
    sort_bths_date(&mut v);
    let once = names(&v);
    sort_bths_date(&mut v);
    assert_eq!(names(&v), once);
    sort_bths_name(&mut v);
    let once = names(&v);
    sort_bths_name(&mut v);
    assert_eq!(names(&v), once);
}

#[test]
fn sort_after_date_is_the_date_order_turned_to_start_at_the_date() {
    let make = || {
        vec![
            bth("a", 3, 3, 0, 1),
            bth("b", 20, 6, 0, 2),
            bth("c", 15, 6, 0, 3),
            bth("d", 1, 1, 0, 4),
            bth("e", 1, 12, 0, 5),
            bth("f", 14, 6, 0, 6),
        ]
    };
    let mut by_date = make();
    sort_bths_date(&mut by_date);
    let before = by_date.iter().filter(|b| (b.month, b.day) < (6, 15)).count();
    let mut rotated = names(&by_date[before..]);
    rotated.extend(names(&by_date[..before]));
    let mut from_date = make();
    sort_bths_after_date(&mut from_date, 6, 15);
    assert_eq!(names(&from_date), rotated);
    let mut from_start = make();
    sort_bths_after_date(&mut from_start, 1, 1);
    assert_eq!(names(&from_start), names(&by_date));
}

#[test]
fn reminded_birthdays_succeed_inside_the_date_range() {
    let v = vec![bth("far", 25, 12, 1_000_000, 1), bth("back", 25, 12, -1_000_000, 2)];
    let r = get_reminded_birthday(v, noon(2024, 12, 20));
    assert!(r.is_some());
}
