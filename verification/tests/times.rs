use birthday_tg_rs::mytime::{between_time, comp_mytime, get_all_config, time};
use birthday_tg_rs::user_config::{check_user_config, UserConfig};
use std::cmp::Ordering;

fn t(hour: i32, minute: i32) -> time {
    time { hour, minute }
}

#[test]
fn comp_mytime_orders_by_hour_then_minute() {
    assert_eq!(comp_mytime(&t(9, 30), &t(10, 0)), Ordering::Less);
    assert_eq!(comp_mytime(&t(10, 0), &t(9, 30)), Ordering::Greater);
    assert_eq!(comp_mytime(&t(10, 5), &t(10, 1)), Ordering::Greater);
    assert_eq!(comp_mytime(&t(10, 5), &t(10, 5)), Ordering::Equal);
}

#[test]
fn between_time_inside_a_window_excludes_its_ends() {
    assert!(between_time(&t(9, 0), &t(9, 30), &t(9, 15)));
    assert!(!between_time(&t(9, 0), &t(9, 30), &t(9, 0)));
    assert!(!between_time(&t(9, 0), &t(9, 30), &t(9, 30)));
    assert!(!between_time(&t(9, 0), &t(9, 30), &t(10, 0)));
}

#[test]
fn between_time_wraps_past_midnight() {
    assert!(between_time(&t(23, 50), &t(0, 10), &t(23, 55)));
    assert!(between_time(&t(23, 50), &t(0, 10), &t(0, 5)));
    assert!(!between_time(&t(23, 50), &t(0, 10), &t(12, 0)));
    assert!(!between_time(&t(23, 50), &t(0, 10), &t(0, 10)));
}

#[test]
fn between_time_of_an_empty_window_is_its_time() {
    assert!(between_time(&t(9, 0), &t(9, 0), &t(9, 0)));
    assert!(!between_time(&t(9, 0), &t(9, 0), &t(9, 1)));
}

#[test]
fn windows_in_both_directions_split_the_day() {
    let a = t(8, 0);
    let b = t(20, 0);
    for c in [t(0, 0), t(7, 59), t(8, 1), t(12, 0), t(19, 59), t(20, 1), t(23, 59)] {
        assert_ne!(between_time(&a, &b, &c), between_time(&b, &a, &c));
    }
}

#[test]
fn get_all_config_picks_users_in_the_window() {
    let rows = vec![(9, 0, Some(1)), (9, 15, Some(2)), (10, 0, Some(3)), (9, 10, Some(-1)), (9, 20, Some(4))];
    assert_eq!(get_all_config(&t(9, 0), &t(9, 30), &rows), Some(vec![2, 4]));
    assert_eq!(get_all_config(&t(11, 0), &t(11, 30), &rows), Some(Vec::<i32>::new()));
}

#[test]
fn get_all_config_needs_user_ids_only_inside_the_window() {
    let rows = vec![(9, 15, Some(2)), (12, 0, None)];
    assert_eq!(get_all_config(&t(9, 0), &t(9, 30), &rows), Some(vec![2]));
    assert_eq!(get_all_config(&t(11, 0), &t(12, 30), &rows), None);
}

#[test]
fn check_user_config_bounds() {
    assert!(check_user_config(&UserConfig { hour: 0, minute: 0 }));
    assert!(check_user_config(&UserConfig { hour: 23, minute: 59 }));
    assert!(!check_user_config(&UserConfig { hour: 24, minute: 0 }));
    assert!(!check_user_config(&UserConfig { hour: -1, minute: 0 }));
    assert!(!check_user_config(&UserConfig { hour: 9, minute: 60 }));
    assert!(!check_user_config(&UserConfig { hour: 9, minute: -1 }));
}
