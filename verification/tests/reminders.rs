use calendar_notifier::reminders::{fired_leads, parse_minutes_csv, parse_reminders};

#[test]
fn csv_sorted_dedup_clamped() {
    assert_eq!(parse_minutes_csv("2,10,10"), vec![10, 2]);
    assert_eq!(parse_minutes_csv("99999"), vec![1440]);
    assert_eq!(parse_minutes_csv(""), Vec::<i64>::new());
}

#[test]
fn reminders_sorted_desc_dedup_and_parse() {
    assert_eq!(parse_reminders("2,10,10,5"), vec![10, 5, 2]);
    assert_eq!(parse_reminders("10"), vec![10]);
    assert_eq!(parse_reminders(""), Vec::<i64>::new());
    assert_eq!(parse_reminders(" 3 , x , 1 "), vec![3, 1]);
}

#[test]
fn reminders_any_separator() {
    assert_eq!(parse_reminders("10 2"), vec![10, 2]);
    assert_eq!(parse_reminders("10;2\t30"), vec![30, 10, 2]);
    assert_eq!(parse_reminders("-5"), vec![5]);
}

#[test]
fn reminders_skip_numbers_too_large() {
    assert_eq!(parse_reminders("99999999999999999999,7"), vec![7]);
    assert_eq!(parse_reminders("9223372036854775807"), vec![9223372036854775807]);
    assert_eq!(parse_reminders("9223372036854775808"), Vec::<i64>::new());
}

#[test]
fn csv_clamps_both_ends() {
    assert_eq!(parse_minutes_csv("0,1440,1441,5000"), vec![1440, 0]);
    assert_eq!(parse_minutes_csv("abc"), Vec::<i64>::new());
}

#[test]
fn fired_leads_read_comma_list() {
    let mut v: Vec<i64> = fired_leads("10, 2,x,,-3").into_iter().collect();
    v.sort();
    assert_eq!(v, vec![-3, 2, 10]);
    assert!(fired_leads("").is_empty());
    assert!(fired_leads(" , ").is_empty());
    assert!(fired_leads("10,10").contains(&10));
    assert_eq!(fired_leads("10,10").len(), 1);
}
