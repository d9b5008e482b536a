use calendar_notifier::scheduler::{
    account_reminders, global_reminders, maybe_daily_summary, minutes_until, parse_hhmm,
    poll_minutes, reminder_body, summary_items, tick, DayEvent, SummaryItem, DEFAULT_LEAD,
    DEFAULT_POLL, DEFAULT_SUMMARY_TIME,
};
use calendar_notifier::commands::{remove_account, set_calendar_selected};
use calendar_notifier::secrets::TokenStore;
use calendar_notifier::store::{get_setting, init, replace_events, set_setting, upsert_calendar, Db, Event};

fn ev(id: &str, start: i64) -> Event {
    Event {
        id: id.to_string(),
        calendar_id: String::new(),
        account_email: String::new(),
        title: format!("Meeting {id}"),
        start_ts: start,
        end_ts: start + 1800,
        all_day: false,
        status: "confirmed".to_string(),
        html_link: String::new(),
        declined: false,
    }
}

fn leads_of(ns: &[calendar_notifier::scheduler::Notice]) -> Vec<(String, i64)> {
    ns.iter().map(|n| (n.id.clone(), n.lead)).collect()
}

#[test]
fn defaults() {
    assert_eq!(DEFAULT_LEAD, "10");
    assert_eq!(DEFAULT_POLL, "60");
    assert_eq!(DEFAULT_SUMMARY_TIME, "08:00");
}

#[test]
fn minutes_until_rounds_up_and_stops_at_zero() {
    assert_eq!(minutes_until(100, 40), 1);
    assert_eq!(minutes_until(1000, 0), 17);
    assert_eq!(minutes_until(600, 0), 10);
    assert_eq!(minutes_until(100, 100), 0);
    assert_eq!(minutes_until(100, 200), 0);
    assert_eq!(minutes_until(i64::MAX, i64::MIN), 307445734561825861);
}

#[test]
fn reminder_body_text() {
    assert_eq!(reminder_body(0), "Começa em instantes");
    assert_eq!(reminder_body(1), "Começa em instantes");
    assert_eq!(reminder_body(2), "Começa em 2 min");
    assert_eq!(reminder_body(45), "Começa em 45 min");
}

#[test]
fn parse_hhmm_cases() {
    assert_eq!(parse_hhmm("08:30"), Some((8, 30)));
    assert_eq!(parse_hhmm(" 9 : 05 "), Some((9, 5)));
    assert_eq!(parse_hhmm("25:70"), Some((25, 70)));
    assert_eq!(parse_hhmm("0830"), None);
    assert_eq!(parse_hhmm("a:b"), None);
    assert_eq!(parse_hhmm("8:-1"), None);
}

#[test]
fn global_and_account_reminders() {
    let mut db = init();
    assert_eq!(global_reminders(&db), vec![10]);
    set_setting(&mut db, "lead_minutes", "");
    assert_eq!(global_reminders(&db), vec![10]);
    set_setting(&mut db, "lead_minutes", "2,15");
    assert_eq!(global_reminders(&db), vec![15, 2]);
    let g = global_reminders(&db);
    assert_eq!(account_reminders(&db, "a@x.com", &g), vec![15, 2]);
    set_setting(&mut db, "lead:a@x.com", "5 1");
    assert_eq!(account_reminders(&db, "a@x.com", &g), vec![5, 1]);
    assert_eq!(account_reminders(&db, "b@x.com", &g), vec![15, 2]);
    set_setting(&mut db, "lead:a@x.com", "none");
    assert_eq!(account_reminders(&db, "a@x.com", &g), vec![15, 2]);
}

#[test]
fn poll_minutes_cases() {
    let mut db = init();
    assert_eq!(poll_minutes(&db), 60);
    set_setting(&mut db, "poll_minutes", "15");
    assert_eq!(poll_minutes(&db), 15);
    set_setting(&mut db, "poll_minutes", "0");
    assert_eq!(poll_minutes(&db), 1);
    set_setting(&mut db, "poll_minutes", "abc");
    assert_eq!(poll_minutes(&db), 5);
    set_setting(&mut db, "poll_minutes", "-3");
    assert_eq!(poll_minutes(&db), 5);
}

fn db_with(events: Vec<Event>) -> Db {
    let mut db = init();
    replace_events(&mut db, "a@x.com", "cal", &events);
    db
}

#[test]
fn tick_shows_each_reminder_once() {
    let start = 100_000;
    let mut db = db_with(vec![ev("e", start)]);
    set_setting(&mut db, "lead_minutes", "10,2");
    assert!(tick(&mut db, start - 700).is_empty());
    let n = tick(&mut db, start - 600);
    assert_eq!(leads_of(&n), vec![("e".to_string(), 10)]);
    assert_eq!(n[0].body, "Começa em 10 min");
    assert_eq!(n[0].title, "Meeting e");
    assert_eq!(n[0].account_email, "a@x.com");
    assert_eq!(n[0].calendar_id, "cal");
    assert!(tick(&mut db, start - 600).is_empty());
    assert!(tick(&mut db, start - 300).is_empty());
    let n = tick(&mut db, start - 100);
    assert_eq!(leads_of(&n), vec![("e".to_string(), 2)]);
    assert_eq!(n[0].body, "Começa em 2 min");
    assert!(tick(&mut db, start - 10).is_empty());
}

#[test]
fn tick_catches_up_several_reminders() {
    let start = 100_000;
    let mut db = db_with(vec![ev("e", start)]);
    set_setting(&mut db, "lead_minutes", "10,2");
    let n = tick(&mut db, start - 30);
    assert_eq!(leads_of(&n), vec![("e".to_string(), 10), ("e".to_string(), 2)]);
    assert_eq!(n[0].body, "Começa em instantes");
    assert!(tick(&mut db, start - 20).is_empty());
}

#[test]
fn tick_skips_started_all_day_and_declined() {
    let start = 100_000;
    let mut allday = ev("d", start);
    allday.all_day = true;
    let mut declined = ev("x", start);
    declined.declined = true;
    let mut db = db_with(vec![ev("past", start - 1000), allday, declined, ev("ok", start)]);
    let n = tick(&mut db, start - 60);
    assert_eq!(leads_of(&n), vec![("ok".to_string(), 10)]);
    set_setting(&mut db, "ignore_declined", "false");
    let n = tick(&mut db, start - 60);
    assert_eq!(leads_of(&n), vec![("x".to_string(), 10)]);
}

#[test]
fn tick_uses_account_list() {
    let start = 100_000;
    let mut db = db_with(vec![ev("e", start)]);
    set_setting(&mut db, "lead:a@x.com", "30");
    assert!(tick(&mut db, start - 1801).is_empty());
    set_setting(&mut db, "lead:a@x.com", "30");
    let n = tick(&mut db, start - 1800);
    assert_eq!(leads_of(&n), vec![("e".to_string(), 30)]);
    assert_eq!(n[0].body, "Começa em 30 min");
}

#[test]
fn tick_after_start_moves_notifies_again() {
    let start = 100_000;
    let mut db = db_with(vec![ev("e", start)]);
    assert_eq!(tick(&mut db, start - 60).len(), 1);
    replace_events(&mut db, "a@x.com", "cal", &vec![ev("e", start)]);
    assert!(tick(&mut db, start - 50).is_empty());
    replace_events(&mut db, "a@x.com", "cal", &vec![ev("e", start + 3600)]);
    assert_eq!(tick(&mut db, start + 3600 - 60).len(), 1);
}

fn item(title: &str, all_day: bool, hm: &str) -> SummaryItem {
    SummaryItem { title: title.to_string(), all_day, hm: hm.to_string() }
}

#[test]
fn daily_summary_off_by_default() {
    let mut db = init();
    let items = vec![item("A", false, "09:00")];
    assert!(maybe_daily_summary(&mut db, "2024-05-01", 12 * 3600, &items).is_none());
    assert_eq!(get_setting(&db, "daily_summary_last", ""), "");
}

#[test]
fn daily_summary_once_at_time() {
    let mut db = init();
    set_setting(&mut db, "daily_summary_enabled", "true");
    let items = vec![item("Standup", false, "09:00"), item("Feriado", true, "")];
    assert!(maybe_daily_summary(&mut db, "2024-05-01", 7 * 3600 + 59 * 60 + 59, &items).is_none());
    let s = maybe_daily_summary(&mut db, "2024-05-01", 8 * 3600, &items).unwrap();
    assert_eq!(s.title, "Resumo de hoje — 2 evento(s)");
    assert_eq!(s.body, "09:00 Standup\n• Feriado");
    assert_eq!(get_setting(&db, "daily_summary_last", ""), "2024-05-01");
    assert!(maybe_daily_summary(&mut db, "2024-05-01", 20 * 3600, &items).is_none());
    assert!(maybe_daily_summary(&mut db, "2024-05-02", 9 * 3600, &items).is_some());
}

#[test]
fn daily_summary_lists_ten_then_count() {
    let mut db = init();
    set_setting(&mut db, "daily_summary_enabled", "yes");
    set_setting(&mut db, "daily_summary_time", "06:30");
    let items: Vec<SummaryItem> = (0..12).map(|i| item(&format!("E{i}"), false, "10:00")).collect();
    let s = maybe_daily_summary(&mut db, "d", 6 * 3600 + 30 * 60, &items).unwrap();
    assert_eq!(s.title, "Resumo de hoje — 12 evento(s)");
    let lines: Vec<&str> = s.body.split('\n').collect();
    assert_eq!(lines.len(), 11);
    assert_eq!(lines[0], "10:00 E0");
    assert_eq!(lines[9], "10:00 E9");
    assert_eq!(lines[10], "+2 mais");
}

#[test]
fn daily_summary_empty_day_is_recorded_without_notice() {
    let mut db = init();
    set_setting(&mut db, "daily_summary_enabled", "true");
    assert!(maybe_daily_summary(&mut db, "d1", 9 * 3600, &Vec::new()).is_none());
    assert_eq!(get_setting(&db, "daily_summary_last", ""), "d1");
}

#[test]
fn daily_summary_bad_time_falls_back_or_stops() {
    let mut db = init();
    set_setting(&mut db, "daily_summary_enabled", "true");
    set_setting(&mut db, "daily_summary_time", "nonsense");
    let items = vec![item("A", true, "")];
    assert!(maybe_daily_summary(&mut db, "d", 7 * 3600, &items).is_none());
    assert!(maybe_daily_summary(&mut db, "d", 8 * 3600, &items).is_some());
    set_setting(&mut db, "daily_summary_time", "24:00");
    assert!(maybe_daily_summary(&mut db, "e", 23 * 3600, &items).is_none());
    assert_eq!(get_setting(&db, "daily_summary_last", ""), "d");
}

#[test]
fn no_reminders_from_unfollowed_or_removed() {
    let start = 100_000;
    let mut db = init();
    upsert_calendar(&mut db, "a@x.com", "cal", "C", true, true, "");
    replace_events(&mut db, "a@x.com", "cal", &vec![ev("e", start)]);
    replace_events(&mut db, "a@x.com", "other", &vec![ev("o", start)]);
    replace_events(&mut db, "b@x.com", "cal", &vec![ev("b", start)]);
    set_calendar_selected(&mut db, "a@x.com", "cal", false);
    let n = tick(&mut db, start - 60);
    let mut ids: Vec<String> = n.iter().map(|x| x.id.clone()).collect();
    ids.sort();
    assert_eq!(ids, vec!["b", "o"]);
    let mut db2 = init();
    replace_events(&mut db2, "a@x.com", "cal", &vec![ev("e", start)]);
    replace_events(&mut db2, "b@x.com", "cal", &vec![ev("b", start)]);
    let mut t = TokenStore::new();
    remove_account(&mut db2, &mut t, "a@x.com");
    let n = tick(&mut db2, start - 60);
    assert_eq!(n.iter().map(|x| x.id.as_str()).collect::<Vec<_>>(), vec!["b"]);
}

#[test]
fn shown_once_across_ticks_and_syncs() {
    let start = 100_000;
    let mut db = db_with(vec![ev("e", start), ev("f", start + 50)]);
    set_setting(&mut db, "lead_minutes", "10");
    let n = tick(&mut db, start - 600);
    assert_eq!(leads_of(&n), vec![("e".to_string(), 10)]);
    for t in [start - 590, start - 500, start - 300] {
        let n = tick(&mut db, t);
        assert!(n.iter().all(|x| x.id != "e"));
    }
    replace_events(&mut db, "a@x.com", "cal", &vec![ev("e", start), ev("f", start + 50)]);
    set_setting(&mut db, "lead_minutes", "10,1");
    let n = tick(&mut db, start - 100);
    assert!(n.iter().all(|x| !(x.id == "e" && x.lead == 10)));
    let n = tick(&mut db, start - 30);
    assert_eq!(leads_of(&n), vec![("e".to_string(), 1)]);
}

fn day_event(title: &str, start: i64, day: &str, hm: &str) -> DayEvent {
    DayEvent { title: title.to_string(), start_ts: start, all_day: false, day: day.to_string(), hm: hm.to_string() }
}

#[test]
fn summary_items_today_earliest_first() {
    let mut allday = day_event("Feriado", 50, "2024-05-01", "21:00");
    allday.all_day = true;
    let evs = vec![
        day_event("Late", 300, "2024-05-01", "10:00"),
        day_event("Other day", 100, "2024-05-02", "08:00"),
        allday,
        day_event("Early", 200, "2024-05-01", "09:00"),
    ];
    let items = summary_items(&evs, "2024-05-01");
    assert_eq!(items.iter().map(|i| i.title.as_str()).collect::<Vec<_>>(), vec!["Feriado", "Early", "Late"]);
    assert!(items[0].all_day);
    assert_eq!(items[1].hm, "09:00");
    assert!(summary_items(&evs, "2030-01-01").is_empty());
}
