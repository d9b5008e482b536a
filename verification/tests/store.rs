use calendar_notifier::store::{
    add_notified_lead, delete_account, delete_events_for_calendar, due_notifications, get_setting,
    init, list_accounts, list_calendars, mark_notified, replace_events, selected_calendars,
    set_account_reauth, set_calendar_selected, set_setting, upcoming_events, upsert_account,
    upsert_calendar, Db, Event,
};

fn ev(id: &str, start: i64) -> Event {
    Event {
        id: id.to_string(),
        calendar_id: String::new(),
        account_email: String::new(),
        title: format!("t-{id}"),
        start_ts: start,
        end_ts: start + 1800,
        all_day: false,
        status: "confirmed".to_string(),
        html_link: String::new(),
        declined: false,
    }
}

fn row<'a>(db: &'a Db, a: &str, c: &str, id: &str) -> Option<&'a calendar_notifier::store::EventRow> {
    db.events
        .iter()
        .find(|r| r.event.account_email == a && r.event.calendar_id == c && r.event.id == id)
}

#[test]
fn setting_read_back_and_default() {
    let mut db = init();
    assert_eq!(get_setting(&db, "lead_minutes", "10"), "10");
    set_setting(&mut db, "lead_minutes", "5,2");
    set_setting(&mut db, "other", "x");
    assert_eq!(get_setting(&db, "lead_minutes", "10"), "5,2");
    set_setting(&mut db, "lead_minutes", "7");
    assert_eq!(get_setting(&db, "lead_minutes", "10"), "7");
    assert_eq!(get_setting(&db, "other", ""), "x");
    assert_eq!(db.settings.len(), 2);
}

#[test]
fn accounts_oldest_first_and_reconnect_clears_reauth() {
    let mut db = init();
    upsert_account(&mut db, "b@x.com", "B", 200);
    upsert_account(&mut db, "a@x.com", "A", 100);
    set_account_reauth(&mut db, "a@x.com", true);
    let l = list_accounts(&db);
    assert_eq!(l.iter().map(|a| a.email.as_str()).collect::<Vec<_>>(), vec!["a@x.com", "b@x.com"]);
    assert!(l[0].needs_reauth);
    upsert_account(&mut db, "a@x.com", "A2", 999);
    let l = list_accounts(&db);
    assert_eq!(l[0].email, "a@x.com");
    assert_eq!(l[0].display_name, "A2");
    assert!(!l[0].needs_reauth);
    set_account_reauth(&mut db, "nobody@x.com", true);
    assert_eq!(list_accounts(&db).len(), 2);
}

#[test]
fn calendars_primary_first_then_by_name_and_choice_kept() {
    let mut db = init();
    upsert_calendar(&mut db, "a@x.com", "c2", "Zeta", false, false, "#111");
    upsert_calendar(&mut db, "a@x.com", "c1", "Alpha", false, true, "#222");
    upsert_calendar(&mut db, "a@x.com", "p", "Main", true, true, "#333");
    upsert_calendar(&mut db, "b@x.com", "q", "Other", true, true, "#444");
    let l = list_calendars(&db, "a@x.com");
    assert_eq!(l.iter().map(|c| c.id.as_str()).collect::<Vec<_>>(), vec!["p", "c1", "c2"]);
    set_calendar_selected(&mut db, "a@x.com", "c2", true);
    upsert_calendar(&mut db, "a@x.com", "c2", "Zeta renamed", false, false, "#999");
    let c2 = list_calendars(&db, "a@x.com").into_iter().find(|c| c.id == "c2").unwrap();
    assert!(c2.selected);
    assert_eq!(c2.summary, "Zeta renamed");
    assert_eq!(c2.color, "#999");
    let sel: Vec<String> = selected_calendars(&db).into_iter().map(|c| c.id).collect();
    assert_eq!(sel, vec!["c2", "c1", "p", "q"]);
}

#[test]
fn replace_events_keeps_state_only_when_start_unchanged() {
    let mut db = init();
    replace_events(&mut db, "a", "c", &vec![ev("e1", 1000), ev("e2", 2000), ev("e3", 3000)]);
    mark_notified(&mut db, "a", "c", "e1");
    mark_notified(&mut db, "a", "c", "e2");
    add_notified_lead(&mut db, "a", "c", "e1", 10);
    add_notified_lead(&mut db, "a", "c", "e2", 5);
    replace_events(&mut db, "a", "c", &vec![ev("e1", 1000), ev("e2", 2500)]);
    let e1 = row(&db, "a", "c", "e1").unwrap();
    assert!(e1.notified);
    assert_eq!(e1.notified_leads, "10");
    let e2 = row(&db, "a", "c", "e2").unwrap();
    assert!(!e2.notified);
    assert_eq!(e2.notified_leads, "");
    assert_eq!(e2.event.start_ts, 2500);
    assert!(row(&db, "a", "c", "e3").is_none());
}

#[test]
fn replace_events_leaves_other_calendars() {
    let mut db = init();
    replace_events(&mut db, "a", "c1", &vec![ev("x", 1000)]);
    replace_events(&mut db, "a", "c2", &vec![ev("y", 1000)]);
    replace_events(&mut db, "b", "c1", &vec![ev("z", 1000)]);
    replace_events(&mut db, "a", "c1", &vec![]);
    assert!(row(&db, "a", "c1", "x").is_none());
    assert!(row(&db, "a", "c2", "y").is_some());
    assert!(row(&db, "b", "c1", "z").is_some());
}

#[test]
fn add_notified_lead_appends() {
    let mut db = init();
    replace_events(&mut db, "a", "c", &vec![ev("e", 1000)]);
    add_notified_lead(&mut db, "a", "c", "e", 10);
    add_notified_lead(&mut db, "a", "c", "e", 2);
    assert_eq!(row(&db, "a", "c", "e").unwrap().notified_leads, "10,2");
    add_notified_lead(&mut db, "a", "c", "missing", 2);
    assert_eq!(db.events.len(), 1);
}

#[test]
fn delete_account_removes_everything_of_it() {
    let mut db = init();
    upsert_account(&mut db, "a", "A", 1);
    upsert_account(&mut db, "b", "B", 2);
    upsert_calendar(&mut db, "a", "c", "C", true, true, "");
    upsert_calendar(&mut db, "b", "c", "C", true, true, "");
    replace_events(&mut db, "a", "c", &vec![ev("e", 1000)]);
    replace_events(&mut db, "b", "c", &vec![ev("e", 1000)]);
    delete_account(&mut db, "a");
    assert_eq!(list_accounts(&db).len(), 1);
    assert!(list_calendars(&db, "a").is_empty());
    assert_eq!(list_calendars(&db, "b").len(), 1);
    assert!(row(&db, "a", "c", "e").is_none());
    assert!(row(&db, "b", "c", "e").is_some());
}

#[test]
fn delete_events_for_calendar_only_that_one() {
    let mut db = init();
    replace_events(&mut db, "a", "c1", &vec![ev("x", 1000)]);
    replace_events(&mut db, "a", "c2", &vec![ev("y", 1000)]);
    delete_events_for_calendar(&mut db, "a", "c1");
    assert!(row(&db, "a", "c1", "x").is_none());
    assert!(row(&db, "a", "c2", "y").is_some());
}

#[test]
fn due_notifications_window_and_order() {
    let mut db = init();
    let mut allday = ev("d", 1100);
    allday.all_day = true;
    replace_events(&mut db, "a", "c", &vec![ev("late", 1500), ev("soon", 1200), ev("past", 900), allday, ev("far", 5000)]);
    let d = due_notifications(&db, 10, 1000);
    assert_eq!(d.iter().map(|e| e.id.as_str()).collect::<Vec<_>>(), vec!["soon", "late"]);
    mark_notified(&mut db, "a", "c", "soon");
    let d = due_notifications(&db, 10, 1000);
    assert_eq!(d.iter().map(|e| e.id.as_str()).collect::<Vec<_>>(), vec!["late"]);
}

#[test]
fn upcoming_events_join_calendar_and_limit() {
    let mut db = init();
    upsert_calendar(&mut db, "a", "c", "Work", false, true, "#abc");
    replace_events(&mut db, "a", "c", &vec![ev("2", 3000), ev("1", 2000), ev("0", 500)]);
    replace_events(&mut db, "a", "unknown", &vec![ev("3", 4000)]);
    let u = upcoming_events(&db, -1, 1000);
    assert_eq!(u.iter().map(|e| e.id.as_str()).collect::<Vec<_>>(), vec!["1", "2", "3"]);
    assert_eq!(u[0].color, "#abc");
    assert_eq!(u[0].calendar_summary, "Work");
    assert_eq!(u[2].color, "");
    let u = upcoming_events(&db, 2, 1000);
    assert_eq!(u.len(), 2);
    let u = upcoming_events(&db, 0, 1000);
    assert!(u.is_empty());
}

#[test]
fn unfollowing_keeps_row() {
    let mut db = init();
    upsert_calendar(&mut db, "a", "c", "C", false, true, "");
    set_calendar_selected(&mut db, "a", "c", false);
    assert!(!list_calendars(&db, "a")[0].selected);
    set_calendar_selected(&mut db, "a", "nope", true);
    assert_eq!(list_calendars(&db, "a").len(), 1);
}
