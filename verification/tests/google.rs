use calendar_notifier::google::{
    calendar_item, calendar_list_query, calendar_list_url, events_query, events_url, is_declined,
    page_events, parse_event, parse_time, EventTime, RawAttendee, RawCalendar, RawEvent, CAL_BASE,
};

fn dt(s: &str) -> Option<EventTime> {
    Some(EventTime { date_time: Some(s.to_string()), date: None })
}

fn day(s: &str) -> Option<EventTime> {
    Some(EventTime { date_time: None, date: Some(s.to_string()) })
}

fn raw(id: &str, start: Option<EventTime>, end: Option<EventTime>) -> RawEvent {
    RawEvent {
        id: id.to_string(),
        summary: Some(format!("S{id}")),
        status: Some("confirmed".to_string()),
        html_link: None,
        start,
        end,
        attendees: Vec::new(),
    }
}

fn strs(v: &[(String, String)]) -> Vec<(&str, &str)> {
    v.iter().map(|(a, b)| (a.as_str(), b.as_str())).collect()
}

#[test]
fn urls() {
    assert_eq!(CAL_BASE, "https://www.googleapis.com/calendar/v3");
    assert_eq!(calendar_list_url(), "https://www.googleapis.com/calendar/v3/users/me/calendarList");
    assert_eq!(
        events_url("a b@group.calendar.google.com"),
        "https://www.googleapis.com/calendar/v3/calendars/a%20b%40group.calendar.google.com/events"
    );
    assert_eq!(events_url("pt-BR.holiday_x~y"), "https://www.googleapis.com/calendar/v3/calendars/pt-BR.holiday_x~y/events");
    assert_eq!(events_url("é#"), "https://www.googleapis.com/calendar/v3/calendars/%C3%A9%23/events");
}

#[test]
fn queries() {
    assert_eq!(strs(&calendar_list_query(&None)), vec![("maxResults", "250")]);
    assert_eq!(
        strs(&calendar_list_query(&Some("tok".to_string()))),
        vec![("maxResults", "250"), ("pageToken", "tok")]
    );
    assert_eq!(
        strs(&events_query("A", "B", &None)),
        vec![("timeMin", "A"), ("timeMax", "B"), ("singleEvents", "true"), ("orderBy", "startTime"), ("maxResults", "2500")]
    );
    assert_eq!(events_query("A", "B", &Some("p".to_string())).len(), 6);
}

#[test]
fn times() {
    assert_eq!(parse_time(&dt("2024-01-01T10:00:00Z").unwrap()), Some((1704103200, false)));
    assert_eq!(parse_time(&dt("2024-01-01T10:00:00-03:00").unwrap()), Some((1704114000, false)));
    assert_eq!(parse_time(&day("2024-01-01").unwrap()), Some((1704067200, true)));
    assert_eq!(parse_time(&dt("yesterday").unwrap()), None);
    assert_eq!(parse_time(&day("2024-13-01").unwrap()), None);
    assert_eq!(parse_time(&EventTime { date_time: None, date: None }), None);
    let both = EventTime { date_time: Some("bad".to_string()), date: Some("2024-01-01".to_string()) };
    assert_eq!(parse_time(&both), None);
}

#[test]
fn events_from_api() {
    assert!(parse_event(&raw("x", None, None)).is_none());
    let e = parse_event(&raw("x", dt("2024-01-01T10:00:00Z"), None)).unwrap();
    assert_eq!(e.end_ts, e.start_ts);
    assert_eq!(e.title, "Sx");
    assert_eq!(e.html_link, "");
    let mut r = raw("y", day("2024-01-01"), day("2024-01-02"));
    r.summary = None;
    r.status = None;
    let e = parse_event(&r).unwrap();
    assert!(e.all_day);
    assert_eq!(e.end_ts - e.start_ts, 86400);
    assert_eq!(e.title, "(sem título)");
    assert_eq!(e.status, "");
}

#[test]
fn declined_detection() {
    let me_no = RawAttendee { is_self: Some(true), response_status: Some("declined".to_string()) };
    let other_no = RawAttendee { is_self: None, response_status: Some("declined".to_string()) };
    let me_yes = RawAttendee { is_self: Some(true), response_status: Some("accepted".to_string()) };
    assert!(is_declined(&vec![other_no, me_no]));
    assert!(!is_declined(&vec![me_yes]));
    assert!(!is_declined(&Vec::new()));
    let mut r = raw("z", dt("2024-01-01T10:00:00Z"), None);
    r.attendees = vec![RawAttendee { is_self: Some(true), response_status: Some("declined".to_string()) }];
    assert!(parse_event(&r).unwrap().declined);
}

#[test]
fn pages_skip_cancelled_and_unreadable() {
    let mut cancelled = raw("c", dt("2024-01-01T10:00:00Z"), None);
    cancelled.status = Some("cancelled".to_string());
    let items = vec![raw("a", dt("2024-01-01T10:00:00Z"), None), cancelled, raw("n", None, None), raw("b", day("2024-02-01"), None)];
    let out = page_events(&items);
    assert_eq!(out.iter().map(|e| e.id.as_str()).collect::<Vec<_>>(), vec!["a", "b"]);
}

#[test]
fn calendar_entries() {
    let c = calendar_item(RawCalendar { id: "x".to_string(), summary: None, primary: None, background_color: None });
    assert_eq!(c.summary, "");
    assert!(!c.primary);
    assert_eq!(c.color, "");
    let c = calendar_item(RawCalendar {
        id: "p".to_string(),
        summary: Some("Main".to_string()),
        primary: Some(true),
        background_color: Some("#fff".to_string()),
    });
    assert!(c.primary);
    assert_eq!(c.summary, "Main");
    assert_eq!(c.color, "#fff");
}
