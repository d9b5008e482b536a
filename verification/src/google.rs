//! The Google Calendar API (read only): request addresses and parameters,
//! and how its answers become calendars and events.  HTTP and JSON decoding
//! belong to the caller.
use vstd::prelude::*;
use vstd::string::StringExecFns;
use crate::auth::{pair, pairs_view};

verus! {

/// Base address of the Calendar API.
pub const CAL_BASE: &'static str = "https://www.googleapis.com/calendar/v3";

/// A calendar of the account's calendar list.
pub struct CalendarItem {
    pub id: String,
    pub summary: String,
    pub primary: bool,
    pub color: String,
}

/// An event as the app keeps it.
pub struct EventItem {
    pub id: String,
    pub title: String,
    pub start_ts: i64,
    pub end_ts: i64,
    pub all_day: bool,
    pub status: String,
    pub html_link: String,
    pub declined: bool,
}

/// A calendar-list entry as the API sends it.
pub struct RawCalendar {
    pub id: String,
    pub summary: Option<String>,
    pub primary: Option<bool>,
    pub background_color: Option<String>,
}

/// The start or end of an event: a date-time for timed events, a date for
/// all-day events.
pub struct EventTime {
    pub date_time: Option<String>,
    pub date: Option<String>,
}

/// An attendee of an event.
pub struct RawAttendee {
    pub is_self: Option<bool>,
    pub response_status: Option<String>,
}

/// An event as the API sends it.
pub struct RawEvent {
    pub id: String,
    pub summary: Option<String>,
    pub status: Option<String>,
    pub html_link: Option<String>,
    pub start: Option<EventTime>,
    pub end: Option<EventTime>,
    pub attendees: Vec<RawAttendee>,
}

// ---------------------------------------------------------------------------
// outside computations
// ---------------------------------------------------------------------------

/// The Unix time that `chrono::DateTime::parse_from_rfc3339` reads from
/// `s`; `None` when `s` is not an RFC 3339 date-time.
pub uninterp spec fn rfc3339_seconds(s: Seq<char>) -> Option<int>;

/// `chrono::DateTime::parse_from_rfc3339(s).ok().map(|d| d.timestamp())`.
///
/// Trusted: the result is the named `rfc3339_seconds` of `s`.
#[verifier::external_body]
fn rfc3339_timestamp(s: &str) -> (r: Option<i64>)
    ensures
        r matches Some(t) ==> rfc3339_seconds(s@) == Some(t as int),
        r is None ==> rfc3339_seconds(s@) is None,
{
    match chrono::DateTime::parse_from_rfc3339(s) {
        Ok(d) => Some(d.timestamp()),
        Err(_) => None,
    }
}

/// The Unix time of midnight UTC of the `%Y-%m-%d` date that
/// `chrono::NaiveDate::parse_from_str` reads from `s`; `None` when `s` is
/// not such a date.
pub uninterp spec fn date_midnight_seconds(s: Seq<char>) -> Option<int>;

/// `chrono::NaiveDate::parse_from_str(s, "%Y-%m-%d")`, at 00:00:00 UTC, as
/// a Unix time.
///
/// Trusted: the result is the named `date_midnight_seconds` of `s`.
#[verifier::external_body]
fn date_midnight_timestamp(s: &str) -> (r: Option<i64>)
    ensures
        r matches Some(t) ==> date_midnight_seconds(s@) == Some(t as int),
        r is None ==> date_midnight_seconds(s@) is None,
{
    match chrono::NaiveDate::parse_from_str(s, "%Y-%m-%d") {
        Ok(nd) => match nd.and_hms_opt(0, 0, 0) {
            Some(ndt) => Some(ndt.and_utc().timestamp()),
            None => None,
        },
        Err(_) => None,
    }
}

/// Bytes that percent-encoding leaves as they are.
pub open spec fn url_safe_byte(b: u8) -> bool {
    ||| (48 <= b && b <= 57)
    ||| (65 <= b && b <= 90)
    ||| (97 <= b && b <= 122)
    ||| b == 45
    ||| b == 46
    ||| b == 95
    ||| b == 126
}

/// An upper-case hexadecimal digit.
pub open spec fn hex_digit(d: int) -> char {
    if d < 10 {
        ((48 + d) as u8) as char
    } else {
        ((55 + d) as u8) as char
    }
}

/// Percent-encoding of `bytes`: every byte but ASCII letters, digits and
/// `-._~` becomes `%` and two upper-case hex digits.
pub open spec fn percent_encode(bytes: Seq<u8>) -> Seq<char>
    decreases bytes.len(),
{
    if bytes.len() == 0 {
        Seq::empty()
    } else {
        let b = bytes[0];
        let head = if url_safe_byte(b) {
            seq![b as char]
        } else {
            seq!['%', hex_digit(b as int / 16), hex_digit(b as int % 16)]
        };
        head + percent_encode(bytes.drop_first())
    }
}

/// `urlencoding::encode(s)`.
///
/// Trusted: as the crate documents, every byte of the UTF-8 encoding of `s`
/// except alphanumerics and `-`, `_`, `.`, `~` is percent-encoded with
/// upper-case hex digits, the others are kept.
#[verifier::external_body]
fn url_encode(s: &str) -> (r: String)
    ensures
        r@ == percent_encode(vstd::utf8::encode_utf8(s@)),
{
    urlencoding::encode(s).into_owned()
}

// ---------------------------------------------------------------------------
// requests
// ---------------------------------------------------------------------------

/// The address of the calendar list.
pub open spec fn calendar_list_url_spec() -> Seq<char> {
    CAL_BASE@ + "/users/me/calendarList"@
}

/// `{CAL_BASE}/users/me/calendarList`.
pub fn calendar_list_url() -> (r: String)
    ensures
        r@ == calendar_list_url_spec(),
{
    String::from_str(CAL_BASE).concat("/users/me/calendarList")
}

/// The query of one calendar-list page.
pub fn calendar_list_query(page_token: &Option<String>) -> (r: Vec<(String, String)>)
    ensures
        pairs_view(r@) == (match page_token {
            Some(t) => seq![("maxResults"@, "250"@), ("pageToken"@, t@)],
            None => seq![("maxResults"@, "250"@)],
        }),
{
    let mut q: Vec<(String, String)> = Vec::new();
    q.push(pair("maxResults", "250"));
    match page_token {
        Some(t) => q.push(pair("pageToken", t.as_str())),
        None => {},
    }
    assert(pairs_view(q@) =~= (match page_token {
        Some(t) => seq![("maxResults"@, "250"@), ("pageToken"@, t@)],
        None => seq![("maxResults"@, "250"@)],
    }));
    q
}

/// The address of the events of a calendar.
pub open spec fn events_url_spec(calendar_id: Seq<char>) -> Seq<char> {
    CAL_BASE@ + "/calendars/"@ + percent_encode(vstd::utf8::encode_utf8(calendar_id)) + "/events"@
}

/// `{CAL_BASE}/calendars/{percent-encoded id}/events`.
pub fn events_url(calendar_id: &str) -> (r: String)
    ensures
        r@ == events_url_spec(calendar_id@),
{
    let enc = url_encode(calendar_id);
    String::from_str(CAL_BASE).concat("/calendars/").concat(enc.as_str()).concat("/events")
}

/// The query of one page of events in `[time_min, time_max]`, recurring
/// events expanded into instances, ordered by start.
pub open spec fn events_query_spec(
    time_min: Seq<char>,
    time_max: Seq<char>,
    page_token: Option<Seq<char>>,
) -> Seq<(Seq<char>, Seq<char>)> {
    let base = seq![
        ("timeMin"@, time_min),
        ("timeMax"@, time_max),
        ("singleEvents"@, "true"@),
        ("orderBy"@, "startTime"@),
        ("maxResults"@, "2500"@),
    ];
    match page_token {
        Some(t) => base.push(("pageToken"@, t)),
        None => base,
    }
}

/// The query of one page of events.
pub fn events_query(time_min: &str, time_max: &str, page_token: &Option<String>) -> (r: Vec<
    (String, String),
>)
    ensures
        pairs_view(r@) == events_query_spec(
            time_min@,
            time_max@,
            match page_token {
                Some(t) => Some(t@),
                None => None,
            },
        ),
{
    let mut q: Vec<(String, String)> = Vec::new();
    q.push(pair("timeMin", time_min));
    q.push(pair("timeMax", time_max));
    q.push(pair("singleEvents", "true"));
    q.push(pair("orderBy", "startTime"));
    q.push(pair("maxResults", "2500"));
    match page_token {
        Some(t) => q.push(pair("pageToken", t.as_str())),
        None => {},
    }
    assert(pairs_view(q@) =~= events_query_spec(
        time_min@,
        time_max@,
        match page_token {
            Some(t) => Some(t@),
            None => None,
        },
    ));
    q
}

// ---------------------------------------------------------------------------
// answers
// ---------------------------------------------------------------------------

/// The text of an optional field, empty when absent.
pub open spec fn text_or_empty(s: Option<String>) -> Seq<char> {
    match s {
        Some(t) => t@,
        None => Seq::empty(),
    }
}

fn take_or_empty(s: Option<String>) -> (r: String)
    ensures
        r@ == text_or_empty(s),
{
    match s {
        Some(t) => t,
        None => String::new(),
    }
}

/// A calendar-list entry as the app keeps it: missing name and color are
/// empty, a missing primary flag is false.
pub fn calendar_item(raw: RawCalendar) -> (c: CalendarItem)
    ensures
        c.id == raw.id,
        c.summary@ == text_or_empty(raw.summary),
        c.primary == (raw.primary == Some(true)),
        c.color@ == text_or_empty(raw.background_color),
{
    CalendarItem {
        id: raw.id,
        summary: take_or_empty(raw.summary),
        primary: match raw.primary {
            Some(p) => p,
            None => false,
        },
        color: take_or_empty(raw.background_color),
    }
}

/// The time an `EventTime` denotes and whether it is an all-day date: the
/// date-time when there is one (nothing when it does not parse), else the
/// date at midnight UTC.
pub open spec fn time_of(t: EventTime) -> Option<(int, bool)> {
    match t.date_time {
        Some(dt) => match rfc3339_seconds(dt@) {
            Some(s) => Some((s, false)),
            None => None,
        },
        None => match t.date {
            Some(d) => match date_midnight_seconds(d@) {
                Some(s) => Some((s, true)),
                None => None,
            },
            None => None,
        },
    }
}

/// Reads an `EventTime`.
pub fn parse_time(t: &EventTime) -> (r: Option<(i64, bool)>)
    ensures
        r matches Some(p) ==> time_of(*t) == Some((p.0 as int, p.1)),
        r is None ==> time_of(*t) is None,
{
    match &t.date_time {
        Some(dt) => match rfc3339_timestamp(dt.as_str()) {
            Some(s) => Some((s, false)),
            None => None,
        },
        None => match &t.date {
            Some(d) => match date_midnight_timestamp(d.as_str()) {
                Some(s) => Some((s, true)),
                None => None,
            },
            None => None,
        },
    }
}

/// `time_of` of an optional time.
pub open spec fn opt_time_of(t: Option<EventTime>) -> Option<(int, bool)> {
    match t {
        Some(x) => time_of(x),
        None => None,
    }
}

/// The user declined the event: one attendee is the user, with response
/// `declined`.
pub open spec fn declined_by_self(attendees: Seq<RawAttendee>) -> bool {
    exists|i: int|
        0 <= i < attendees.len() && attendees[i].is_self == Some(true) && (match attendees[i].response_status {
            Some(r) => r@ == "declined"@,
            None => false,
        })
}

/// Whether the user declined the event.
pub fn is_declined(attendees: &Vec<RawAttendee>) -> (r: bool)
    ensures
        r == declined_by_self(attendees@),
{
    let declined = String::from_str("declined");
    let mut i: usize = 0;
    while i < attendees.len()
        invariant
            i <= attendees@.len(),
            declined@ == "declined"@,
            forall|j: int|
                0 <= j < i ==> !(attendees@[j].is_self == Some(true) && (match attendees@[j].response_status {
                    Some(r) => r@ == "declined"@,
                    None => false,
                })),
        decreases attendees@.len() - i,
    {
        let a = &attendees[i];
        let me = match a.is_self {
            Some(b) => b,
            None => false,
        };
        let said_no = match &a.response_status {
            Some(r) => *r == declined,
            None => false,
        };
        if me && said_no {
            return true;
        }
        i = i + 1;
    }
    false
}

/// The fields of an `EventItem`.
pub struct EventItemV {
    pub id: Seq<char>,
    pub title: Seq<char>,
    pub start_ts: int,
    pub end_ts: int,
    pub all_day: bool,
    pub status: Seq<char>,
    pub html_link: Seq<char>,
    pub declined: bool,
}

impl View for EventItem {
    type V = EventItemV;

    open spec fn view(&self) -> EventItemV {
        EventItemV {
            id: self.id@,
            title: self.title@,
            start_ts: self.start_ts as int,
            end_ts: self.end_ts as int,
            all_day: self.all_day,
            status: self.status@,
            html_link: self.html_link@,
            declined: self.declined,
        }
    }
}

/// The event that an API event with a readable start becomes: an unreadable
/// end is the start; a missing title is `(sem título)`; missing status and
/// link are empty.
pub open spec fn event_item_of(e: RawEvent) -> EventItemV {
    let st = opt_time_of(e.start)->0;
    let en = match opt_time_of(e.end) {
        Some(x) => x,
        None => st,
    };
    EventItemV {
        id: e.id@,
        title: match e.summary {
            Some(t) => t@,
            None => "(sem título)"@,
        },
        start_ts: st.0,
        end_ts: en.0,
        all_day: st.1,
        status: text_or_empty(e.status),
        html_link: text_or_empty(e.html_link),
        declined: declined_by_self(e.attendees@),
    }
}

fn clone_or_empty(s: &Option<String>) -> (r: String)
    ensures
        r@ == text_or_empty(*s),
{
    match s {
        Some(t) => t.clone(),
        None => String::new(),
    }
}

/// An API event as the app keeps it; none without a readable start.
pub fn parse_event(e: &RawEvent) -> (r: Option<EventItem>)
    ensures
        r is Some <==> opt_time_of(e.start) is Some,
        r matches Some(ev) ==> ev@ == event_item_of(*e),
        r matches Some(ev) ==> ev.id == e.id && (opt_time_of(e.start) matches Some(st) && ev.start_ts
            == st.0 && ev.all_day == st.1 && ev.end_ts == (match opt_time_of(e.end) {
            Some(en) => en.0,
            None => st.0,
        })),
{
    let start = match &e.start {
        Some(t) => parse_time(t),
        None => None,
    };
    let (start_ts, all_day) = match start {
        Some(p) => p,
        None => {
            return None;
        },
    };
    let end = match &e.end {
        Some(t) => parse_time(t),
        None => None,
    };
    let (end_ts, _) = match end {
        Some(p) => p,
        None => (start_ts, all_day),
    };
    let declined = is_declined(&e.attendees);
    let title = match &e.summary {
        Some(t) => t.clone(),
        None => String::from_str("(sem título)"),
    };
    Some(
        EventItem {
            id: e.id.clone(),
            title,
            start_ts,
            end_ts,
            all_day,
            status: clone_or_empty(&e.status),
            html_link: clone_or_empty(&e.html_link),
            declined,
        },
    )
}

/// What an API event with a readable start becomes, field by field: its
/// start and kind are those of its start; its end is the time its end reads
/// as, timed or all-day, and the start only when the end is missing or
/// unreadable; its title is its summary (`(sem título)` without one); it is
/// declined exactly when the user's attendee entry says so.
pub proof fn law_event_item_fields(e: RawEvent)
    requires
        opt_time_of(e.start) is Some,
    ensures
        event_item_of(e).id == e.id@,
        event_item_of(e).start_ts == (opt_time_of(e.start)->0).0,
        event_item_of(e).all_day == (opt_time_of(e.start)->0).1,
        opt_time_of(e.end) matches Some(en) ==> event_item_of(e).end_ts == en.0,
        opt_time_of(e.end) is None ==> event_item_of(e).end_ts == (opt_time_of(e.start)->0).0,
        e.summary matches Some(t) ==> event_item_of(e).title == t@,
        e.summary is None ==> event_item_of(e).title == "(sem título)"@,
        event_item_of(e).status == text_or_empty(e.status),
        event_item_of(e).html_link == text_or_empty(e.html_link),
        event_item_of(e).declined == declined_by_self(e.attendees@),
{
}

/// The event was cancelled.
pub open spec fn is_cancelled(e: RawEvent) -> bool {
    e.status matches Some(s) && s@ == "cancelled"@
}

/// The events kept from a page of API events, in order: cancelled events
/// and events without a readable start are skipped.
pub open spec fn kept_events(items: Seq<RawEvent>) -> Seq<EventItemV>
    decreases items.len(),
{
    if items.len() == 0 {
        Seq::empty()
    } else {
        let rest = kept_events(items.drop_last());
        let e = items.last();
        if !is_cancelled(e) && opt_time_of(e.start) is Some {
            rest.push(event_item_of(e))
        } else {
            rest
        }
    }
}

/// The events of one page of the API's answer.
pub fn page_events(items: &Vec<RawEvent>) -> (r: Vec<EventItem>)
    ensures
        r@.map_values(|e: EventItem| e@) == kept_events(items@),
{
    let cancelled = String::from_str("cancelled");
    let mut out: Vec<EventItem> = Vec::new();
    let mut i: usize = 0;
    while i < items.len()
        invariant
            i <= items@.len(),
            cancelled@ == "cancelled"@,
            out@.map_values(|e: EventItem| e@) == kept_events(items@.take(i as int)),
        decreases items@.len() - i,
    {
        assert(items@.take(i + 1).drop_last() =~= items@.take(i as int));
        assert(items@.take(i + 1).last() == items@[i as int]);
        let e = &items[i];
        let skip = match &e.status {
            Some(s) => *s == cancelled,
            None => false,
        };
        if !skip {
            let ghost before = out@;
            match parse_event(e) {
                Some(ev) => {
                    out.push(ev);
                    assert(out@.map_values(|e: EventItem| e@) =~= before.map_values(
                        |e: EventItem| e@,
                    ).push(event_item_of(items@[i as int])));
                },
                None => {},
            }
        }
        i = i + 1;
    }
    assert(items@.take(items@.len() as int) =~= items@);
    out
}

} // verus!
