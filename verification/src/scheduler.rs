//! The reminder loop's decisions: which reminders are due at a tick, what
//! they say, what is recorded so that none is shown twice, and when the
//! daily summary is sent.
use vstd::prelude::*;
use vstd::string::StringExecFns;
use crate::commands::{pref_bool, pref_value};
use crate::reminders::{
    descending_of, fired_leads, fired_set, lemma_fired_with_lead, listed_numbers,
    parse_reminders,
};
use crate::table::{lemma_table_at, table};
use crate::order::{Ranked, sort_rows, sorted};
use crate::store::{
    Db, EventRow, EventRowV, EventV, SettingRowV, add_notified_lead, events_not_of,
    events_not_of_calendar, get_setting, lead_recorded, set_setting, setting_or,
};
use crate::text::{
    chars_of, decimal_chars, decimal_string, int_chars, int_string, join, join_chars, parse_int,
    parse_u32, parse_u64, split_once, split_once_chars, string_from_chars, trim, trim_chars,
};

verus! {

/// The global reminder list when none was saved: ten minutes before.
pub const DEFAULT_LEAD: &'static str = "10";

/// The polling interval, in minutes, when none was saved.
pub const DEFAULT_POLL: &'static str = "60";

/// The time of the daily summary when none was saved.
pub const DEFAULT_SUMMARY_TIME: &'static str = "08:00";

// ---------------------------------------------------------------------------
// reminder lists
// ---------------------------------------------------------------------------

/// The setting that holds the reminder list of account `email`.
pub open spec fn lead_key(email: Seq<char>) -> Seq<char> {
    "lead:"@ + email
}

/// The reminders of an account: its own list when it has a non-empty one,
/// the global list otherwise.
pub open spec fn account_leads(
    settings: Map<Seq<char>, SettingRowV>,
    email: Seq<char>,
    global: Seq<i64>,
) -> Seq<i64> {
    let own = descending_of(listed_numbers(setting_or(settings, lead_key(email), Seq::empty())));
    if own.len() == 0 {
        global
    } else {
        own
    }
}

/// The global reminders: the saved list, or ten minutes when it is empty.
pub open spec fn global_leads(settings: Map<Seq<char>, SettingRowV>) -> Seq<i64> {
    let saved = descending_of(listed_numbers(setting_or(settings, "lead_minutes"@, DEFAULT_LEAD@)));
    if saved.len() == 0 {
        seq![10i64]
    } else {
        saved
    }
}

/// The reminders of account `email`: its own list, or `global` when it has
/// none.
pub fn account_reminders(db: &Db, email: &str, global: &[i64]) -> (r: Vec<i64>)
    requires
        db.well_formed(),
    ensures
        r@ == account_leads(db@.settings, email@, global@),
{
    let mut key = String::from_str("lead:");
    key.append(email);
    proof {
        reveal_strlit("");
    }
    let s = get_setting(db, key.as_str(), "");
    let v = parse_reminders(s.as_str());
    if v.len() == 0 {
        vstd::slice::slice_to_vec(global)
    } else {
        v
    }
}

/// The global reminders.
pub fn global_reminders(db: &Db) -> (r: Vec<i64>)
    requires
        db.well_formed(),
    ensures
        r@ == global_leads(db@.settings),
{
    let s = get_setting(db, "lead_minutes", DEFAULT_LEAD);
    let v = parse_reminders(s.as_str());
    if v.len() == 0 {
        let mut d: Vec<i64> = Vec::new();
        d.push(10);
        assert(d@ =~= seq![10i64]);
        d
    } else {
        v
    }
}

// ---------------------------------------------------------------------------
// what a reminder says
// ---------------------------------------------------------------------------

/// Whole minutes left before `start`, rounded up; none once it started.
pub open spec fn minutes_left(start: int, now: int) -> int {
    if start <= now {
        0
    } else {
        (start - now + 59) / 60
    }
}

/// The text of a reminder with `mins` minutes left.
pub open spec fn notice_body(mins: int) -> Seq<char> {
    if mins <= 1 {
        "Começa em instantes"@
    } else {
        "Começa em "@ + int_chars(mins) + " min"@
    }
}

/// Minutes left before `start` at `now`, rounded up, never negative.
pub fn minutes_until(start: i64, now: i64) -> (r: i64)
    ensures
        r == minutes_left(start as int, now as int),
{
    let d: i128 = start as i128 - now as i128;
    if d <= 0 {
        0
    } else {
        ((d + 59) / 60) as i64
    }
}

/// The text of a reminder with `mins` minutes left.
pub fn reminder_body(mins: i64) -> (r: String)
    ensures
        r@ == notice_body(mins as int),
{
    if mins <= 1 {
        String::from_str("Começa em instantes")
    } else {
        let mut b = String::from_str("Começa em ");
        let n = int_string(mins);
        b.append(n.as_str());
        b.append(" min");
        b
    }
}

// ---------------------------------------------------------------------------
// the reminders due at a tick
// ---------------------------------------------------------------------------

/// A reminder to show: the event it is about, its text, and how many
/// minutes before the start it was set.
pub struct Notice {
    pub account_email: String,
    pub calendar_id: String,
    pub id: String,
    pub title: String,
    pub body: String,
    pub lead: i64,
}

pub struct NoticeV {
    pub account_email: Seq<char>,
    pub calendar_id: Seq<char>,
    pub id: Seq<char>,
    pub title: Seq<char>,
    pub body: Seq<char>,
    pub lead: int,
}

impl View for Notice {
    type V = NoticeV;

    open spec fn view(&self) -> NoticeV {
        NoticeV {
            account_email: self.account_email@,
            calendar_id: self.calendar_id@,
            id: self.id@,
            title: self.title@,
            body: self.body@,
            lead: self.lead as int,
        }
    }
}

/// The views of a list of notices.
pub open spec fn notice_views(ns: Seq<Notice>) -> Seq<NoticeV> {
    ns.map_values(|n: Notice| n@)
}

/// The reminder `lead` of event `e`, shown at `now`.
pub open spec fn notice_for(e: EventV, lead: int, now: int) -> NoticeV {
    NoticeV {
        account_email: e.account_email,
        calendar_id: e.calendar_id,
        id: e.id,
        title: e.title,
        body: notice_body(minutes_left(e.start_ts, now)),
        lead,
    }
}

/// The reminders of `leads`, in order, that are not in `fired` and whose
/// window has opened at `now` (`start - lead minutes <= now`).
pub open spec fn due_notices(e: EventV, fired: Set<int>, leads: Seq<i64>, now: int) -> Seq<NoticeV>
    decreases leads.len(),
{
    if leads.len() == 0 {
        Seq::empty()
    } else {
        let rest = due_notices(e, fired, leads.drop_last(), now);
        let l = leads.last() as int;
        if !fired.contains(l) && e.start_ts - 60 * l <= now {
            rest.push(notice_for(e, l, now))
        } else {
            rest
        }
    }
}

/// What a cached event yields at a tick: nothing when it was declined and
/// declined events are ignored, else its due reminders that were not fired.
pub open spec fn row_notices(r: EventRowV, leads: Seq<i64>, now: int, ignore_declined: bool) -> Seq<
    NoticeV,
> {
    if ignore_declined && r.event.declined {
        Seq::empty()
    } else {
        due_notices(r.event, fired_set(r.notified_leads), leads, now)
    }
}

/// The reminders due for one cached event at `now`.
pub fn event_notices(row: &EventRow, leads: &Vec<i64>, now: i64, ignore_declined: bool) -> (r: Vec<
    Notice,
>)
    ensures
        notice_views(r@) == row_notices(row@, leads@, now as int, ignore_declined),
{
    let mut out: Vec<Notice> = Vec::new();
    if ignore_declined && row.event.declined {
        assert(notice_views(out@) =~= Seq::<NoticeV>::empty());
        return out;
    }
    let fired = fired_leads(row.notified_leads.as_str());
    let ev = &row.event;
    let body = reminder_body(minutes_until(ev.start_ts, now));
    let ghost fs = fired_set(row.notified_leads@);
    let mut i: usize = 0;
    assert(leads@.take(0) =~= Seq::<i64>::empty());
    assert(notice_views(out@) =~= Seq::<NoticeV>::empty());
    while i < leads.len()
        invariant
            i <= leads@.len(),
            fs == fired_set(row.notified_leads@),
            forall|y: i64| fired@.contains(y) <==> fs.contains(y as int),
            body@ == notice_body(minutes_left(ev.start_ts as int, now as int)),
            *ev == row.event,
            notice_views(out@) == due_notices(ev@, fs, leads@.take(i as int), now as int),
        decreases leads@.len() - i,
    {
        let lead = leads[i];
        assert(leads@.take(i + 1).drop_last() =~= leads@.take(i as int));
        assert(leads@.take(i + 1).last() == lead);
        let opened = (ev.start_ts as i128) - 60 * (lead as i128) <= now as i128;
        if !fired.contains(&lead) && opened {
            let n = Notice {
                account_email: ev.account_email.clone(),
                calendar_id: ev.calendar_id.clone(),
                id: ev.id.clone(),
                title: ev.title.clone(),
                body: body.clone(),
                lead,
            };
            let ghost before = out@;
            out.push(n);
            assert(notice_views(out@) =~= notice_views(before).push(n@));
        }
        i = i + 1;
    }
    assert(leads@.take(leads@.len() as int) =~= leads@);
    out
}

/// A cached event still waiting for its reminders: a timed event that has
/// not started yet.
pub open spec fn is_pending(r: EventRowV, now: int) -> bool {
    !r.event.all_day && r.event.start_ts > now
}

/// The views of event rows, in table order.
pub open spec fn row_views(rows: Seq<EventRow>) -> Seq<EventRowV> {
    rows.map_values(|r: EventRow| r@)
}

/// The reminders due at `now` over the cached events `rows`, event by event
/// in table order, each event with the reminders of its account.
pub open spec fn tick_notices(
    rows: Seq<EventRowV>,
    settings: Map<Seq<char>, SettingRowV>,
    now: int,
    ignore_declined: bool,
) -> Seq<NoticeV>
    decreases rows.len(),
{
    if rows.len() == 0 {
        Seq::empty()
    } else {
        let rest = tick_notices(rows.drop_last(), settings, now, ignore_declined);
        let r = rows.last();
        if is_pending(r, now) {
            rest + row_notices(
                r,
                account_leads(settings, r.event.account_email, global_leads(settings)),
                now,
                ignore_declined,
            )
        } else {
            rest
        }
    }
}

/// The event table after every notice of `ns`, in order, was recorded on
/// its event.
pub open spec fn notices_recorded(
    m: Map<(Seq<char>, Seq<char>, Seq<char>), EventRowV>,
    ns: Seq<NoticeV>,
) -> Map<(Seq<char>, Seq<char>, Seq<char>), EventRowV>
    decreases ns.len(),
{
    if ns.len() == 0 {
        m
    } else {
        let n = ns.last();
        lead_recorded(notices_recorded(m, ns.drop_last()), n.account_email, n.calendar_id, n.id, n.lead)
    }
}

/// One tick of the reminder loop at `now`: the reminders to show, each
/// recorded on its event so that it is not shown again.
pub fn tick(db: &mut Db, now: i64) -> (r: Vec<Notice>)
    requires
        old(db).well_formed(),
    ensures
        final(db).well_formed(),
        notice_views(r@) == tick_notices(
            row_views(old(db).events@),
            old(db)@.settings,
            now as int,
            pref_value(old(db)@.settings, "ignore_declined"@, true),
        ),
        final(db)@.events == notices_recorded(old(db)@.events, notice_views(r@)),
        final(db)@.events.dom() == old(db)@.events.dom(),
        shown_kept(old(db)@.events, final(db)@.events),
        final(db)@.accounts == old(db)@.accounts,
        final(db)@.calendars == old(db)@.calendars,
        final(db)@.settings == old(db)@.settings,
{
    let global = global_reminders(db);
    let ignore = pref_bool(db, "ignore_declined", true);
    let mut out: Vec<Notice> = Vec::new();
    let mut i: usize = 0;
    assert(row_views(db.events@.take(0)) =~= Seq::<EventRowV>::empty());
    while i < db.events.len()
        invariant
            i <= db.events@.len(),
            db.well_formed(),
            *db == *old(db),
            global@ == global_leads(db@.settings),
            ignore == pref_value(db@.settings, "ignore_declined"@, true),
            notice_views(out@) == tick_notices(
                row_views(db.events@.take(i as int)),
                db@.settings,
                now as int,
                ignore,
            ),
        decreases db.events@.len() - i,
    {
        let row = &db.events[i];
        assert(row_views(db.events@.take(i + 1)).drop_last() =~= row_views(db.events@.take(i as int)));
        assert(row_views(db.events@.take(i + 1)).last() == row@);
        if !row.event.all_day && row.event.start_ts > now {
            let leads = account_reminders(db, row.event.account_email.as_str(), global.as_slice());
            let mut ns = event_notices(row, &leads, now, ignore);
            let ghost before = out@;
            let ghost added = ns@;
            out.append(&mut ns);
            assert(notice_views(out@) =~= notice_views(before) + notice_views(added));
        }
        i = i + 1;
    }
    assert(db.events@.take(db.events@.len() as int) =~= db.events@);
    let ghost shown = notice_views(out@);
    let mut j: usize = 0;
    assert(shown.take(0) =~= Seq::<NoticeV>::empty());
    while j < out.len()
        invariant
            j <= out@.len(),
            shown == notice_views(out@),
            db.well_formed(),
            db@.events == notices_recorded(old(db)@.events, shown.take(j as int)),
            db@.accounts == old(db)@.accounts,
            db@.calendars == old(db)@.calendars,
            db@.settings == old(db)@.settings,
        decreases out@.len() - j,
    {
        let n = &out[j];
        assert(shown.take(j + 1).drop_last() =~= shown.take(j as int));
        assert(shown.take(j + 1).last() == n@);
        add_notified_lead(db, n.account_email.as_str(), n.calendar_id.as_str(), n.id.as_str(), n.lead);
        j = j + 1;
    }
    assert(shown.take(out@.len() as int) =~= shown);
    proof {
        law_tick_keeps_shown(
            row_views(old(db).events@),
            old(db)@.events,
            old(db)@.settings,
            now as int,
            pref_value(old(db)@.settings, "ignore_declined"@, true),
        );
    }
    out
}

// ---------------------------------------------------------------------------
// polling interval
// ---------------------------------------------------------------------------

/// The polling interval in minutes: the saved value (sixty when none was
/// saved) when it reads as a `u64`, at least one minute; five minutes when
/// the saved value does not read as a number.
pub open spec fn poll_interval(settings: Map<Seq<char>, SettingRowV>) -> int {
    match parse_int(setting_or(settings, "poll_minutes"@, DEFAULT_POLL@), false, 0, u64::MAX as int) {
        Some(m) => if m < 1 {
            1
        } else {
            m
        },
        None => 5,
    }
}

/// Minutes to wait between two automatic syncs.
pub fn poll_minutes(db: &Db) -> (r: u64)
    requires
        db.well_formed(),
    ensures
        r == poll_interval(db@.settings),
        r >= 1,
{
    let s = get_setting(db, "poll_minutes", DEFAULT_POLL);
    let cs = chars_of(s.as_str());
    match parse_u64(&cs) {
        Some(m) => if m < 1 {
            1
        } else {
            m
        },
        None => 5,
    }
}

// ---------------------------------------------------------------------------
// the daily summary
// ---------------------------------------------------------------------------

/// `"HH:MM"` read as hours and minutes: the parts around the first `:`,
/// trimmed, each read as a `u32`.
pub open spec fn hhmm_of(s: Seq<char>) -> Option<(int, int)> {
    match split_once(s, ':') {
        Some(parts) => match (
            parse_int(trim(parts.0), false, 0, u32::MAX as int),
            parse_int(trim(parts.1), false, 0, u32::MAX as int),
        ) {
            (Some(h), Some(m)) => Some((h, m)),
            _ => None,
        },
        None => None,
    }
}

/// Reads `"HH:MM"` (no range check: `"25:70"` gives `(25, 70)`).
pub fn parse_hhmm(s: &str) -> (r: Option<(u32, u32)>)
    ensures
        r matches Some(p) ==> hhmm_of(s@) == Some((p.0 as int, p.1 as int)),
        r is None ==> hhmm_of(s@) is None,
{
    let cs = chars_of(s);
    match split_once_chars(&cs, ':') {
        Some(parts) => {
            let h = trim_chars(&parts.0);
            let m = trim_chars(&parts.1);
            match (parse_u32(&h), parse_u32(&m)) {
                (Some(a), Some(b)) => Some((a, b)),
                _ => None,
            }
        },
        None => None,
    }
}

/// An event of today as the summary lists it: its title, whether it lasts
/// the whole day, and its local start time written `HH:MM`.
pub struct SummaryItem {
    pub title: String,
    pub all_day: bool,
    pub hm: String,
}

pub struct SummaryItemV {
    pub title: Seq<char>,
    pub all_day: bool,
    pub hm: Seq<char>,
}

impl View for SummaryItem {
    type V = SummaryItemV;

    open spec fn view(&self) -> SummaryItemV {
        SummaryItemV { title: self.title@, all_day: self.all_day, hm: self.hm@ }
    }
}

/// The daily summary notification.
pub struct Summary {
    pub title: String,
    pub body: String,
}

/// A cached event as the machine's clock sees it: its title, start and
/// whether it lasts all day, the date it falls on (`YYYY-MM-DD`: the UTC
/// date of an all-day event, the local date of a timed one) and its local
/// start time written `HH:MM`.
pub struct DayEvent {
    pub title: String,
    pub start_ts: i64,
    pub all_day: bool,
    pub day: String,
    pub hm: String,
}

impl Ranked for DayEvent {
    open spec fn precedes(a: DayEvent, b: DayEvent) -> bool {
        a.start_ts <= b.start_ts
    }

    proof fn lemma_total(a: DayEvent, b: DayEvent) {
    }

    proof fn lemma_transitive(a: DayEvent, b: DayEvent, c: DayEvent) {
    }

    fn comes_before(&self, other: &DayEvent) -> (r: bool) {
        self.start_ts <= other.start_ts
    }
}

/// The events of `evs` that fall on `today`, in order.
pub open spec fn events_on(evs: Seq<DayEvent>, today: Seq<char>) -> Seq<DayEvent>
    decreases evs.len(),
{
    if evs.len() == 0 {
        Seq::empty()
    } else if evs.last().day@ == today {
        events_on(evs.drop_last(), today).push(evs.last())
    } else {
        events_on(evs.drop_last(), today)
    }
}

/// How an event of today appears in the summary.
pub open spec fn summary_item_of(e: DayEvent) -> SummaryItemV {
    SummaryItemV { title: e.title@, all_day: e.all_day, hm: e.hm@ }
}

fn copy_day_event(e: &DayEvent) -> (r: DayEvent)
    ensures
        r == *e,
{
    DayEvent {
        title: e.title.clone(),
        start_ts: e.start_ts,
        all_day: e.all_day,
        day: e.day.clone(),
        hm: e.hm.clone(),
    }
}

/// The events of the daily summary: those that fall on `today`, earliest
/// first (events that start together come in either order).
pub fn summary_items(events: &Vec<DayEvent>, today: &str) -> (r: Vec<SummaryItem>)
    ensures
        exists|sel: Seq<DayEvent>|
            {
                &&& sel.to_multiset() == events_on(events@, today@).to_multiset()
                &&& sorted(sel)
                &&& r@.map_values(|it: SummaryItem| it@) == sel.map_values(
                    |e: DayEvent| summary_item_of(e),
                )
            },
{
    let t = String::from_str(today);
    let mut mine: Vec<DayEvent> = Vec::new();
    let mut i: usize = 0;
    while i < events.len()
        invariant
            i <= events@.len(),
            t@ == today@,
            mine@ == events_on(events@.take(i as int), today@),
        decreases events@.len() - i,
    {
        assert(events@.take(i + 1).drop_last() =~= events@.take(i as int));
        if events[i].day == t {
            mine.push(copy_day_event(&events[i]));
        }
        i = i + 1;
    }
    assert(events@.take(events@.len() as int) =~= events@);
    let sel = sort_rows(mine);
    let mut r: Vec<SummaryItem> = Vec::new();
    let mut j: usize = 0;
    while j < sel.len()
        invariant
            j <= sel@.len(),
            r@.len() == j,
            forall|k: int| 0 <= k < j ==> #[trigger] r@[k]@ == summary_item_of(sel@[k]),
        decreases sel@.len() - j,
    {
        let e = &sel[j];
        r.push(SummaryItem { title: e.title.clone(), all_day: e.all_day, hm: e.hm.clone() });
        j = j + 1;
    }
    assert(r@.map_values(|it: SummaryItem| it@) =~= sel@.map_values(|e: DayEvent| summary_item_of(e)));
    r
}

/// The time of the summary: the saved `HH:MM`, or 08:00 when it does not
/// read as one.
pub open spec fn summary_time(settings: Map<Seq<char>, SettingRowV>) -> (int, int) {
    match hhmm_of(setting_or(settings, "daily_summary_time"@, DEFAULT_SUMMARY_TIME@)) {
        Some(p) => p,
        None => (8, 0),
    }
}

/// The summary is sent now: it is enabled, its time is a valid time of day
/// that `secs` (seconds since local midnight) has reached, and it was not
/// sent on `today` yet.
pub open spec fn summary_due(settings: Map<Seq<char>, SettingRowV>, today: Seq<char>, secs: int) -> bool {
    let t = summary_time(settings);
    &&& setting_or(settings, "daily_summary_enabled"@, "false"@) != "false"@
    &&& t.0 < 24
    &&& t.1 < 60
    &&& secs >= t.0 * 3600 + t.1 * 60
    &&& setting_or(settings, "daily_summary_last"@, ""@) != today
}

/// One line of the summary.
pub open spec fn summary_line(it: SummaryItemV) -> Seq<char> {
    if it.all_day {
        "• "@ + it.title
    } else {
        it.hm + " "@ + it.title
    }
}

/// The lines of the summary: the first ten events, then how many more.
pub open spec fn summary_lines(items: Seq<SummaryItemV>) -> Seq<Seq<char>> {
    let listed = if items.len() > 10 {
        10
    } else {
        items.len() as int
    };
    let lines = items.take(listed).map_values(|it: SummaryItemV| summary_line(it));
    if items.len() > 10 {
        lines.push("+"@ + decimal_chars((items.len() - 10) as nat) + " mais"@)
    } else {
        lines
    }
}

/// The title of the summary of `n` events.
pub open spec fn summary_title(n: nat) -> Seq<char> {
    "Resumo de hoje — "@ + decimal_chars(n) + " evento(s)"@
}

/// The daily summary, once a day at the configured time: `today` names the
/// local date, `secs_of_day` is the local time in seconds since midnight,
/// and `items` are today's events. When it is due the day is recorded as
/// done (even with no events); the notification comes only when there are
/// events.
pub fn maybe_daily_summary(db: &mut Db, today: &str, secs_of_day: u32, items: &Vec<SummaryItem>) -> (r:
    Option<Summary>)
    requires
        old(db).well_formed(),
    ensures
        final(db).well_formed(),
        r is Some <==> summary_due(old(db)@.settings, today@, secs_of_day as int) && items@.len() > 0,
        r matches Some(sm) ==> sm.title@ == summary_title(items@.len()) && sm.body@ == join(
            summary_lines(items@.map_values(|it: SummaryItem| it@)),
            seq!['\n'],
        ),
        final(db)@.settings == (if summary_due(old(db)@.settings, today@, secs_of_day as int) {
            old(db)@.settings.insert(
                "daily_summary_last"@,
                SettingRowV { key: "daily_summary_last"@, value: today@ },
            )
        } else {
            old(db)@.settings
        }),
        final(db)@.accounts == old(db)@.accounts,
        final(db)@.calendars == old(db)@.calendars,
        final(db)@.events == old(db)@.events,
{
    let on = get_setting(db, "daily_summary_enabled", "false");
    let off = String::from_str("false");
    if on == off {
        return None;
    }
    let t = get_setting(db, "daily_summary_time", DEFAULT_SUMMARY_TIME);
    let (hh, mm) = match parse_hhmm(t.as_str()) {
        Some(p) => p,
        None => (8, 0),
    };
    if hh >= 24 || mm >= 60 {
        return None;
    }
    if (secs_of_day as u64) < (hh as u64) * 3600 + (mm as u64) * 60 {
        return None;
    }
    let last = get_setting(db, "daily_summary_last", "");
    let day = String::from_str(today);
    if last == day {
        return None;
    }
    set_setting(db, "daily_summary_last", today);
    let n = items.len();
    if n == 0 {
        return None;
    }
    let ghost views = items@.map_values(|it: SummaryItem| it@);
    let listed: usize = if n > 10 {
        10
    } else {
        n
    };
    let mut lines: Vec<Vec<char>> = Vec::new();
    let mut k: usize = 0;
    assert(lines@.map_values(|p: Vec<char>| p@) =~= views.take(0).map_values(
        |it: SummaryItemV| summary_line(it),
    ));
    while k < listed
        invariant
            k <= listed,
            listed <= items@.len(),
            listed == (if items@.len() > 10 { 10 } else { items@.len() }),
            views == items@.map_values(|it: SummaryItem| it@),
            lines@.len() == k,
            lines@.map_values(|p: Vec<char>| p@) == views.take(k as int).map_values(
                |it: SummaryItemV| summary_line(it),
            ),
        decreases listed - k,
    {
        let it = &items[k];
        let line = if it.all_day {
            let mut l = String::from_str("• ");
            l.append(it.title.as_str());
            l
        } else {
            let mut l = it.hm.clone();
            l.append(" ");
            l.append(it.title.as_str());
            l
        };
        assert(line@ == summary_line(views[k as int]));
        let ghost before = lines@;
        lines.push(chars_of(line.as_str()));
        assert(lines@.map_values(|p: Vec<char>| p@) =~= views.take(k + 1).map_values(
            |it: SummaryItemV| summary_line(it),
        )) by {
            let lhs = lines@.map_values(|p: Vec<char>| p@);
            let rhs = views.take(k + 1).map_values(|it: SummaryItemV| summary_line(it));
            assert(lines@[k as int]@ == line@);
            assert forall|j: int| 0 <= j < k + 1 implies lhs[j] == rhs[j] by {
                if j < k {
                    assert(lines@[j] == before[j]);
                    assert(before.map_values(|p: Vec<char>| p@)[j] == before[j]@);
                }
            }
            assert(lhs.len() == k + 1);
            assert(rhs.len() == k + 1);
        }
        k = k + 1;
    }
    if n > 10 {
        let mut l = String::from_str("+");
        let more = decimal_string((n - 10) as u64);
        l.append(more.as_str());
        l.append(" mais");
        let ghost before = lines@;
        lines.push(chars_of(l.as_str()));
        assert(lines@.map_values(|p: Vec<char>| p@) =~= before.map_values(|p: Vec<char>| p@).push(l@));
    }
    assert(lines@.map_values(|p: Vec<char>| p@) =~= summary_lines(views));
    let mut sep: Vec<char> = Vec::new();
    sep.push('\n');
    assert(sep@ =~= seq!['\n']);
    let body = string_from_chars(&join_chars(&lines, &sep));
    let mut title = String::from_str("Resumo de hoje — ");
    let count = decimal_string(n as u64);
    title.append(count.as_str());
    title.append(" evento(s)");
    Some(Summary { title, body })
}

// ---------------------------------------------------------------------------
// a reminder is shown once
// ---------------------------------------------------------------------------

/// The notice `n` is about the event whose key is `k`.
pub open spec fn notice_key(n: NoticeV) -> (Seq<char>, Seq<char>, Seq<char>) {
    (n.account_email, n.calendar_id, n.id)
}

/// Every due notice is about `e`, with a reminder of `leads` not in `fired`.
proof fn lemma_due_source(e: EventV, fired: Set<int>, leads: Seq<i64>, now: int, k: int)
    requires
        0 <= k < due_notices(e, fired, leads, now).len(),
    ensures
        notice_key(due_notices(e, fired, leads, now)[k]) == (e.account_email, e.calendar_id, e.id),
        !fired.contains(due_notices(e, fired, leads, now)[k].lead),
        e.start_ts - 60 * due_notices(e, fired, leads, now)[k].lead <= now,
        i64::MIN <= due_notices(e, fired, leads, now)[k].lead <= i64::MAX,
    decreases leads.len(),
{
    let rest = due_notices(e, fired, leads.drop_last(), now);
    if k < rest.len() {
        lemma_due_source(e, fired, leads.drop_last(), now, k);
    }
}

/// Every notice of a tick comes from a pending cached event with the same
/// key, whose record does not hold the notice's reminder; the index of that
/// event is returned.
proof fn lemma_tick_source(
    rows: Seq<EventRowV>,
    settings: Map<Seq<char>, SettingRowV>,
    now: int,
    ignore_declined: bool,
    k: int,
) -> (i: int)
    requires
        0 <= k < tick_notices(rows, settings, now, ignore_declined).len(),
    ensures
        0 <= i < rows.len(),
        is_pending(rows[i], now),
        notice_key(tick_notices(rows, settings, now, ignore_declined)[k]) == (
            rows[i].event.account_email,
            rows[i].event.calendar_id,
            rows[i].event.id,
        ),
        !fired_set(rows[i].notified_leads).contains(
            tick_notices(rows, settings, now, ignore_declined)[k].lead,
        ),
        rows[i].event.start_ts - 60 * tick_notices(rows, settings, now, ignore_declined)[k].lead
            <= now,
        i64::MIN <= tick_notices(rows, settings, now, ignore_declined)[k].lead <= i64::MAX,
    decreases rows.len(),
{
    let rest = tick_notices(rows.drop_last(), settings, now, ignore_declined);
    let all = tick_notices(rows, settings, now, ignore_declined);
    if k < rest.len() {
        let i = lemma_tick_source(rows.drop_last(), settings, now, ignore_declined, k);
        assert(all[k] == rest[k]);
        i
    } else {
        let r = rows.last();
        let leads = account_leads(settings, r.event.account_email, global_leads(settings));
        assert(all == rest + row_notices(r, leads, now, ignore_declined));
        lemma_due_source(r.event, fired_set(r.notified_leads), leads, now, k - rest.len());
        rows.len() - 1
    }
}

/// Recording notices leaves each recorded reminder in its event's record.
proof fn lemma_recorded_holds(
    m: Map<(Seq<char>, Seq<char>, Seq<char>), EventRowV>,
    ns: Seq<NoticeV>,
    t: int,
)
    requires
        forall|u: int| 0 <= u < ns.len() ==> i64::MIN <= #[trigger] ns[u].lead <= i64::MAX,
        0 <= t < ns.len(),
        m.contains_key(notice_key(ns[t])),
    ensures
        notices_recorded(m, ns).contains_key(notice_key(ns[t])),
        fired_set(notices_recorded(m, ns)[notice_key(ns[t])].notified_leads).contains(ns[t].lead),
    decreases ns.len(),
{
    let key = notice_key(ns[t]);
    let n = ns.last();
    assert(ns[ns.len() - 1] == n);
    let prev = notices_recorded(m, ns.drop_last());
    if t == ns.len() - 1 {
        lemma_recorded_grows_dom(m, ns.drop_last(), key);
        lemma_fired_with_lead(prev[key].notified_leads, n.lead);
    } else {
        assert(ns.drop_last()[t] == ns[t]);
        lemma_recorded_holds(m, ns.drop_last(), t);
        if notice_key(n) == key {
            lemma_fired_with_lead(prev[key].notified_leads, n.lead);
        }
    }
}

/// Recording notices keeps every event.
proof fn lemma_recorded_grows_dom(
    m: Map<(Seq<char>, Seq<char>, Seq<char>), EventRowV>,
    ns: Seq<NoticeV>,
    key: (Seq<char>, Seq<char>, Seq<char>),
)
    requires
        m.contains_key(key),
    ensures
        notices_recorded(m, ns).contains_key(key),
    decreases ns.len(),
{
    if ns.len() > 0 {
        lemma_recorded_grows_dom(m, ns.drop_last(), key);
    }
}

/// A tick shows a reminder only inside its window: every notice is about a
/// timed cached event that has not started (`now < start`), whose reminder
/// time has come (`start - lead minutes <= now`), and whose record does not
/// hold that reminder yet.
pub proof fn law_tick_window(
    rows: Seq<EventRowV>,
    settings: Map<Seq<char>, SettingRowV>,
    now: int,
    ignore_declined: bool,
    k: int,
)
    requires
        0 <= k < tick_notices(rows, settings, now, ignore_declined).len(),
    ensures
        exists|i: int|
            0 <= i < rows.len() && #[trigger] is_pending(rows[i], now) && notice_key(
                tick_notices(rows, settings, now, ignore_declined)[k],
            ) == (rows[i].event.account_email, rows[i].event.calendar_id, rows[i].event.id)
                && rows[i].event.start_ts - 60 * tick_notices(rows, settings, now, ignore_declined)[k].lead
                <= now && !fired_set(rows[i].notified_leads).contains(
                tick_notices(rows, settings, now, ignore_declined)[k].lead,
            ),
{
    let i = lemma_tick_source(rows, settings, now, ignore_declined, k);
    assert(is_pending(rows[i], now));
}

/// No reminder comes from a calendar that is no longer followed, nor from
/// an account that was removed: once the cached events of calendar `c` of
/// account `a` were dropped (or all those of `a`), a tick shows none about
/// them.
pub proof fn law_dropped_events_silent(
    before: Db,
    after: Db,
    a: Seq<char>,
    c: Seq<char>,
    whole_account: bool,
    now: int,
    ignore_declined: bool,
    k: int,
)
    requires
        after.well_formed(),
        after@.events == before@.events.restrict(
            if whole_account {
                events_not_of(a)
            } else {
                events_not_of_calendar(a, c)
            },
        ),
        0 <= k < tick_notices(row_views(after.events@), after@.settings, now, ignore_declined).len(),
    ensures
        ({
            let n = tick_notices(row_views(after.events@), after@.settings, now, ignore_declined)[k];
            !(n.account_email == a && (whole_account || n.calendar_id == c))
        }),
{
    let i = lemma_tick_source(row_views(after.events@), after@.settings, now, ignore_declined, k);
    lemma_table_at(after.events@, i);
    assert(row_views(after.events@)[i] == after.events@[i]@);
}

/// Every reminder recorded for an event in `m1` is still recorded for it in
/// `m2`, wherever `m2` still holds that event.
pub open spec fn shown_kept(
    m1: Map<(Seq<char>, Seq<char>, Seq<char>), EventRowV>,
    m2: Map<(Seq<char>, Seq<char>, Seq<char>), EventRowV>,
) -> bool {
    forall|k: (Seq<char>, Seq<char>, Seq<char>), x: int|
        #![trigger fired_set(m1[k].notified_leads).contains(x), fired_set(m2[k].notified_leads).contains(x)]
        m1.contains_key(k) && m2.contains_key(k) && fired_set(m1[k].notified_leads).contains(x)
            ==> fired_set(m2[k].notified_leads).contains(x)
}

/// Recording one reminder keeps every event and every reminder recorded.
proof fn lemma_lead_recorded_keeps(
    m: Map<(Seq<char>, Seq<char>, Seq<char>), EventRowV>,
    n: NoticeV,
)
    requires
        i64::MIN <= n.lead <= i64::MAX,
    ensures
        lead_recorded(m, n.account_email, n.calendar_id, n.id, n.lead).dom() == m.dom(),
        shown_kept(m, lead_recorded(m, n.account_email, n.calendar_id, n.id, n.lead)),
{
    let r = lead_recorded(m, n.account_email, n.calendar_id, n.id, n.lead);
    let key = notice_key(n);
    if m.contains_key(key) {
        lemma_fired_with_lead(m[key].notified_leads, n.lead);
        assert(r.dom() =~= m.dom());
    }
}

/// Recording notices keeps every event and only adds to the reminders
/// recorded for each.
pub proof fn law_recording_keeps_shown(
    m: Map<(Seq<char>, Seq<char>, Seq<char>), EventRowV>,
    ns: Seq<NoticeV>,
)
    requires
        forall|t: int| 0 <= t < ns.len() ==> i64::MIN <= #[trigger] ns[t].lead <= i64::MAX,
    ensures
        notices_recorded(m, ns).dom() == m.dom(),
        shown_kept(m, notices_recorded(m, ns)),
    decreases ns.len(),
{
    if ns.len() > 0 {
        let rest = ns.drop_last();
        assert forall|t: int| 0 <= t < rest.len() implies i64::MIN <= #[trigger] rest[t].lead <= i64::MAX by {
            assert(rest[t] == ns[t]);
        }
        law_recording_keeps_shown(m, rest);
        let prev = notices_recorded(m, rest);
        let n = ns.last();
        assert(ns[ns.len() - 1] == n);
        lemma_lead_recorded_keeps(prev, n);
        law_shown_kept_chain(m, prev, notices_recorded(m, ns));
    }
}

/// A tick keeps every cached event and only adds to the reminders recorded
/// for each.
pub proof fn law_tick_keeps_shown(
    rows: Seq<EventRowV>,
    m: Map<(Seq<char>, Seq<char>, Seq<char>), EventRowV>,
    settings: Map<Seq<char>, SettingRowV>,
    now: int,
    ignore_declined: bool,
)
    ensures
        notices_recorded(m, tick_notices(rows, settings, now, ignore_declined)).dom() == m.dom(),
        shown_kept(m, notices_recorded(m, tick_notices(rows, settings, now, ignore_declined))),
{
    let ns = tick_notices(rows, settings, now, ignore_declined);
    assert forall|u: int| 0 <= u < ns.len() implies i64::MIN <= #[trigger] ns[u].lead <= i64::MAX by {
        lemma_tick_source(rows, settings, now, ignore_declined, u);
    }
    law_recording_keeps_shown(m, ns);
}

/// A store keeps its own reminders (nothing changed, nothing lost).
pub proof fn law_shown_kept_same(m: Map<(Seq<char>, Seq<char>, Seq<char>), EventRowV>)
    ensures
        shown_kept(m, m),
{
}

/// Keeping reminders chains, as long as an event held at both ends was not
/// dropped (and so lost its record) in between.
pub proof fn law_shown_kept_chain(
    m1: Map<(Seq<char>, Seq<char>, Seq<char>), EventRowV>,
    m2: Map<(Seq<char>, Seq<char>, Seq<char>), EventRowV>,
    m3: Map<(Seq<char>, Seq<char>, Seq<char>), EventRowV>,
)
    requires
        shown_kept(m1, m2),
        shown_kept(m2, m3),
        forall|k: (Seq<char>, Seq<char>, Seq<char>)|
            m1.contains_key(k) && m3.contains_key(k) ==> #[trigger] m2.contains_key(k),
    ensures
        shown_kept(m1, m3),
{
    assert forall|k: (Seq<char>, Seq<char>, Seq<char>), x: int|
        m1.contains_key(k) && m3.contains_key(k) && #[trigger] fired_set(m1[k].notified_leads).contains(x)
        implies #[trigger] fired_set(m3[k].notified_leads).contains(x) by {
        assert(m2.contains_key(k));
        assert(fired_set(m2[k].notified_leads).contains(x));
    }
}

/// A reminder is shown once: once a tick has shown a reminder and recorded
/// it, no tick shows it again, on any later store that still holds what that
/// tick recorded (after further ticks, and after syncs that did not move
/// the event), at whatever time and with whatever settings.
pub proof fn law_reminder_shown_once(
    before: Db,
    later: Db,
    now1: int,
    ignore1: bool,
    now2: int,
    ignore2: bool,
    i: int,
    j: int,
)
    requires
        before.well_formed(),
        later.well_formed(),
        shown_kept(
            notices_recorded(
                before@.events,
                tick_notices(row_views(before.events@), before@.settings, now1, ignore1),
            ),
            later@.events,
        ),
        0 <= i < tick_notices(row_views(before.events@), before@.settings, now1, ignore1).len(),
        0 <= j < tick_notices(row_views(later.events@), later@.settings, now2, ignore2).len(),
    ensures
        ({
            let shown = tick_notices(row_views(before.events@), before@.settings, now1, ignore1)[i];
            let again = tick_notices(row_views(later.events@), later@.settings, now2, ignore2)[j];
            !(notice_key(again) == notice_key(shown) && again.lead == shown.lead)
        }),
{
    let ns = tick_notices(row_views(before.events@), before@.settings, now1, ignore1);
    let ms = tick_notices(row_views(later.events@), later@.settings, now2, ignore2);
    let recorded = notices_recorded(before@.events, ns);
    let shown = ns[i];
    let again = ms[j];
    assert forall|u: int| 0 <= u < ns.len() implies i64::MIN <= #[trigger] ns[u].lead <= i64::MAX by {
        lemma_tick_source(row_views(before.events@), before@.settings, now1, ignore1, u);
    }
    let a = lemma_tick_source(row_views(before.events@), before@.settings, now1, ignore1, i);
    lemma_table_at(before.events@, a);
    assert(row_views(before.events@)[a] == before.events@[a]@);
    lemma_recorded_holds(before@.events, ns, i);
    let b = lemma_tick_source(row_views(later.events@), later@.settings, now2, ignore2, j);
    lemma_table_at(later.events@, b);
    assert(row_views(later.events@)[b] == later.events@[b]@);
    if notice_key(again) == notice_key(shown) && again.lead == shown.lead {
        let k = notice_key(shown);
        assert(fired_set(recorded[k].notified_leads).contains(shown.lead));
        assert(fired_set(later@.events[k].notified_leads).contains(shown.lead));
    }
}

} // verus!
