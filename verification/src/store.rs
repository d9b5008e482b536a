//! The local store: accounts, calendars, cached events and settings.
//!
//! Each table is a vector of rows with a unique primary key; its view is a
//! map from key to row.  Every operation states what it does to those maps
//! (or, for queries, which rows come back and in what order).
use vstd::prelude::*;
use vstd::string::StringExecFns;
use crate::table::{
    Row, has_key, lemma_table_at, lemma_table_empty, lemma_table_push, lemma_table_update,
    lemma_take_all, lemma_retain_step, table, unique_keys,
};
use crate::order::{Ranked, lemma_map_values_multiset, sort_rows, sorted};
use crate::text::{
    chars_lex_le, chars_of, int_string, lemma_lex_total, lemma_lex_transitive, lex_le,
};
use crate::reminders::with_lead;

verus! {

// ---------------------------------------------------------------------------
// rows
// ---------------------------------------------------------------------------

/// An account as the UI lists it.
pub struct Account {
    pub email: String,
    pub display_name: String,
    pub needs_reauth: bool,
}

/// The stored account row: an `Account` plus when it was first connected.
pub struct AccountRow {
    pub email: String,
    pub display_name: String,
    pub created_at: i64,
    pub needs_reauth: bool,
}

/// A calendar of an account, and whether the user follows it.
pub struct Calendar {
    pub id: String,
    pub account_email: String,
    pub summary: String,
    pub selected: bool,
    pub is_primary: bool,
    pub color: String,
}

/// A cached event of a calendar.
pub struct Event {
    pub id: String,
    pub calendar_id: String,
    pub account_email: String,
    pub title: String,
    pub start_ts: i64,
    pub end_ts: i64,
    pub all_day: bool,
    pub status: String,
    pub html_link: String,
    pub declined: bool,
}

/// The stored event row: the event, whether its single reminder was already
/// shown, and the reminders (minutes before the start) already fired, written
/// as decimal numbers separated by commas.
pub struct EventRow {
    pub event: Event,
    pub notified: bool,
    pub notified_leads: String,
}

/// A setting: key and value.
pub struct SettingRow {
    pub key: String,
    pub value: String,
}

/// An event whose reminder is due.
pub struct DueEvent {
    pub account_email: String,
    pub calendar_id: String,
    pub id: String,
    pub title: String,
    pub start_ts: i64,
}

/// An upcoming event with the color and name of its calendar.
pub struct UpcomingEvent {
    pub id: String,
    pub account_email: String,
    pub title: String,
    pub start_ts: i64,
    pub end_ts: i64,
    pub all_day: bool,
    pub html_link: String,
    pub color: String,
    pub calendar_summary: String,
    pub declined: bool,
}

// ---------------------------------------------------------------------------
// views
// ---------------------------------------------------------------------------

pub struct AccountV {
    pub email: Seq<char>,
    pub display_name: Seq<char>,
    pub needs_reauth: bool,
}

pub struct AccountRowV {
    pub email: Seq<char>,
    pub display_name: Seq<char>,
    pub created_at: int,
    pub needs_reauth: bool,
}

pub struct CalendarV {
    pub id: Seq<char>,
    pub account_email: Seq<char>,
    pub summary: Seq<char>,
    pub selected: bool,
    pub is_primary: bool,
    pub color: Seq<char>,
}

pub struct EventV {
    pub id: Seq<char>,
    pub calendar_id: Seq<char>,
    pub account_email: Seq<char>,
    pub title: Seq<char>,
    pub start_ts: int,
    pub end_ts: int,
    pub all_day: bool,
    pub status: Seq<char>,
    pub html_link: Seq<char>,
    pub declined: bool,
}

pub struct EventRowV {
    pub event: EventV,
    pub notified: bool,
    pub notified_leads: Seq<char>,
}

pub struct SettingRowV {
    pub key: Seq<char>,
    pub value: Seq<char>,
}

pub struct DueEventV {
    pub account_email: Seq<char>,
    pub calendar_id: Seq<char>,
    pub id: Seq<char>,
    pub title: Seq<char>,
    pub start_ts: int,
}

pub struct UpcomingEventV {
    pub id: Seq<char>,
    pub account_email: Seq<char>,
    pub title: Seq<char>,
    pub start_ts: int,
    pub end_ts: int,
    pub all_day: bool,
    pub html_link: Seq<char>,
    pub color: Seq<char>,
    pub calendar_summary: Seq<char>,
    pub declined: bool,
}

impl View for Account {
    type V = AccountV;

    open spec fn view(&self) -> AccountV {
        AccountV {
            email: self.email@,
            display_name: self.display_name@,
            needs_reauth: self.needs_reauth,
        }
    }
}

impl View for AccountRow {
    type V = AccountRowV;

    open spec fn view(&self) -> AccountRowV {
        AccountRowV {
            email: self.email@,
            display_name: self.display_name@,
            created_at: self.created_at as int,
            needs_reauth: self.needs_reauth,
        }
    }
}

impl View for Calendar {
    type V = CalendarV;

    open spec fn view(&self) -> CalendarV {
        CalendarV {
            id: self.id@,
            account_email: self.account_email@,
            summary: self.summary@,
            selected: self.selected,
            is_primary: self.is_primary,
            color: self.color@,
        }
    }
}

impl View for Event {
    type V = EventV;

    open spec fn view(&self) -> EventV {
        EventV {
            id: self.id@,
            calendar_id: self.calendar_id@,
            account_email: self.account_email@,
            title: self.title@,
            start_ts: self.start_ts as int,
            end_ts: self.end_ts as int,
            all_day: self.all_day,
            status: self.status@,
            html_link: self.html_link@,
            declined: self.declined,
        }
    }
}

impl View for EventRow {
    type V = EventRowV;

    open spec fn view(&self) -> EventRowV {
        EventRowV {
            event: self.event@,
            notified: self.notified,
            notified_leads: self.notified_leads@,
        }
    }
}

impl View for SettingRow {
    type V = SettingRowV;

    open spec fn view(&self) -> SettingRowV {
        SettingRowV { key: self.key@, value: self.value@ }
    }
}

impl View for DueEvent {
    type V = DueEventV;

    open spec fn view(&self) -> DueEventV {
        DueEventV {
            account_email: self.account_email@,
            calendar_id: self.calendar_id@,
            id: self.id@,
            title: self.title@,
            start_ts: self.start_ts as int,
        }
    }
}

impl View for UpcomingEvent {
    type V = UpcomingEventV;

    open spec fn view(&self) -> UpcomingEventV {
        UpcomingEventV {
            id: self.id@,
            account_email: self.account_email@,
            title: self.title@,
            start_ts: self.start_ts as int,
            end_ts: self.end_ts as int,
            all_day: self.all_day,
            html_link: self.html_link@,
            color: self.color@,
            calendar_summary: self.calendar_summary@,
            declined: self.declined,
        }
    }
}

impl Row for AccountRow {
    type Key = Seq<char>;

    open spec fn key(&self) -> Seq<char> {
        self.email@
    }
}

impl Row for Calendar {
    type Key = (Seq<char>, Seq<char>);

    open spec fn key(&self) -> (Seq<char>, Seq<char>) {
        (self.account_email@, self.id@)
    }
}

impl Row for EventRow {
    type Key = (Seq<char>, Seq<char>, Seq<char>);

    open spec fn key(&self) -> (Seq<char>, Seq<char>, Seq<char>) {
        (self.event.account_email@, self.event.calendar_id@, self.event.id@)
    }
}

impl Row for SettingRow {
    type Key = Seq<char>;

    open spec fn key(&self) -> Seq<char> {
        self.key@
    }
}

// ---------------------------------------------------------------------------
// the database
// ---------------------------------------------------------------------------

/// The four tables of the store.
pub struct Db {
    pub accounts: Vec<AccountRow>,
    pub calendars: Vec<Calendar>,
    pub events: Vec<EventRow>,
    pub settings: Vec<SettingRow>,
}

/// The store as four maps from primary key to row.
pub struct DbV {
    pub accounts: Map<Seq<char>, AccountRowV>,
    pub calendars: Map<(Seq<char>, Seq<char>), CalendarV>,
    pub events: Map<(Seq<char>, Seq<char>, Seq<char>), EventRowV>,
    pub settings: Map<Seq<char>, SettingRowV>,
}

impl View for Db {
    type V = DbV;

    open spec fn view(&self) -> DbV {
        DbV {
            accounts: table(self.accounts@),
            calendars: table(self.calendars@),
            events: table(self.events@),
            settings: table(self.settings@),
        }
    }
}

impl Db {
    /// Every table holds each primary key at most once.
    pub open spec fn well_formed(&self) -> bool {
        &&& unique_keys(self.accounts@)
        &&& unique_keys(self.calendars@)
        &&& unique_keys(self.events@)
        &&& unique_keys(self.settings@)
    }
}

/// A fresh store: the tables exist and are empty.
pub fn init() -> (db: Db)
    ensures
        db.well_formed(),
        db@.accounts == Map::<Seq<char>, AccountRowV>::empty(),
        db@.calendars == Map::<(Seq<char>, Seq<char>), CalendarV>::empty(),
        db@.events == Map::<(Seq<char>, Seq<char>, Seq<char>), EventRowV>::empty(),
        db@.settings == Map::<Seq<char>, SettingRowV>::empty(),
{
    let db = Db {
        accounts: Vec::new(),
        calendars: Vec::new(),
        events: Vec::new(),
        settings: Vec::new(),
    };
    proof {
        lemma_table_empty(db.accounts@);
        lemma_table_empty(db.calendars@);
        lemma_table_empty(db.events@);
        lemma_table_empty(db.settings@);
    }
    db
}

// ---------------------------------------------------------------------------
// settings
// ---------------------------------------------------------------------------

/// The stored value of `key`, or `default` when there is none.
pub open spec fn setting_or(settings: Map<Seq<char>, SettingRowV>, key: Seq<char>, default: Seq<char>) -> Seq<char> {
    if settings.contains_key(key) {
        settings[key].value
    } else {
        default
    }
}

/// Index of the setting row with key `key`, if any.
fn find_setting(rows: &Vec<SettingRow>, key: &String) -> (r: Option<usize>)
    ensures
        r matches Some(i) ==> i < rows@.len() && rows@[i as int].key() == key@,
        r is None ==> !has_key(rows@, key@),
{
    let mut i: usize = 0;
    while i < rows.len()
        invariant
            i <= rows@.len(),
            forall|j: int| 0 <= j < i ==> rows@[j].key() != key@,
        decreases rows@.len() - i,
    {
        if rows[i].key == *key {
            return Some(i);
        }
        i = i + 1;
    }
    None
}

/// The value of setting `key`, or `default` when it was never set.
pub fn get_setting(db: &Db, key: &str, default: &str) -> (r: String)
    requires
        db.well_formed(),
    ensures
        r@ == setting_or(db@.settings, key@, default@),
{
    let k = String::from_str(key);
    match find_setting(&db.settings, &k) {
        Some(i) => {
            proof {
                lemma_table_at(db.settings@, i as int);
            }
            db.settings[i].value.clone()
        },
        None => String::from_str(default),
    }
}

/// Stores `value` under `key`, replacing what was there.
pub fn set_setting(db: &mut Db, key: &str, value: &str)
    requires
        old(db).well_formed(),
    ensures
        final(db).well_formed(),
        final(db)@.settings == old(db)@.settings.insert(
            key@,
            SettingRowV { key: key@, value: value@ },
        ),
        final(db)@.accounts == old(db)@.accounts,
        final(db)@.calendars == old(db)@.calendars,
        final(db)@.events == old(db)@.events,
{
    let k = String::from_str(key);
    let row = SettingRow { key: String::from_str(key), value: String::from_str(value) };
    match find_setting(&db.settings, &k) {
        Some(i) => {
            proof {
                lemma_table_update(db.settings@, i as int, row);
            }
            db.settings.set(i, row);
        },
        None => {
            proof {
                lemma_table_push(db.settings@, row);
            }
            db.settings.push(row);
        },
    }
}


// ---------------------------------------------------------------------------
// accounts
// ---------------------------------------------------------------------------

/// Index of the account row of `email`, if any.
fn find_account(rows: &Vec<AccountRow>, email: &String) -> (r: Option<usize>)
    ensures
        r matches Some(i) ==> i < rows@.len() && rows@[i as int].key() == email@,
        r is None ==> !has_key(rows@, email@),
{
    let mut i: usize = 0;
    while i < rows.len()
        invariant
            i <= rows@.len(),
            forall|j: int| 0 <= j < i ==> rows@[j].key() != email@,
        decreases rows@.len() - i,
    {
        if rows[i].email == *email {
            return Some(i);
        }
        i = i + 1;
    }
    None
}

/// Connects (or reconnects) an account: stores its name and clears
/// `needs_reauth`; an account seen for the first time is dated `now`.
pub fn upsert_account(db: &mut Db, email: &str, display_name: &str, now: i64)
    requires
        old(db).well_formed(),
    ensures
        final(db).well_formed(),
        final(db)@.accounts == old(db)@.accounts.insert(
            email@,
            AccountRowV {
                email: email@,
                display_name: display_name@,
                created_at: if old(db)@.accounts.contains_key(email@) {
                    old(db)@.accounts[email@].created_at
                } else {
                    now as int
                },
                needs_reauth: false,
            },
        ),
        final(db)@.calendars == old(db)@.calendars,
        final(db)@.events == old(db)@.events,
        final(db)@.settings == old(db)@.settings,
{
    let e = String::from_str(email);
    match find_account(&db.accounts, &e) {
        Some(i) => {
            let created_at = db.accounts[i].created_at;
            proof {
                lemma_table_at(db.accounts@, i as int);
            }
            let row = AccountRow {
                email: e,
                display_name: String::from_str(display_name),
                created_at,
                needs_reauth: false,
            };
            proof {
                lemma_table_update(db.accounts@, i as int, row);
            }
            db.accounts.set(i, row);
        },
        None => {
            let row = AccountRow {
                email: e,
                display_name: String::from_str(display_name),
                created_at: now,
                needs_reauth: false,
            };
            proof {
                lemma_table_push(db.accounts@, row);
            }
            db.accounts.push(row);
        },
    }
}

/// The accounts after `needs_reauth` of `email` became `needs` (an unknown
/// account changes nothing).
pub open spec fn reauth_set(m: Map<Seq<char>, AccountRowV>, email: Seq<char>, needs: bool) -> Map<
    Seq<char>,
    AccountRowV,
> {
    if m.contains_key(email) {
        m.insert(email, AccountRowV { needs_reauth: needs, ..m[email] })
    } else {
        m
    }
}

/// Marks (or clears) that the account must be connected again; an unknown
/// account leaves the store unchanged.
pub fn set_account_reauth(db: &mut Db, email: &str, needs: bool)
    requires
        old(db).well_formed(),
    ensures
        final(db).well_formed(),
        final(db)@.accounts == reauth_set(old(db)@.accounts, email@, needs),
        final(db)@.calendars == old(db)@.calendars,
        final(db)@.events == old(db)@.events,
        final(db)@.settings == old(db)@.settings,
{
    let e = String::from_str(email);
    match find_account(&db.accounts, &e) {
        Some(i) => {
            proof {
                lemma_table_at(db.accounts@, i as int);
            }
            let row = AccountRow {
                email: db.accounts[i].email.clone(),
                display_name: db.accounts[i].display_name.clone(),
                created_at: db.accounts[i].created_at,
                needs_reauth: needs,
            };
            proof {
                lemma_table_update(db.accounts@, i as int, row);
            }
            db.accounts.set(i, row);
        },
        None => {},
    }
}

/// The public part of an account row.
pub open spec fn account_of(a: AccountRow) -> Account {
    Account { email: a.email, display_name: a.display_name, needs_reauth: a.needs_reauth }
}

impl Ranked for AccountRow {
    open spec fn precedes(a: AccountRow, b: AccountRow) -> bool {
        a.created_at <= b.created_at
    }

    proof fn lemma_total(a: AccountRow, b: AccountRow) {
    }

    proof fn lemma_transitive(a: AccountRow, b: AccountRow, c: AccountRow) {
    }

    fn comes_before(&self, other: &AccountRow) -> (r: bool) {
        self.created_at <= other.created_at
    }
}

/// `acc` is the account row `a` as listed: its address, name and
/// reconnection flag.
pub open spec fn presents(acc: Account, a: AccountRow) -> bool {
    acc.email@ == a.email@ && acc.display_name@ == a.display_name@ && acc.needs_reauth == a.needs_reauth
}

/// Some row of `stored` is the account that `acc` presents.
pub open spec fn presents_stored(acc: Account, stored: Seq<AccountRow>) -> bool {
    exists|j: int| 0 <= j < stored.len() && #[trigger] presents(acc, stored[j])
}

/// Some account of `listed` presents the row `a`.
pub open spec fn presented_in(a: AccountRow, listed: Seq<Account>) -> bool {
    exists|k: int| 0 <= k < listed.len() && #[trigger] presents(listed[k], a)
}

/// All accounts, oldest connection first (`ORDER BY created_at`; accounts
/// connected in the same second come in either order).
pub fn list_accounts(db: &Db) -> (r: Vec<Account>)
    ensures
        exists|rows: Seq<AccountRow>|
            {
                &&& rows.to_multiset() == db.accounts@.to_multiset()
                &&& sorted(rows)
                &&& r@ == rows.map_values(|a: AccountRow| account_of(a))
            },
        r@.len() == db.accounts@.len(),
        forall|k: int| 0 <= k < r@.len() ==> presents_stored(#[trigger] r@[k], db.accounts@),
        forall|j: int| 0 <= j < db.accounts@.len() ==> presented_in(#[trigger] db.accounts@[j], r@),
{
    let mut copies: Vec<AccountRow> = Vec::new();
    let mut i: usize = 0;
    while i < db.accounts.len()
        invariant
            i <= db.accounts@.len(),
            copies@ == db.accounts@.take(i as int),
        decreases db.accounts@.len() - i,
    {
        copies.push(copy_account_row(&db.accounts[i]));
        i = i + 1;
        assert(copies@ =~= db.accounts@.take(i as int));
    }
    proof {
        lemma_take_all(db.accounts@);
    }
    let rows = sort_rows(copies);
    let mut r: Vec<Account> = Vec::new();
    let mut j: usize = 0;
    while j < rows.len()
        invariant
            j <= rows@.len(),
            r@ == rows@.take(j as int).map_values(|a: AccountRow| account_of(a)),
        decreases rows@.len() - j,
    {
        let a = &rows[j];
        r.push(
            Account {
                email: a.email.clone(),
                display_name: a.display_name.clone(),
                needs_reauth: a.needs_reauth,
            },
        );
        j = j + 1;
        assert(r@ =~= rows@.take(j as int).map_values(|a: AccountRow| account_of(a)));
    }
    proof {
        broadcast use vstd::seq_lib::group_to_multiset_ensures;

        lemma_take_all(rows@);
        let stored = db.accounts@;
        assert(rows@.len() == rows@.to_multiset().len());
        assert(stored.len() == stored.to_multiset().len());
        assert forall|k: int| 0 <= k < r@.len() implies presents_stored(#[trigger] r@[k], stored) by {
            let x = rows@[k];
            assert(rows@.contains(x));
            assert(rows@.to_multiset().count(x) > 0);
            assert(stored.contains(x));
            let j = choose|j: int| 0 <= j < stored.len() && stored[j] == x;
            assert(presents(r@[k], stored[j]));
        }
        assert forall|j: int| 0 <= j < stored.len() implies presented_in(#[trigger] stored[j], r@) by {
            let x = stored[j];
            assert(stored.contains(x));
            assert(stored.to_multiset().count(x) > 0);
            assert(rows@.contains(x));
            let k = choose|k: int| 0 <= k < rows@.len() && rows@[k] == x;
            assert(presents(r@[k], stored[j]));
        }
    }
    r
}

/// The keys of calendars that do not belong to `email`.
pub open spec fn calendars_not_of(email: Seq<char>) -> Set<(Seq<char>, Seq<char>)> {
    Set::new(|k: (Seq<char>, Seq<char>)| k.0 != email)
}

/// The keys of events that do not belong to `email`.
pub open spec fn events_not_of(email: Seq<char>) -> Set<(Seq<char>, Seq<char>, Seq<char>)> {
    Set::new(|k: (Seq<char>, Seq<char>, Seq<char>)| k.0 != email)
}

/// The keys of events that do not belong to calendar `id` of `email`.
pub open spec fn events_not_of_calendar(email: Seq<char>, id: Seq<char>) -> Set<
    (Seq<char>, Seq<char>, Seq<char>),
> {
    Set::new(|k: (Seq<char>, Seq<char>, Seq<char>)| !(k.0 == email && k.1 == id))
}

/// A copy of an event.
pub fn copy_event(e: &Event) -> (r: Event)
    ensures
        r == *e,
{
    Event {
        id: e.id.clone(),
        calendar_id: e.calendar_id.clone(),
        account_email: e.account_email.clone(),
        title: e.title.clone(),
        start_ts: e.start_ts,
        end_ts: e.end_ts,
        all_day: e.all_day,
        status: e.status.clone(),
        html_link: e.html_link.clone(),
        declined: e.declined,
    }
}

/// A copy of a calendar.
pub fn copy_calendar(c: &Calendar) -> (r: Calendar)
    ensures
        r == *c,
{
    Calendar {
        id: c.id.clone(),
        account_email: c.account_email.clone(),
        summary: c.summary.clone(),
        selected: c.selected,
        is_primary: c.is_primary,
        color: c.color.clone(),
    }
}

/// A copy of an account row.
fn copy_account_row(a: &AccountRow) -> (r: AccountRow)
    ensures
        r == *a,
{
    AccountRow {
        email: a.email.clone(),
        display_name: a.display_name.clone(),
        created_at: a.created_at,
        needs_reauth: a.needs_reauth,
    }
}

/// The event rows kept when those of `email` (of its calendar `calendar`
/// only, when given) are dropped.
fn events_without(rows: &Vec<EventRow>, email: &String, calendar: Option<&String>) -> (r: Vec<
    EventRow,
>)
    requires
        unique_keys(rows@),
    ensures
        unique_keys(r@),
        table(r@) == table(rows@).restrict(
            match calendar {
                Some(c) => events_not_of_calendar(email@, c@),
                None => events_not_of(email@),
            },
        ),
{
    let ghost keep = match calendar {
        Some(c) => events_not_of_calendar(email@, c@),
        None => events_not_of(email@),
    };
    let mut out: Vec<EventRow> = Vec::new();
    let mut i: usize = 0;
    proof {
        lemma_table_empty(out@);
        lemma_table_take_zero(rows@);
        assert(table(out@) =~= table(rows@.take(0)).restrict(keep));
    }
    while i < rows.len()
        invariant
            i <= rows@.len(),
            unique_keys(rows@),
            unique_keys(out@),
            table(out@) == table(rows@.take(i as int)).restrict(keep),
            keep == (match calendar {
                Some(c) => events_not_of_calendar(email@, c@),
                None => events_not_of(email@),
            }),
        decreases rows@.len() - i,
    {
        let row = &rows[i];
        let drop = row.event.account_email == *email && match calendar {
            Some(c) => row.event.calendar_id == *c,
            None => true,
        };
        proof {
            lemma_retain_step(rows@, i as int, out@, keep);
        }
        if !drop {
            out.push(
                EventRow {
                    event: copy_event(&row.event),
                    notified: row.notified,
                    notified_leads: row.notified_leads.clone(),
                },
            );
        }
        i = i + 1;
    }
    proof {
        lemma_take_all(rows@);
    }
    out
}

/// The table of the empty prefix is empty.
proof fn lemma_table_take_zero<R: Row>(rows: Seq<R>)
    ensures
        table(rows.take(0)) == Map::<R::Key, R::V>::empty(),
{
    assert(table(rows.take(0)) =~= Map::<R::Key, R::V>::empty());
}

/// The calendar rows of accounts other than `email`.
fn calendars_without(rows: &Vec<Calendar>, email: &String) -> (r: Vec<Calendar>)
    requires
        unique_keys(rows@),
    ensures
        unique_keys(r@),
        table(r@) == table(rows@).restrict(calendars_not_of(email@)),
{
    let ghost keep = calendars_not_of(email@);
    let mut out: Vec<Calendar> = Vec::new();
    let mut i: usize = 0;
    proof {
        lemma_table_empty(out@);
        lemma_table_take_zero(rows@);
        assert(table(out@) =~= table(rows@.take(0)).restrict(keep));
    }
    while i < rows.len()
        invariant
            i <= rows@.len(),
            unique_keys(rows@),
            unique_keys(out@),
            table(out@) == table(rows@.take(i as int)).restrict(keep),
            keep == calendars_not_of(email@),
        decreases rows@.len() - i,
    {
        let row = &rows[i];
        proof {
            lemma_retain_step(rows@, i as int, out@, keep);
        }
        if !(row.account_email == *email) {
            out.push(copy_calendar(row));
        }
        i = i + 1;
    }
    proof {
        lemma_take_all(rows@);
    }
    out
}

/// The account rows other than that of `email`.
fn accounts_without(rows: &Vec<AccountRow>, email: &String) -> (r: Vec<AccountRow>)
    requires
        unique_keys(rows@),
    ensures
        unique_keys(r@),
        table(r@) == table(rows@).remove(email@),
{
    let ghost keep = Set::new(|k: Seq<char>| k != email@);
    let mut out: Vec<AccountRow> = Vec::new();
    let mut i: usize = 0;
    proof {
        lemma_table_empty(out@);
        lemma_table_take_zero(rows@);
        assert(table(out@) =~= table(rows@.take(0)).restrict(keep));
    }
    while i < rows.len()
        invariant
            i <= rows@.len(),
            unique_keys(rows@),
            unique_keys(out@),
            table(out@) == table(rows@.take(i as int)).restrict(keep),
            keep == Set::new(|k: Seq<char>| k != email@),
        decreases rows@.len() - i,
    {
        let row = &rows[i];
        proof {
            lemma_retain_step(rows@, i as int, out@, keep);
        }
        if !(row.email == *email) {
            out.push(copy_account_row(row));
        }
        i = i + 1;
    }
    proof {
        lemma_take_all(rows@);
    }
    assert(table(rows@).restrict(keep) =~= table(rows@).remove(email@));
    out
}

/// Removes an account with its calendars and cached events.
pub fn delete_account(db: &mut Db, email: &str)
    requires
        old(db).well_formed(),
    ensures
        final(db).well_formed(),
        final(db)@.accounts == old(db)@.accounts.remove(email@),
        final(db)@.calendars == old(db)@.calendars.restrict(calendars_not_of(email@)),
        final(db)@.events == old(db)@.events.restrict(events_not_of(email@)),
        forall|k: (Seq<char>, Seq<char>)|
            #[trigger] final(db)@.calendars.contains_key(k) ==> k.0 != email@,
        forall|k: (Seq<char>, Seq<char>)|
            old(db)@.calendars.contains_key(k) && k.0 != email@ ==> #[trigger] final(db)@.calendars.contains_key(k)
                && final(db)@.calendars[k] == old(db)@.calendars[k],
        forall|k: (Seq<char>, Seq<char>, Seq<char>)|
            #[trigger] final(db)@.events.contains_key(k) ==> k.0 != email@,
        forall|k: (Seq<char>, Seq<char>, Seq<char>)|
            old(db)@.events.contains_key(k) && k.0 != email@ ==> #[trigger] final(db)@.events.contains_key(k)
                && final(db)@.events[k] == old(db)@.events[k],
        final(db)@.settings == old(db)@.settings,
{
    let e = String::from_str(email);
    let events = events_without(&db.events, &e, None);
    let calendars = calendars_without(&db.calendars, &e);
    let accounts = accounts_without(&db.accounts, &e);
    db.events = events;
    db.calendars = calendars;
    db.accounts = accounts;
}

// ---------------------------------------------------------------------------
// calendars
// ---------------------------------------------------------------------------

/// Index of calendar `id` of `email`, if any.
fn find_calendar(rows: &Vec<Calendar>, email: &String, id: &String) -> (r: Option<usize>)
    ensures
        r matches Some(i) ==> i < rows@.len() && rows@[i as int].key() == (email@, id@),
        r is None ==> !has_key(rows@, (email@, id@)),
{
    let mut i: usize = 0;
    while i < rows.len()
        invariant
            i <= rows@.len(),
            forall|j: int| 0 <= j < i ==> rows@[j].key() != (email@, id@),
        decreases rows@.len() - i,
    {
        if rows[i].account_email == *email && rows[i].id == *id {
            return Some(i);
        }
        i = i + 1;
    }
    None
}

/// Records a calendar of an account.  Name, primary flag and color are
/// updated; whether the user follows it (`selected`) is kept for a known
/// calendar and is `default_selected` for a new one.
pub fn upsert_calendar(
    db: &mut Db,
    account_email: &str,
    id: &str,
    summary: &str,
    is_primary: bool,
    default_selected: bool,
    color: &str,
)
    requires
        old(db).well_formed(),
    ensures
        final(db).well_formed(),
        final(db)@.calendars == old(db)@.calendars.insert(
            (account_email@, id@),
            CalendarV {
                id: id@,
                account_email: account_email@,
                summary: summary@,
                selected: if old(db)@.calendars.contains_key((account_email@, id@)) {
                    old(db)@.calendars[(account_email@, id@)].selected
                } else {
                    default_selected
                },
                is_primary,
                color: color@,
            },
        ),
        final(db)@.accounts == old(db)@.accounts,
        final(db)@.events == old(db)@.events,
        final(db)@.settings == old(db)@.settings,
{
    let e = String::from_str(account_email);
    let k = String::from_str(id);
    match find_calendar(&db.calendars, &e, &k) {
        Some(i) => {
            proof {
                lemma_table_at(db.calendars@, i as int);
            }
            let selected = db.calendars[i].selected;
            let row = Calendar {
                id: k,
                account_email: e,
                summary: String::from_str(summary),
                selected,
                is_primary,
                color: String::from_str(color),
            };
            proof {
                lemma_table_update(db.calendars@, i as int, row);
            }
            db.calendars.set(i, row);
        },
        None => {
            let row = Calendar {
                id: k,
                account_email: e,
                summary: String::from_str(summary),
                selected: default_selected,
                is_primary,
                color: String::from_str(color),
            };
            proof {
                lemma_table_push(db.calendars@, row);
            }
            db.calendars.push(row);
        },
    }
}

/// Follows (or stops following) calendar `id` of `account_email`; an unknown
/// calendar leaves the store unchanged.
pub fn set_calendar_selected(db: &mut Db, account_email: &str, id: &str, selected: bool)
    requires
        old(db).well_formed(),
    ensures
        final(db).well_formed(),
        final(db)@.calendars == (if old(db)@.calendars.contains_key((account_email@, id@)) {
            old(db)@.calendars.insert(
                (account_email@, id@),
                CalendarV { selected, ..old(db)@.calendars[(account_email@, id@)] },
            )
        } else {
            old(db)@.calendars
        }),
        final(db)@.accounts == old(db)@.accounts,
        final(db)@.events == old(db)@.events,
        final(db)@.settings == old(db)@.settings,
{
    let e = String::from_str(account_email);
    let k = String::from_str(id);
    match find_calendar(&db.calendars, &e, &k) {
        Some(i) => {
            proof {
                lemma_table_at(db.calendars@, i as int);
            }
            let mut row = copy_calendar(&db.calendars[i]);
            row.selected = selected;
            proof {
                lemma_table_update(db.calendars@, i as int, row);
            }
            db.calendars.set(i, row);
        },
        None => {},
    }
}

impl Ranked for Calendar {
    /// Primary calendar first, then by name (`ORDER BY is_primary DESC, summary`).
    open spec fn precedes(a: Calendar, b: Calendar) -> bool {
        ||| (a.is_primary && !b.is_primary)
        ||| (a.is_primary == b.is_primary && lex_le(a.summary@, b.summary@))
    }

    proof fn lemma_total(a: Calendar, b: Calendar) {
        lemma_lex_total(a.summary@, b.summary@);
    }

    proof fn lemma_transitive(a: Calendar, b: Calendar, c: Calendar) {
        if a.is_primary == b.is_primary && b.is_primary == c.is_primary {
            lemma_lex_transitive(a.summary@, b.summary@, c.summary@);
        }
    }

    fn comes_before(&self, other: &Calendar) -> (r: bool) {
        if self.is_primary != other.is_primary {
            self.is_primary
        } else {
            let a = chars_of(self.summary.as_str());
            let b = chars_of(other.summary.as_str());
            chars_lex_le(&a, &b)
        }
    }
}

/// The rows of `rows` that belong to `email`, in table order.
pub open spec fn calendars_of(rows: Seq<Calendar>, email: Seq<char>) -> Seq<Calendar>
    decreases rows.len(),
{
    if rows.len() == 0 {
        Seq::empty()
    } else if rows.last().account_email@ == email {
        calendars_of(rows.drop_last(), email).push(rows.last())
    } else {
        calendars_of(rows.drop_last(), email)
    }
}

/// The rows of `rows` that the user follows, in table order.
pub open spec fn selected_of(rows: Seq<Calendar>) -> Seq<Calendar>
    decreases rows.len(),
{
    if rows.len() == 0 {
        Seq::empty()
    } else if rows.last().selected {
        selected_of(rows.drop_last()).push(rows.last())
    } else {
        selected_of(rows.drop_last())
    }
}

/// An account's calendars are exactly its stored calendars: each one listed
/// is a stored row of that account, and each stored row of that account is
/// listed.
pub proof fn law_calendars_of_account(rows: Seq<Calendar>, email: Seq<char>)
    ensures
        forall|k: int|
            0 <= k < calendars_of(rows, email).len() ==> (#[trigger] calendars_of(rows, email)[k]).account_email@
                == email && rows.contains(calendars_of(rows, email)[k]),
        forall|j: int|
            0 <= j < rows.len() && (#[trigger] rows[j]).account_email@ == email ==> calendars_of(
                rows,
                email,
            ).contains(rows[j]),
    decreases rows.len(),
{
    if rows.len() > 0 {
        let init = rows.drop_last();
        law_calendars_of_account(init, email);
        let rest = calendars_of(init, email);
        let out = calendars_of(rows, email);
        assert forall|k: int| 0 <= k < out.len() implies (#[trigger] out[k]).account_email@ == email
            && rows.contains(out[k]) by {
            if k < rest.len() {
                assert(out[k] == rest[k]);
                let j = choose|j: int| 0 <= j < init.len() && init[j] == rest[k];
                assert(rows[j] == init[j]);
            } else {
                assert(out[k] == rows[rows.len() - 1]);
            }
        }
        assert forall|j: int| 0 <= j < rows.len() && (#[trigger] rows[j]).account_email@ == email implies out.contains(
            rows[j],
        ) by {
            if j < rows.len() - 1 {
                assert(init[j] == rows[j]);
                assert(rest.contains(init[j]));
                let k = choose|k: int| 0 <= k < rest.len() && rest[k] == init[j];
                assert(out[k] == rest[k]);
            } else {
                assert(out[out.len() - 1] == rows[j]);
            }
        }
    }
}

/// The followed calendars are exactly the stored calendars marked as
/// followed: each one listed is a stored, followed row, and each stored,
/// followed row is listed.
pub proof fn law_followed_calendars(rows: Seq<Calendar>)
    ensures
        forall|k: int|
            0 <= k < selected_of(rows).len() ==> (#[trigger] selected_of(rows)[k]).selected
                && rows.contains(selected_of(rows)[k]),
        forall|j: int| 0 <= j < rows.len() && (#[trigger] rows[j]).selected ==> selected_of(rows).contains(rows[j]),
    decreases rows.len(),
{
    if rows.len() > 0 {
        let init = rows.drop_last();
        law_followed_calendars(init);
        let rest = selected_of(init);
        let out = selected_of(rows);
        assert forall|k: int| 0 <= k < out.len() implies (#[trigger] out[k]).selected && rows.contains(
            out[k],
        ) by {
            if k < rest.len() {
                assert(out[k] == rest[k]);
                let j = choose|j: int| 0 <= j < init.len() && init[j] == rest[k];
                assert(rows[j] == init[j]);
            } else {
                assert(out[k] == rows[rows.len() - 1]);
            }
        }
        assert forall|j: int| 0 <= j < rows.len() && (#[trigger] rows[j]).selected implies out.contains(rows[j]) by {
            if j < rows.len() - 1 {
                assert(init[j] == rows[j]);
                assert(rest.contains(init[j]));
                let k = choose|k: int| 0 <= k < rest.len() && rest[k] == init[j];
                assert(out[k] == rest[k]);
            } else {
                assert(out[out.len() - 1] == rows[j]);
            }
        }
    }
}

/// The calendars of an account, primary first, then by name.
pub fn list_calendars(db: &Db, account_email: &str) -> (r: Vec<Calendar>)
    ensures
        r@.to_multiset() == calendars_of(db.calendars@, account_email@).to_multiset(),
        sorted(r@),
        forall|k: int|
            0 <= k < r@.len() ==> (#[trigger] r@[k]).account_email@ == account_email@
                && db.calendars@.contains(r@[k]),
        forall|j: int|
            0 <= j < db.calendars@.len() && (#[trigger] db.calendars@[j]).account_email@
                == account_email@ ==> r@.contains(db.calendars@[j]),
{
    let e = String::from_str(account_email);
    let mut mine: Vec<Calendar> = Vec::new();
    let mut i: usize = 0;
    while i < db.calendars.len()
        invariant
            i <= db.calendars@.len(),
            mine@ == calendars_of(db.calendars@.take(i as int), account_email@),
            e@ == account_email@,
        decreases db.calendars@.len() - i,
    {
        assert(db.calendars@.take(i + 1).drop_last() =~= db.calendars@.take(i as int));
        if db.calendars[i].account_email == e {
            mine.push(copy_calendar(&db.calendars[i]));
        }
        i = i + 1;
    }
    proof {
        lemma_take_all(db.calendars@);
    }
    let r = sort_rows(mine);
    proof {
        broadcast use vstd::seq_lib::group_to_multiset_ensures;

        let mine_all = calendars_of(db.calendars@, account_email@);
        law_calendars_of_account(db.calendars@, account_email@);
        assert forall|k: int| 0 <= k < r@.len() implies (#[trigger] r@[k]).account_email@
            == account_email@ && db.calendars@.contains(r@[k]) by {
            let x = r@[k];
            assert(r@.contains(x));
            assert(r@.to_multiset().count(x) > 0);
            assert(mine_all.contains(x));
            let i = choose|i: int| 0 <= i < mine_all.len() && mine_all[i] == x;
            assert(mine_all[i].account_email@ == account_email@);
        }
        assert forall|j: int|
            0 <= j < db.calendars@.len() && (#[trigger] db.calendars@[j]).account_email@
                == account_email@ implies r@.contains(db.calendars@[j]) by {
            let x = db.calendars@[j];
            assert(mine_all.contains(x));
            assert(mine_all.to_multiset().count(x) > 0);
            assert(r@.to_multiset().count(x) > 0);
        }
    }
    r
}

/// Every followed calendar, of all accounts.
pub fn selected_calendars(db: &Db) -> (r: Vec<Calendar>)
    ensures
        r@ == selected_of(db.calendars@),
        forall|k: int|
            0 <= k < r@.len() ==> (#[trigger] r@[k]).selected && db.calendars@.contains(r@[k]),
        forall|j: int|
            0 <= j < db.calendars@.len() && (#[trigger] db.calendars@[j]).selected ==> r@.contains(
                db.calendars@[j],
            ),
{
    let mut out: Vec<Calendar> = Vec::new();
    let mut i: usize = 0;
    while i < db.calendars.len()
        invariant
            i <= db.calendars@.len(),
            out@ == selected_of(db.calendars@.take(i as int)),
        decreases db.calendars@.len() - i,
    {
        assert(db.calendars@.take(i + 1).drop_last() =~= db.calendars@.take(i as int));
        if db.calendars[i].selected {
            out.push(copy_calendar(&db.calendars[i]));
        }
        i = i + 1;
    }
    proof {
        lemma_take_all(db.calendars@);
        law_followed_calendars(db.calendars@);
    }
    out
}

// ---------------------------------------------------------------------------
// events
// ---------------------------------------------------------------------------

/// The key of event `e` of calendar `c` of account `a`.
pub open spec fn event_key(a: Seq<char>, c: Seq<char>, e: EventV) -> (Seq<char>, Seq<char>, Seq<char>) {
    (a, c, e.id)
}

/// One fetched event written into the table: its fields replace the stored
/// ones; its reminder state (notified, fired reminders) is kept only if it
/// was stored before and its start did not move, and is cleared otherwise.
pub open spec fn upsert_event(
    m: Map<(Seq<char>, Seq<char>, Seq<char>), EventRowV>,
    a: Seq<char>,
    c: Seq<char>,
    e: EventV,
) -> Map<(Seq<char>, Seq<char>, Seq<char>), EventRowV> {
    let k = event_key(a, c, e);
    let same = m.contains_key(k) && m[k].event.start_ts == e.start_ts;
    m.insert(
        k,
        EventRowV {
            event: EventV { calendar_id: c, account_email: a, ..e },
            notified: same && m[k].notified,
            notified_leads: if same {
                m[k].notified_leads
            } else {
                Seq::empty()
            },
        },
    )
}

/// The fetched events written one after the other.
pub open spec fn upsert_events(
    m: Map<(Seq<char>, Seq<char>, Seq<char>), EventRowV>,
    a: Seq<char>,
    c: Seq<char>,
    evs: Seq<EventV>,
) -> Map<(Seq<char>, Seq<char>, Seq<char>), EventRowV>
    decreases evs.len(),
{
    if evs.len() == 0 {
        m
    } else {
        upsert_event(upsert_events(m, a, c, evs.drop_last()), a, c, evs.last())
    }
}

/// Some fetched event has id `id`.
pub open spec fn fetched_id(evs: Seq<EventV>, id: Seq<char>) -> bool {
    exists|i: int| 0 <= i < evs.len() && evs[i].id == id
}

/// The keys that survive a refresh of calendar `c` of `a`: those of other
/// calendars and those of fetched events.
pub open spec fn kept_after_refresh(a: Seq<char>, c: Seq<char>, evs: Seq<EventV>) -> Set<
    (Seq<char>, Seq<char>, Seq<char>),
> {
    Set::new(|k: (Seq<char>, Seq<char>, Seq<char>)| !(k.0 == a && k.1 == c) || fetched_id(evs, k.2))
}

/// The event table after the events of calendar `c` of `a` were refreshed
/// with `evs`.
pub open spec fn refreshed_events(
    m: Map<(Seq<char>, Seq<char>, Seq<char>), EventRowV>,
    a: Seq<char>,
    c: Seq<char>,
    evs: Seq<EventV>,
) -> Map<(Seq<char>, Seq<char>, Seq<char>), EventRowV> {
    upsert_events(m, a, c, evs).restrict(kept_after_refresh(a, c, evs))
}

/// Index of event `id` of calendar `c` of `a`, if cached.
fn find_event(rows: &Vec<EventRow>, a: &String, c: &String, id: &String) -> (r: Option<usize>)
    ensures
        r matches Some(i) ==> i < rows@.len() && rows@[i as int].key() == (a@, c@, id@),
        r is None ==> !has_key(rows@, (a@, c@, id@)),
{
    let mut i: usize = 0;
    while i < rows.len()
        invariant
            i <= rows@.len(),
            forall|j: int| 0 <= j < i ==> rows@[j].key() != (a@, c@, id@),
        decreases rows@.len() - i,
    {
        let ev = &rows[i].event;
        if ev.account_email == *a && ev.calendar_id == *c && ev.id == *id {
            return Some(i);
        }
        i = i + 1;
    }
    None
}

/// Whether some event of `evs` has id `id`.
fn has_fetched_id(evs: &Vec<Event>, id: &String) -> (r: bool)
    ensures
        r == fetched_id(evs@.map_values(|e: Event| e@), id@),
{
    let ghost vs = evs@.map_values(|e: Event| e@);
    let mut i: usize = 0;
    while i < evs.len()
        invariant
            i <= evs@.len(),
            vs == evs@.map_values(|e: Event| e@),
            forall|j: int| 0 <= j < i ==> vs[j].id != id@,
        decreases evs@.len() - i,
    {
        if evs[i].id == *id {
            assert(vs[i as int].id == id@);
            return true;
        }
        i = i + 1;
    }
    false
}

/// Refreshes the cached events of calendar `calendar_id` of `account_email`
/// with the fetched `events`: each is written (its reminder state kept only
/// if its start did not move), and the cached events of that calendar that
/// were not fetched are removed.
pub fn replace_events(db: &mut Db, account_email: &str, calendar_id: &str, events: &Vec<Event>)
    requires
        old(db).well_formed(),
    ensures
        final(db).well_formed(),
        final(db)@.events == refreshed_events(
            old(db)@.events,
            account_email@,
            calendar_id@,
            events@.map_values(|e: Event| e@),
        ),
        final(db)@.accounts == old(db)@.accounts,
        final(db)@.calendars == old(db)@.calendars,
        final(db)@.settings == old(db)@.settings,
{
    let a = String::from_str(account_email);
    let c = String::from_str(calendar_id);
    let ghost evs = events@.map_values(|e: Event| e@);
    let ghost start = old(db)@.events;
    let mut i: usize = 0;
    while i < events.len()
        invariant
            i <= events@.len(),
            a@ == account_email@,
            c@ == calendar_id@,
            evs == events@.map_values(|e: Event| e@),
            db.well_formed(),
            db@.events == upsert_events(start, a@, c@, evs.take(i as int)),
            db@.accounts == old(db)@.accounts,
            db@.calendars == old(db)@.calendars,
            db@.settings == old(db)@.settings,
        decreases events@.len() - i,
    {
        assert(evs.take(i + 1).drop_last() =~= evs.take(i as int));
        assert(evs.take(i + 1).last() == events@[i as int]@);
        let e = &events[i];
        let found = find_event(&db.events, &a, &c, &e.id);
        let mut ev = copy_event(e);
        ev.account_email = a.clone();
        ev.calendar_id = c.clone();
        match found {
            Some(j) => {
                proof {
                    lemma_table_at(db.events@, j as int);
                }
                let same = db.events[j].event.start_ts == e.start_ts;
                let leads = if same {
                    db.events[j].notified_leads.clone()
                } else {
                    String::new()
                };
                let row = EventRow {
                    event: ev,
                    notified: same && db.events[j].notified,
                    notified_leads: leads,
                };
                proof {
                    lemma_table_update(db.events@, j as int, row);
                }
                db.events.set(j, row);
            },
            None => {
                let row = EventRow { event: ev, notified: false, notified_leads: String::new() };
                proof {
                    lemma_table_push(db.events@, row);
                }
                db.events.push(row);
            },
        }
        i = i + 1;
    }
    assert(evs.take(events@.len() as int) =~= evs);
    // drop the cached events of this calendar that were not fetched
    let ghost keep = kept_after_refresh(a@, c@, evs);
    let ghost rows = db.events@;
    let mut out: Vec<EventRow> = Vec::new();
    let mut k: usize = 0;
    proof {
        lemma_table_empty(out@);
        lemma_table_take_zero(rows);
        assert(table(out@) =~= table(rows.take(0)).restrict(keep));
    }
    while k < db.events.len()
        invariant
            k <= db.events@.len(),
            rows == db.events@,
            unique_keys(rows),
            unique_keys(out@),
            table(out@) == table(rows.take(k as int)).restrict(keep),
            keep == kept_after_refresh(a@, c@, evs),
            evs == events@.map_values(|e: Event| e@),
        decreases db.events@.len() - k,
    {
        let row = &db.events[k];
        let ours = row.event.account_email == a && row.event.calendar_id == c;
        let drop = ours && !has_fetched_id(events, &row.event.id);
        proof {
            lemma_retain_step(rows, k as int, out@, keep);
        }
        if !drop {
            out.push(
                EventRow {
                    event: copy_event(&row.event),
                    notified: row.notified,
                    notified_leads: row.notified_leads.clone(),
                },
            );
        }
        k = k + 1;
    }
    proof {
        lemma_take_all(rows);
    }
    db.events = out;
}

/// Removes the cached events of one calendar (used when it is unfollowed).
pub fn delete_events_for_calendar(db: &mut Db, account_email: &str, calendar_id: &str)
    requires
        old(db).well_formed(),
    ensures
        final(db).well_formed(),
        final(db)@.events == old(db)@.events.restrict(
            events_not_of_calendar(account_email@, calendar_id@),
        ),
        forall|k: (Seq<char>, Seq<char>, Seq<char>)|
            #[trigger] final(db)@.events.contains_key(k) ==> !(k.0 == account_email@ && k.1 == calendar_id@),
        forall|k: (Seq<char>, Seq<char>, Seq<char>)|
            old(db)@.events.contains_key(k) && !(k.0 == account_email@ && k.1 == calendar_id@)
                ==> #[trigger] final(db)@.events.contains_key(k) && final(db)@.events[k] == old(db)@.events[k],
        final(db)@.accounts == old(db)@.accounts,
        final(db)@.calendars == old(db)@.calendars,
        final(db)@.settings == old(db)@.settings,
{
    let a = String::from_str(account_email);
    let c = String::from_str(calendar_id);
    let events = events_without(&db.events, &a, Some(&c));
    db.events = events;
}

/// Marks an event as notified; an unknown event leaves the store unchanged.
pub fn mark_notified(db: &mut Db, account_email: &str, calendar_id: &str, id: &str)
    requires
        old(db).well_formed(),
    ensures
        final(db).well_formed(),
        final(db)@.events == (if old(db)@.events.contains_key((account_email@, calendar_id@, id@)) {
            old(db)@.events.insert(
                (account_email@, calendar_id@, id@),
                EventRowV {
                    notified: true,
                    ..old(db)@.events[(account_email@, calendar_id@, id@)]
                },
            )
        } else {
            old(db)@.events
        }),
        final(db)@.accounts == old(db)@.accounts,
        final(db)@.calendars == old(db)@.calendars,
        final(db)@.settings == old(db)@.settings,
{
    let a = String::from_str(account_email);
    let c = String::from_str(calendar_id);
    let k = String::from_str(id);
    match find_event(&db.events, &a, &c, &k) {
        Some(j) => {
            proof {
                lemma_table_at(db.events@, j as int);
            }
            let row = EventRow {
                event: copy_event(&db.events[j].event),
                notified: true,
                notified_leads: db.events[j].notified_leads.clone(),
            };
            proof {
                lemma_table_update(db.events@, j as int, row);
            }
            db.events.set(j, row);
        },
        None => {},
    }
}

/// The event table after the reminder `lead` of event `(a, c, id)` was
/// recorded as fired; an unknown event leaves it unchanged.
pub open spec fn lead_recorded(
    m: Map<(Seq<char>, Seq<char>, Seq<char>), EventRowV>,
    a: Seq<char>,
    c: Seq<char>,
    id: Seq<char>,
    lead: int,
) -> Map<(Seq<char>, Seq<char>, Seq<char>), EventRowV> {
    let k = (a, c, id);
    if m.contains_key(k) {
        m.insert(k, EventRowV { notified_leads: with_lead(m[k].notified_leads, lead), ..m[k] })
    } else {
        m
    }
}

/// Records that the reminder `lead` minutes before event `id` of calendar
/// `calendar_id` of `account_email` was fired.
pub fn add_notified_lead(db: &mut Db, account_email: &str, calendar_id: &str, id: &str, lead: i64)
    requires
        old(db).well_formed(),
    ensures
        final(db).well_formed(),
        final(db)@.events == lead_recorded(
            old(db)@.events,
            account_email@,
            calendar_id@,
            id@,
            lead as int,
        ),
        final(db)@.accounts == old(db)@.accounts,
        final(db)@.calendars == old(db)@.calendars,
        final(db)@.settings == old(db)@.settings,
{
    let a = String::from_str(account_email);
    let c = String::from_str(calendar_id);
    let k = String::from_str(id);
    match find_event(&db.events, &a, &c, &k) {
        Some(j) => {
            proof {
                lemma_table_at(db.events@, j as int);
            }
            let written = int_string(lead);
            let nothing = String::new();
            let leads = if db.events[j].notified_leads == nothing {
                written
            } else {
                let mut l = db.events[j].notified_leads.clone();
                proof {
                    reveal_strlit(",");
                }
                assert(","@ =~= seq![',']);
                assert(db.events@[j as int].notified_leads@.len() != 0) by {
                    if db.events@[j as int].notified_leads@.len() == 0 {
                        assert(db.events@[j as int].notified_leads@ =~= nothing@);
                    }
                }
                l.append(",");
                l.append(written.as_str());
                assert(l@ =~= with_lead(db.events@[j as int].notified_leads@, lead as int));
                l
            };
            assert(leads@ =~= with_lead(db.events@[j as int].notified_leads@, lead as int));
            let row = EventRow {
                event: copy_event(&db.events[j].event),
                notified: db.events[j].notified,
                notified_leads: leads,
            };
            proof {
                lemma_table_update(db.events@, j as int, row);
            }
            db.events.set(j, row);
        },
        None => {},
    }
}

impl Ranked for DueEvent {
    open spec fn precedes(a: DueEvent, b: DueEvent) -> bool {
        a.start_ts <= b.start_ts
    }

    proof fn lemma_total(a: DueEvent, b: DueEvent) {
    }

    proof fn lemma_transitive(a: DueEvent, b: DueEvent, c: DueEvent) {
    }

    fn comes_before(&self, other: &DueEvent) -> (r: bool) {
        self.start_ts <= other.start_ts
    }
}

impl Ranked for UpcomingEvent {
    open spec fn precedes(a: UpcomingEvent, b: UpcomingEvent) -> bool {
        a.start_ts <= b.start_ts
    }

    proof fn lemma_total(a: UpcomingEvent, b: UpcomingEvent) {
    }

    proof fn lemma_transitive(a: UpcomingEvent, b: UpcomingEvent, c: UpcomingEvent) {
    }

    fn comes_before(&self, other: &UpcomingEvent) -> (r: bool) {
        self.start_ts <= other.start_ts
    }
}

/// The reminder window of a timed, not yet notified event has opened:
/// `start - lead <= now < start`.
pub open spec fn is_due(r: EventRow, lead: int, now: int) -> bool {
    &&& !r.event.all_day
    &&& !r.notified
    &&& r.event.start_ts - lead <= now
    &&& r.event.start_ts > now
}

/// The due events of `rows`, in table order.
pub open spec fn due_of(rows: Seq<EventRow>, lead: int, now: int) -> Seq<DueEvent>
    decreases rows.len(),
{
    if rows.len() == 0 {
        Seq::empty()
    } else {
        let rest = due_of(rows.drop_last(), lead, now);
        let r = rows.last();
        if is_due(r, lead, now) {
            rest.push(
                DueEvent {
                    account_email: r.event.account_email,
                    calendar_id: r.event.calendar_id,
                    id: r.event.id,
                    title: r.event.title,
                    start_ts: r.event.start_ts,
                },
            )
        } else {
            rest
        }
    }
}

/// `d` announces the cached row `r`: its account, calendar, id, title and
/// start.
pub open spec fn announces(d: DueEvent, r: EventRow) -> bool {
    &&& d.account_email@ == r.event.account_email@
    &&& d.calendar_id@ == r.event.calendar_id@
    &&& d.id@ == r.event.id@
    &&& d.title@ == r.event.title@
    &&& d.start_ts == r.event.start_ts
}

/// Some row of `rows` is a timed event, not yet notified, that starts after
/// `now` and at most `lead` seconds after it, and `d` announces it.
pub open spec fn due_from_row(d: DueEvent, rows: Seq<EventRow>, lead: int, now: int) -> bool {
    exists|j: int|
        0 <= j < rows.len() && !rows[j].event.all_day && !rows[j].notified && now
            < rows[j].event.start_ts <= now + lead && #[trigger] announces(d, rows[j])
}

/// Some entry of `due` announces the row `r`.
pub open spec fn announced_in(r: EventRow, due: Seq<DueEvent>) -> bool {
    exists|k: int| 0 <= k < due.len() && #[trigger] announces(due[k], r)
}

/// The due reminders are exactly the timed, not yet notified events whose
/// start lies in `(now, now + lead]`: each entry announces such a row, and
/// each such row is announced.
pub proof fn law_due_reminders(rows: Seq<EventRow>, lead: int, now: int)
    ensures
        forall|k: int|
            0 <= k < due_of(rows, lead, now).len() ==> due_from_row(
                #[trigger] due_of(rows, lead, now)[k],
                rows,
                lead,
                now,
            ),
        forall|j: int|
            0 <= j < rows.len() && !rows[j].event.all_day && !rows[j].notified && now
                < rows[j].event.start_ts <= now + lead ==> announced_in(
                #[trigger] rows[j],
                due_of(rows, lead, now),
            ),
    decreases rows.len(),
{
    if rows.len() > 0 {
        let init = rows.drop_last();
        law_due_reminders(init, lead, now);
        let rest = due_of(init, lead, now);
        let due = due_of(rows, lead, now);
        let last = rows.len() - 1;
        assert forall|k: int| 0 <= k < due.len() implies due_from_row(
            #[trigger] due[k],
            rows,
            lead,
            now,
        ) by {
            if k < rest.len() {
                assert(due[k] == rest[k]);
                assert(due_from_row(rest[k], init, lead, now));
                let j = choose|j: int|
                    0 <= j < init.len() && !init[j].event.all_day && !init[j].notified && now
                        < init[j].event.start_ts <= now + lead && #[trigger] announces(
                        rest[k],
                        init[j],
                    );
                assert(init[j] == rows[j]);
                assert(announces(due[k], rows[j]));
            } else {
                assert(announces(due[k], rows[last]));
            }
        }
        assert forall|j: int|
            0 <= j < rows.len() && !rows[j].event.all_day && !rows[j].notified && now
                < rows[j].event.start_ts <= now + lead implies announced_in(
            #[trigger] rows[j],
            due,
        ) by {
            if j < last {
                assert(init[j] == rows[j]);
                assert(announced_in(init[j], rest));
                let k = choose|k: int| 0 <= k < rest.len() && #[trigger] announces(rest[k], init[j]);
                assert(due[k] == rest[k]);
                assert(announces(due[k], rows[j]));
            } else {
                assert(announces(due[rest.len() as int], rows[j]));
            }
        }
    }
}

/// The events whose reminder, `lead_minutes` before the start, is due at
/// `now`, earliest first.
pub fn due_notifications(db: &Db, lead_minutes: i64, now: i64) -> (r: Vec<DueEvent>)
    requires
        i64::MIN <= lead_minutes * 60 <= i64::MAX,
    ensures
        r@.to_multiset() == due_of(db.events@, lead_minutes * 60, now as int).to_multiset(),
        sorted(r@),
        forall|k: int|
            0 <= k < r@.len() ==> due_from_row(
                #[trigger] r@[k],
                db.events@,
                lead_minutes * 60,
                now as int,
            ),
        forall|j: int|
            0 <= j < db.events@.len() && !db.events@[j].event.all_day && !db.events@[j].notified
                && now < db.events@[j].event.start_ts <= now + lead_minutes * 60 ==> announced_in(
                #[trigger] db.events@[j],
                r@,
            ),
{
    let lead = lead_minutes * 60;
    let mut out: Vec<DueEvent> = Vec::new();
    let mut i: usize = 0;
    while i < db.events.len()
        invariant
            i <= db.events@.len(),
            lead == lead_minutes * 60,
            out@ == due_of(db.events@.take(i as int), lead as int, now as int),
        decreases db.events@.len() - i,
    {
        assert(db.events@.take(i + 1).drop_last() =~= db.events@.take(i as int));
        let row = &db.events[i];
        let ev = &row.event;
        if !ev.all_day && !row.notified && (ev.start_ts as i128) - (lead as i128) <= now as i128
            && ev.start_ts > now {
            out.push(
                DueEvent {
                    account_email: ev.account_email.clone(),
                    calendar_id: ev.calendar_id.clone(),
                    id: ev.id.clone(),
                    title: ev.title.clone(),
                    start_ts: ev.start_ts,
                },
            );
        }
        i = i + 1;
    }
    proof {
        lemma_take_all(db.events@);
    }
    let r = sort_rows(out);
    proof {
        broadcast use vstd::seq_lib::group_to_multiset_ensures;

        let due = due_of(db.events@, lead as int, now as int);
        law_due_reminders(db.events@, lead as int, now as int);
        assert forall|k: int| 0 <= k < r@.len() implies due_from_row(
            #[trigger] r@[k],
            db.events@,
            lead as int,
            now as int,
        ) by {
            let x = r@[k];
            assert(r@.contains(x));
            assert(r@.to_multiset().count(x) > 0);
            assert(due.contains(x));
            let i = choose|i: int| 0 <= i < due.len() && due[i] == x;
            assert(due_from_row(due[i], db.events@, lead as int, now as int));
        }
        assert forall|j: int|
            0 <= j < db.events@.len() && !db.events@[j].event.all_day && !db.events@[j].notified
                && now < db.events@[j].event.start_ts <= now + lead implies announced_in(
            #[trigger] db.events@[j],
            r@,
        ) by {
            assert(announced_in(db.events@[j], due));
            let k = choose|k: int| 0 <= k < due.len() && #[trigger] announces(due[k], db.events@[j]);
            assert(due.contains(due[k]));
            assert(due.to_multiset().count(due[k]) > 0);
            assert(r@.contains(due[k]));
            let i = choose|i: int| 0 <= i < r@.len() && r@[i] == due[k];
            assert(announces(r@[i], db.events@[j]));
        }
    }
    r
}

/// The upcoming events (starting at `now` or later) of `rows`, in table
/// order, each with the color and name of its calendar (empty when the
/// calendar is unknown).
pub open spec fn upcoming_of(
    rows: Seq<EventRow>,
    cals: Map<(Seq<char>, Seq<char>), CalendarV>,
    now: int,
) -> Seq<UpcomingEventV>
    decreases rows.len(),
{
    if rows.len() == 0 {
        Seq::empty()
    } else {
        let rest = upcoming_of(rows.drop_last(), cals, now);
        let e = rows.last().event@;
        let k = (e.account_email, e.calendar_id);
        if e.start_ts >= now {
            rest.push(
                UpcomingEventV {
                    id: e.id,
                    account_email: e.account_email,
                    title: e.title,
                    start_ts: e.start_ts,
                    end_ts: e.end_ts,
                    all_day: e.all_day,
                    html_link: e.html_link,
                    color: if cals.contains_key(k) {
                        cals[k].color
                    } else {
                        Seq::empty()
                    },
                    calendar_summary: if cals.contains_key(k) {
                        cals[k].summary
                    } else {
                        Seq::empty()
                    },
                    declined: e.declined,
                },
            )
        } else {
            rest
        }
    }
}

/// `u` lists the cached event `e`: the event's own id, account, title,
/// times, all-day flag, link and declined flag unchanged, with the color and
/// name of its calendar in `cals` (empty when that calendar is unknown).
pub open spec fn lists_event(
    u: UpcomingEventV,
    e: EventV,
    cals: Map<(Seq<char>, Seq<char>), CalendarV>,
) -> bool {
    let k = (e.account_email, e.calendar_id);
    &&& u.id == e.id
    &&& u.account_email == e.account_email
    &&& u.title == e.title
    &&& u.start_ts == e.start_ts
    &&& u.end_ts == e.end_ts
    &&& u.all_day == e.all_day
    &&& u.html_link == e.html_link
    &&& u.declined == e.declined
    &&& cals.contains_key(k) ==> u.color == cals[k].color && u.calendar_summary == cals[k].summary
    &&& !cals.contains_key(k) ==> u.color.len() == 0 && u.calendar_summary.len() == 0
}

/// Some cached row of `rows` starting at `now` or later is the event that
/// `u` lists.
pub open spec fn lists_upcoming_row(
    u: UpcomingEventV,
    rows: Seq<EventRow>,
    cals: Map<(Seq<char>, Seq<char>), CalendarV>,
    now: int,
) -> bool {
    exists|j: int|
        0 <= j < rows.len() && rows[j].event@.start_ts >= now && #[trigger] lists_event(
            u,
            rows[j].event@,
            cals,
        )
}

/// Some entry of `listed` lists the cached event `e`.
pub open spec fn upcoming_lists(
    e: EventV,
    listed: Seq<UpcomingEventV>,
    cals: Map<(Seq<char>, Seq<char>), CalendarV>,
) -> bool {
    exists|k: int| 0 <= k < listed.len() && #[trigger] lists_event(listed[k], e, cals)
}

/// The upcoming list is the cached events starting at `now` or later, each
/// carrying its own fields (its end among them): every entry lists such a
/// cached event, and every such cached event is listed.
pub proof fn law_upcoming_lists_cached(
    rows: Seq<EventRow>,
    cals: Map<(Seq<char>, Seq<char>), CalendarV>,
    now: int,
)
    ensures
        forall|k: int|
            0 <= k < upcoming_of(rows, cals, now).len() ==> lists_upcoming_row(
                #[trigger] upcoming_of(rows, cals, now)[k],
                rows,
                cals,
                now,
            ),
        forall|j: int|
            0 <= j < rows.len() && rows[j].event@.start_ts >= now ==> upcoming_lists(
                #[trigger] rows[j].event@,
                upcoming_of(rows, cals, now),
                cals,
            ),
    decreases rows.len(),
{
    if rows.len() > 0 {
        let init = rows.drop_last();
        law_upcoming_lists_cached(init, cals, now);
        let rest = upcoming_of(init, cals, now);
        let up = upcoming_of(rows, cals, now);
        let last = rows.len() - 1;
        let e = rows[last].event@;
        assert forall|k: int| 0 <= k < up.len() implies lists_upcoming_row(
            #[trigger] up[k],
            rows,
            cals,
            now,
        ) by {
            if k < rest.len() {
                assert(up[k] == rest[k]);
                assert(lists_upcoming_row(rest[k], init, cals, now));
                let j = choose|j: int|
                    0 <= j < init.len() && init[j].event@.start_ts >= now && #[trigger] lists_event(
                        rest[k],
                        init[j].event@,
                        cals,
                    );
                assert(init[j] == rows[j]);
                assert(lists_event(up[k], rows[j].event@, cals));
            } else {
                assert(e.start_ts >= now);
                assert(lists_event(up[k], rows[last].event@, cals));
            }
        }
        assert forall|j: int| 0 <= j < rows.len() && rows[j].event@.start_ts >= now implies upcoming_lists(
            #[trigger] rows[j].event@,
            up,
            cals,
        ) by {
            if j < last {
                assert(init[j] == rows[j]);
                assert(upcoming_lists(init[j].event@, rest, cals));
                let k = choose|k: int| 0 <= k < rest.len() && #[trigger] lists_event(
                    rest[k],
                    init[j].event@,
                    cals,
                );
                assert(up[k] == rest[k]);
                assert(lists_event(up[k], rows[j].event@, cals));
            } else {
                assert(lists_event(up[rest.len() as int], rows[j].event@, cals));
            }
        }
    }
}

/// How many rows `LIMIT limit` lets through out of `n` (a negative limit
/// means no limit).
pub open spec fn limited(n: int, limit: int) -> int {
    if limit < 0 || limit > n {
        n
    } else {
        limit
    }
}

/// The events starting at `now` or later, earliest first, at most `limit`
/// of them (all when `limit` is negative), with their calendar's color and
/// name.
pub fn upcoming_events(db: &Db, limit: i64, now: i64) -> (r: Vec<UpcomingEvent>)
    requires
        db.well_formed(),
    ensures
        exists|all: Seq<UpcomingEvent>|
            {
                &&& all.map_values(|u: UpcomingEvent| u@).to_multiset() == upcoming_of(
                    db.events@,
                    db@.calendars,
                    now as int,
                ).to_multiset()
                &&& sorted(all)
                &&& r@ == all.take(limited(all.len() as int, limit as int))
            },
        forall|k: int|
            0 <= k < r@.len() ==> lists_upcoming_row(
                #[trigger] r@[k]@,
                db.events@,
                db@.calendars,
                now as int,
            ),
        limit < 0 ==> forall|j: int|
            0 <= j < db.events@.len() && db.events@[j].event@.start_ts >= now ==> upcoming_lists(
                #[trigger] db.events@[j].event@,
                r@.map_values(|u: UpcomingEvent| u@),
                db@.calendars,
            ),
{
    let mut joined: Vec<UpcomingEvent> = Vec::new();
    let mut i: usize = 0;
    while i < db.events.len()
        invariant
            i <= db.events@.len(),
            db.well_formed(),
            joined@.map_values(|u: UpcomingEvent| u@) == upcoming_of(
                db.events@.take(i as int),
                db@.calendars,
                now as int,
            ),
        decreases db.events@.len() - i,
    {
        assert(db.events@.take(i + 1).drop_last() =~= db.events@.take(i as int));
        let ghost before = joined@;
        let ev = &db.events[i].event;
        if ev.start_ts >= now {
            let (color, summary) = match find_calendar(&db.calendars, &ev.account_email, &ev.calendar_id) {
                Some(j) => {
                    proof {
                        lemma_table_at(db.calendars@, j as int);
                    }
                    (db.calendars[j].color.clone(), db.calendars[j].summary.clone())
                },
                None => (String::new(), String::new()),
            };
            joined.push(
                UpcomingEvent {
                    id: ev.id.clone(),
                    account_email: ev.account_email.clone(),
                    title: ev.title.clone(),
                    start_ts: ev.start_ts,
                    end_ts: ev.end_ts,
                    all_day: ev.all_day,
                    html_link: ev.html_link.clone(),
                    color,
                    calendar_summary: summary,
                    declined: ev.declined,
                },
            );
            assert(joined@.map_values(|u: UpcomingEvent| u@) =~= before.map_values(
                |u: UpcomingEvent| u@,
            ).push(joined@.last()@));
        }
        i = i + 1;
    }
    proof {
        lemma_take_all(db.events@);
    }
    let ghost unsorted = joined@;
    let all = sort_rows(joined);
    proof {
        lemma_map_values_multiset(all@, unsorted, |u: UpcomingEvent| u@);
    }
    let n = all.len();
    let take: usize = if limit < 0 || limit as u64 > n as u64 {
        n
    } else {
        limit as usize
    };
    let mut r: Vec<UpcomingEvent> = Vec::new();
    let mut j: usize = 0;
    let mut all = all;
    let ghost whole = all@;
    while j < take
        invariant
            j <= take <= whole.len(),
            all@ == whole,
            r@ == whole.take(j as int),
        decreases take - j,
    {
        let u = &all[j];
        r.push(
            UpcomingEvent {
                id: u.id.clone(),
                account_email: u.account_email.clone(),
                title: u.title.clone(),
                start_ts: u.start_ts,
                end_ts: u.end_ts,
                all_day: u.all_day,
                html_link: u.html_link.clone(),
                color: u.color.clone(),
                calendar_summary: u.calendar_summary.clone(),
                declined: u.declined,
            },
        );
        j = j + 1;
        assert(r@ =~= whole.take(j as int));
    }
    proof {
        broadcast use vstd::seq_lib::group_to_multiset_ensures;

        let up = upcoming_of(db.events@, db@.calendars, now as int);
        let views = whole.map_values(|u: UpcomingEvent| u@);
        law_upcoming_lists_cached(db.events@, db@.calendars, now as int);
        assert forall|k: int| 0 <= k < r@.len() implies lists_upcoming_row(
            #[trigger] r@[k]@,
            db.events@,
            db@.calendars,
            now as int,
        ) by {
            let x = r@[k]@;
            assert(views[k] == x);
            assert(views.contains(x));
            assert(views.to_multiset().count(x) > 0);
            assert(up.contains(x));
            let i = choose|i: int| 0 <= i < up.len() && up[i] == x;
            assert(lists_upcoming_row(up[i], db.events@, db@.calendars, now as int));
        }
        if limit < 0 {
            assert(r@ == whole);
            assert(r@.map_values(|u: UpcomingEvent| u@) == views);
            assert forall|j: int|
                0 <= j < db.events@.len() && db.events@[j].event@.start_ts >= now implies upcoming_lists(
                #[trigger] db.events@[j].event@,
                r@.map_values(|u: UpcomingEvent| u@),
                db@.calendars,
            ) by {
                let e = db.events@[j].event@;
                assert(upcoming_lists(e, up, db@.calendars));
                let k = choose|k: int| 0 <= k < up.len() && #[trigger] lists_event(up[k], e, db@.calendars);
                assert(up.contains(up[k]));
                assert(up.to_multiset().count(up[k]) > 0);
                assert(views.contains(up[k]));
                let i = choose|i: int| 0 <= i < views.len() && views[i] == up[k];
                assert(lists_event(views[i], e, db@.calendars));
            }
        }
    }
    r
}

} // verus!
