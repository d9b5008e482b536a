//! What the settings screen and the account screens ask of the store:
//! preferences, reminder lists, the polling interval, the event list, and
//! the bookkeeping around connecting, testing and removing accounts.
use vstd::prelude::*;
use vstd::string::StringExecFns;
use crate::auth::{
    Connected, ExchangeRequest, PendingAuth, last_value, last_value_of, query_pairs_of,
    url_query_pairs,
};
use crate::order::sorted;
use crate::secrets::{TokenStore, delete_refresh_token, get_refresh_token, save_refresh_token};
use crate::google::{CalendarItem, EventItem, EventItemV};
use crate::store::{
    AccountRow, AccountRowV, Calendar, CalendarV, Db, Event, EventRowV, EventV, SettingRowV,
    UpcomingEvent,
    account_of, calendars_of, copy_calendar,
    delete_account, delete_events_for_calendar, events_not_of_calendar, get_setting, limited,
    list_calendars, reauth_set, refreshed_events, replace_events, set_account_reauth, set_setting,
    lists_upcoming_row, setting_or, upcoming_events, upcoming_of, upsert_account, upsert_calendar,
};
use crate::reminders::{clamp_minutes, descending_of, listed_numbers, parse_minutes_csv};
use crate::scheduler::{DEFAULT_LEAD, DEFAULT_POLL, DEFAULT_SUMMARY_TIME, lead_key};
use crate::text::{
    chars_of, decimal_chars, decimal_string, join, join_chars, parse_i64, parse_int, parse_u32,
    push_decimal, split_once, split_once_chars, string_from_chars, trim, trim_chars,
};

verus! {

// ---------------------------------------------------------------------------
// boolean preferences
// ---------------------------------------------------------------------------

/// A boolean preference: anything stored but `"false"` is on; when nothing
/// is stored, `default`.
pub open spec fn pref_value(settings: Map<Seq<char>, SettingRowV>, key: Seq<char>, default: bool) -> bool {
    if settings.contains_key(key) {
        settings[key].value != "false"@
    } else {
        default
    }
}

/// Reads the boolean preference `key`.
pub fn pref_bool(db: &Db, key: &str, default: bool) -> (r: bool)
    requires
        db.well_formed(),
    ensures
        r == pref_value(db@.settings, key@, default),
{
    let v = get_setting(
        db,
        key,
        if default {
            "true"
        } else {
            "false"
        },
    );
    let off = String::from_str("false");
    proof {
        reveal_strlit("true");
        reveal_strlit("false");
        assert("true"@.len() != "false"@.len());
    }
    !(v == off)
}

// ---------------------------------------------------------------------------
// messages
// ---------------------------------------------------------------------------

/// Shown when Google could not be reached.
pub const OFFLINE_MESSAGE: &'static str = "Sem conexão com a internet (não consegui falar com o Google). Vou tentar de novo na próxima sincronização.";

/// Shown when Google refused the account's authorization.
pub const REAUTH_MESSAGE: &'static str = "Autorização expirada ou revogada. Reconecte a conta.";

/// Shown when an account has no refresh token.
pub const NO_TOKEN_MESSAGE: &'static str = "conta sem refresh token — reconecte";

/// Shown when a manual completion comes without an authorization started.
pub const NO_PENDING_MESSAGE: &'static str = "nenhuma autorização em andamento — clique em Conectar primeiro";

/// Shown when the pasted redirect is not a URL.
pub const BAD_URL_MESSAGE: &'static str = "URL inválida — cole a URL completa (começa com http://127.0.0.1)";

/// Shown when the pasted redirect has no authorization code.
pub const NO_CODE_MESSAGE: &'static str = "a URL não tem 'code' — copie a URL de redirect (127.0.0.1/?code=...)";

/// Shown when the pasted redirect belongs to another authorization.
pub const STATE_MESSAGE: &'static str = "state não confere — reinicie a conexão";

// ---------------------------------------------------------------------------
// errors of requests to Google
// ---------------------------------------------------------------------------

/// What is known of a failed request to Google: whether some cause is a
/// connection failure or a timeout, the HTTP statuses that its causes carry
/// (outermost first), and its own message.
pub struct ErrorFacts {
    pub network: bool,
    pub statuses: Vec<u16>,
    pub text: String,
}

/// Some status of `statuses` says the authorization was refused.
pub open spec fn refused(statuses: Seq<u16>) -> bool {
    exists|i: int| 0 <= i < statuses.len() && (statuses[i] == 400 || statuses[i] == 401 || statuses[i] == 403)
}

/// The message for a failed request: no connection, a refused
/// authorization, or the error's own message.
pub open spec fn friendly_text(e: ErrorFacts) -> Seq<char> {
    if e.network {
        OFFLINE_MESSAGE@
    } else if refused(e.statuses@) {
        REAUTH_MESSAGE@
    } else {
        e.text@
    }
}

/// The message shown for a failed request.
pub fn friendly_err(e: &ErrorFacts) -> (r: String)
    ensures
        r@ == friendly_text(*e),
{
    if e.network {
        return String::from_str(OFFLINE_MESSAGE);
    }
    let mut i: usize = 0;
    while i < e.statuses.len()
        invariant
            i <= e.statuses@.len(),
            !e.network,
            forall|j: int| 0 <= j < i ==> !(e.statuses@[j] == 400 || e.statuses@[j] == 401 || e.statuses@[j] == 403),
        decreases e.statuses@.len() - i,
    {
        let s = e.statuses[i];
        if s == 400 || s == 401 || s == 403 {
            assert(e.statuses@[i as int] == s);
            assert(refused(e.statuses@));
            return String::from_str(REAUTH_MESSAGE);
        }
        i = i + 1;
    }
    e.text.clone()
}

/// The refresh token of `email`, needed to get an access token.
pub fn refresh_token_for(tokens: &TokenStore, email: &str) -> (r: Result<String, String>)
    requires
        tokens.well_formed(),
    ensures
        r is Ok <==> tokens@.contains_key(email@),
        r matches Ok(t) ==> t@ == tokens@[email@],
        r matches Err(m) ==> m@ == NO_TOKEN_MESSAGE@,
{
    match get_refresh_token(tokens, email) {
        Some(t) => Ok(t),
        None => Err(String::from_str(NO_TOKEN_MESSAGE)),
    }
}

/// What follows an attempt to refresh the access token of `email`: on
/// success the account no longer needs to be reconnected; on a failure
/// that is not a network one it does; the error becomes its message.
pub fn refresh_outcome(db: &mut Db, email: &str, outcome: Result<String, ErrorFacts>) -> (r: Result<
    String,
    String,
>)
    requires
        old(db).well_formed(),
    ensures
        final(db).well_formed(),
        r is Ok <==> outcome is Ok,
        outcome matches Ok(at) ==> (r matches Ok(t) && t == at) && final(db)@.accounts == reauth_set(
            old(db)@.accounts,
            email@,
            false,
        ),
        outcome matches Err(e) ==> (r matches Err(m) && m@ == friendly_text(e)) && final(db)@.accounts
            == (if e.network {
            old(db)@.accounts
        } else {
            reauth_set(old(db)@.accounts, email@, true)
        }),
        final(db)@.calendars == old(db)@.calendars,
        final(db)@.events == old(db)@.events,
        final(db)@.settings == old(db)@.settings,
{
    match outcome {
        Ok(at) => {
            set_account_reauth(db, email, false);
            Ok(at)
        },
        Err(e) => {
            if !e.network {
                set_account_reauth(db, email, true);
            }
            Err(friendly_err(&e))
        },
    }
}

// ---------------------------------------------------------------------------
// accounts
// ---------------------------------------------------------------------------

/// An account as the UI shows it.
pub struct AccountInfo {
    pub email: String,
    pub display_name: String,
    pub needs_reauth: bool,
}

/// The UI's view of a stored account row.
pub open spec fn info_of(a: AccountRow) -> AccountInfo {
    AccountInfo { email: a.email, display_name: a.display_name, needs_reauth: a.needs_reauth }
}

/// `info` shows the account row `a`: its address, name and reconnection flag.
pub open spec fn lists_row(info: AccountInfo, a: AccountRow) -> bool {
    info.email == a.email && info.display_name == a.display_name && info.needs_reauth == a.needs_reauth
}

/// Some row of `stored` is the account that `info` shows.
pub open spec fn shows_stored(info: AccountInfo, stored: Seq<AccountRow>) -> bool {
    exists|j: int| 0 <= j < stored.len() && #[trigger] lists_row(info, stored[j])
}

/// Some account of `listed` shows the row `a`.
pub open spec fn listed_in(a: AccountRow, listed: Seq<AccountInfo>) -> bool {
    exists|k: int| 0 <= k < listed.len() && #[trigger] lists_row(listed[k], a)
}

/// The accounts listed are the stored accounts: as many as there are rows,
/// each listed account shows a stored row (its address, name and
/// reconnection flag), and each stored row is listed.
pub proof fn law_listed_accounts(
    stored: Seq<AccountRow>,
    rows: Seq<AccountRow>,
    listed: Seq<AccountInfo>,
)
    requires
        rows.to_multiset() == stored.to_multiset(),
        listed == rows.map_values(|a: AccountRow| info_of(a)),
    ensures
        listed.len() == stored.len(),
        forall|k: int| 0 <= k < listed.len() ==> shows_stored(#[trigger] listed[k], stored),
        forall|j: int| 0 <= j < stored.len() ==> listed_in(#[trigger] stored[j], listed),
{
    broadcast use vstd::seq_lib::group_to_multiset_ensures;

    assert(rows.len() == rows.to_multiset().len());
    assert(stored.len() == stored.to_multiset().len());
    assert forall|k: int| 0 <= k < listed.len() implies shows_stored(#[trigger] listed[k], stored) by {
        let x = rows[k];
        assert(rows.contains(x));
        assert(rows.to_multiset().count(x) > 0);
        assert(stored.contains(x));
        let j = choose|j: int| 0 <= j < stored.len() && stored[j] == x;
        assert(lists_row(listed[k], stored[j]));
    }
    assert forall|j: int| 0 <= j < stored.len() implies listed_in(#[trigger] stored[j], listed) by {
        let x = stored[j];
        assert(stored.contains(x));
        assert(stored.to_multiset().count(x) > 0);
        assert(rows.contains(x));
        let k = choose|k: int| 0 <= k < rows.len() && rows[k] == x;
        assert(lists_row(listed[k], stored[j]));
    }
}

/// Every account, oldest connection first.
pub fn list_accounts(db: &Db) -> (r: Vec<AccountInfo>)
    ensures
        exists|rows: Seq<AccountRow>|
            {
                &&& rows.to_multiset() == db.accounts@.to_multiset()
                &&& sorted(rows)
                &&& r@ == rows.map_values(|a: AccountRow| info_of(a))
            },
        r@.len() == db.accounts@.len(),
        forall|k: int| 0 <= k < r@.len() ==> shows_stored(#[trigger] r@[k], db.accounts@),
        forall|j: int| 0 <= j < db.accounts@.len() ==> listed_in(#[trigger] db.accounts@[j], r@),
{
    let accs = crate::store::list_accounts(db);
    let ghost rows = choose|rows: Seq<AccountRow>|
        {
            &&& rows.to_multiset() == db.accounts@.to_multiset()
            &&& sorted(rows)
            &&& accs@ == rows.map_values(|a: AccountRow| account_of(a))
        };
    let mut r: Vec<AccountInfo> = Vec::new();
    let mut i: usize = 0;
    while i < accs.len()
        invariant
            i <= accs@.len(),
            accs@ == rows.map_values(|a: AccountRow| account_of(a)),
            r@ == rows.take(i as int).map_values(|a: AccountRow| info_of(a)),
        decreases accs@.len() - i,
    {
        let a = &accs[i];
        r.push(
            AccountInfo {
                email: a.email.clone(),
                display_name: a.display_name.clone(),
                needs_reauth: a.needs_reauth,
            },
        );
        i = i + 1;
        assert(r@ =~= rows.take(i as int).map_values(|a: AccountRow| info_of(a)));
    }
    assert(rows.take(rows.len() as int) =~= rows);
    proof {
        law_listed_accounts(db.accounts@, rows, r@);
    }
    r
}

/// Keeps a new connection: its refresh token, and the account (created at
/// `now` when it is new, and marked as not needing reconnection).
pub fn save_connected(db: &mut Db, tokens: &mut TokenStore, c: &Connected, now: i64)
    requires
        old(db).well_formed(),
        old(tokens).well_formed(),
    ensures
        final(db).well_formed(),
        final(tokens).well_formed(),
        final(tokens)@ == old(tokens)@.insert(c.email@, c.refresh_token@),
        final(db)@.accounts == old(db)@.accounts.insert(
            c.email@,
            AccountRowV {
                email: c.email@,
                display_name: c.display_name@,
                created_at: if old(db)@.accounts.contains_key(c.email@) {
                    old(db)@.accounts[c.email@].created_at
                } else {
                    now as int
                },
                needs_reauth: false,
            },
        ),
        final(db)@.calendars == old(db)@.calendars,
        final(db)@.events == old(db)@.events,
        final(db)@.settings == old(db)@.settings,
{
    save_refresh_token(tokens, c.email.as_str(), c.refresh_token.as_str());
    upsert_account(db, c.email.as_str(), c.display_name.as_str(), now);
}

/// Disconnects an account: forgets its refresh token and removes it with
/// its calendars and cached events.
pub fn remove_account(db: &mut Db, tokens: &mut TokenStore, email: &str)
    requires
        old(db).well_formed(),
        old(tokens).well_formed(),
    ensures
        final(db).well_formed(),
        final(tokens).well_formed(),
        final(tokens)@ == old(tokens)@.remove(email@),
        final(db)@.accounts == old(db)@.accounts.remove(email@),
        final(db)@.calendars == old(db)@.calendars.restrict(crate::store::calendars_not_of(email@)),
        final(db)@.events == old(db)@.events.restrict(crate::store::events_not_of(email@)),
        forall|k: (Seq<char>, Seq<char>)|
            #[trigger] final(db)@.calendars.contains_key(k) ==> k.0 != email@,
        forall|k: (Seq<char>, Seq<char>)|
            old(db)@.calendars.contains_key(k) && k.0 != email@ ==> #[trigger] final(db)@.calendars.contains_key(k)
                && final(db)@.calendars[k] == old(db)@.calendars[k],
        forall|k: (Seq<char>, Seq<char>, Seq<char>)|
            #[trigger] final(db)@.events.contains_key(k) ==> k.0 != email@,
        forall|k: (Seq<char>, Seq<char>, Seq<char>)|
            old(db)@.events.contains_key(k) && k.0 != email@ ==> #[trigger] final(db)@.events.contains_key(k)
                && final(db)@.events[k] == old(db)@.events[k],
        final(db)@.settings == old(db)@.settings,
{
    delete_refresh_token(tokens, email);
    delete_account(db, email);
}

// ---------------------------------------------------------------------------
// reminder lists
// ---------------------------------------------------------------------------

/// How a reminder list is saved: each value clamped to `0..=1440`, in
/// decimal, separated by commas.
pub open spec fn minutes_text(v: Seq<i64>) -> Seq<char> {
    join(v.map_values(|m: i64| decimal_chars(clamp_minutes(m as int) as nat)), seq![','])
}

/// A saved reminder list read back: its values clamped, largest first,
/// each once.
pub open spec fn minutes_of(s: Seq<char>) -> Seq<i64> {
    descending_of(listed_numbers(s).map_values(|m: int| clamp_minutes(m)))
}

/// Writes a reminder list as it is saved.
fn minutes_csv(v: &Vec<i64>) -> (r: String)
    ensures
        r@ == minutes_text(v@),
{
    let ghost texts = v@.map_values(|m: i64| decimal_chars(clamp_minutes(m as int) as nat));
    let mut parts: Vec<Vec<char>> = Vec::new();
    let mut i: usize = 0;
    while i < v.len()
        invariant
            i <= v@.len(),
            texts == v@.map_values(|m: i64| decimal_chars(clamp_minutes(m as int) as nat)),
            parts@.len() == i,
            forall|k: int| 0 <= k < i ==> #[trigger] parts@[k]@ == texts[k],
        decreases v@.len() - i,
    {
        let m = v[i];
        let c: i64 = if m < 0 {
            0
        } else if m > 1440 {
            1440
        } else {
            m
        };
        let mut digits: Vec<char> = Vec::new();
        push_decimal(&mut digits, c as u64);
        assert(digits@ =~= texts[i as int]);
        parts.push(digits);
        i = i + 1;
    }
    assert(parts@.map_values(|p: Vec<char>| p@) =~= texts);
    let mut sep: Vec<char> = Vec::new();
    sep.push(',');
    assert(sep@ =~= seq![',']);
    string_from_chars(&join_chars(&parts, &sep))
}

/// The global reminder list as the settings screen shows it: the saved
/// list, or ten minutes when it is empty.
pub open spec fn reminders_shown(settings: Map<Seq<char>, SettingRowV>) -> Seq<i64> {
    let v = minutes_of(setting_or(settings, "lead_minutes"@, DEFAULT_LEAD@));
    if v.len() == 0 {
        seq![10i64]
    } else {
        v
    }
}

/// The global reminder list (minutes before each event).
pub fn get_reminders(db: &Db) -> (r: Vec<i64>)
    requires
        db.well_formed(),
    ensures
        r@ == reminders_shown(db@.settings),
{
    let s = get_setting(db, "lead_minutes", DEFAULT_LEAD);
    let v = parse_minutes_csv(s.as_str());
    if v.len() == 0 {
        let mut d: Vec<i64> = Vec::new();
        d.push(10);
        assert(d@ =~= seq![10i64]);
        d
    } else {
        v
    }
}

/// Saves the global reminder list (ten minutes when `minutes` is empty).
pub fn set_reminders(db: &mut Db, minutes: Vec<i64>)
    requires
        old(db).well_formed(),
    ensures
        final(db).well_formed(),
        final(db)@.settings == old(db)@.settings.insert(
            "lead_minutes"@,
            SettingRowV {
                key: "lead_minutes"@,
                value: minutes_text(
                    if minutes@.len() == 0 {
                        seq![10i64]
                    } else {
                        minutes@
                    },
                ),
            },
        ),
        final(db)@.accounts == old(db)@.accounts,
        final(db)@.calendars == old(db)@.calendars,
        final(db)@.events == old(db)@.events,
{
    let v = if minutes.len() == 0 {
        let mut d: Vec<i64> = Vec::new();
        d.push(10);
        assert(d@ =~= seq![10i64]);
        d
    } else {
        minutes
    };
    let text = minutes_csv(&v);
    set_setting(db, "lead_minutes", text.as_str());
}

/// The reminder list of an account, or `None` when it follows the global one.
pub fn get_account_reminders(db: &Db, email: &str) -> (r: Option<Vec<i64>>)
    requires
        db.well_formed(),
    ensures
        ({
            let v = minutes_of(setting_or(db@.settings, lead_key(email@), Seq::empty()));
            &&& r is None <==> v.len() == 0
            &&& r matches Some(l) ==> l@ == v
        }),
{
    let mut key = String::from_str("lead:");
    key.append(email);
    proof {
        reveal_strlit("");
    }
    let s = get_setting(db, key.as_str(), "");
    let v = parse_minutes_csv(s.as_str());
    if v.len() == 0 {
        None
    } else {
        Some(v)
    }
}

/// Saves the reminder list of an account; `None` or an empty list makes it
/// follow the global one.
pub fn set_account_reminders(db: &mut Db, email: &str, minutes: Option<Vec<i64>>)
    requires
        old(db).well_formed(),
    ensures
        final(db).well_formed(),
        final(db)@.settings == old(db)@.settings.insert(
            lead_key(email@),
            SettingRowV {
                key: lead_key(email@),
                value: match minutes {
                    Some(m) => if m@.len() > 0 {
                        minutes_text(m@)
                    } else {
                        Seq::empty()
                    },
                    None => Seq::empty(),
                },
            },
        ),
        final(db)@.accounts == old(db)@.accounts,
        final(db)@.calendars == old(db)@.calendars,
        final(db)@.events == old(db)@.events,
{
    let val = match minutes {
        Some(m) => if m.len() > 0 {
            minutes_csv(&m)
        } else {
            String::new()
        },
        None => String::new(),
    };
    let mut key = String::from_str("lead:");
    key.append(email);
    set_setting(db, key.as_str(), val.as_str());
}

// ---------------------------------------------------------------------------
// on/off preferences
// ---------------------------------------------------------------------------

/// How an on/off preference is saved.
pub open spec fn flag_text(on: bool) -> Seq<char> {
    if on {
        "true"@
    } else {
        "false"@
    }
}

/// Saves the on/off preference `key`.
fn set_flag(db: &mut Db, key: &str, on: bool)
    requires
        old(db).well_formed(),
    ensures
        final(db).well_formed(),
        final(db)@.settings == old(db)@.settings.insert(key@, SettingRowV { key: key@, value: flag_text(on) }),
        final(db)@.accounts == old(db)@.accounts,
        final(db)@.calendars == old(db)@.calendars,
        final(db)@.events == old(db)@.events,
{
    set_setting(
        db,
        key,
        if on {
            "true"
        } else {
            "false"
        },
    );
}

/// Whether notifications play a sound (on unless turned off).
pub fn get_sound_enabled(db: &Db) -> (r: bool)
    requires
        db.well_formed(),
    ensures
        r == pref_value(db@.settings, "sound_enabled"@, true),
{
    pref_bool(db, "sound_enabled", true)
}

/// Turns the notification sound on or off.
pub fn set_sound_enabled(db: &mut Db, enabled: bool)
    requires
        old(db).well_formed(),
    ensures
        final(db).well_formed(),
        final(db)@.settings == old(db)@.settings.insert(
            "sound_enabled"@,
            SettingRowV { key: "sound_enabled"@, value: flag_text(enabled) },
        ),
        final(db)@.accounts == old(db)@.accounts,
        final(db)@.calendars == old(db)@.calendars,
        final(db)@.events == old(db)@.events,
{
    set_flag(db, "sound_enabled", enabled);
}

/// Whether events the user declined are left out (on unless turned off).
pub fn get_ignore_declined(db: &Db) -> (r: bool)
    requires
        db.well_formed(),
    ensures
        r == pref_value(db@.settings, "ignore_declined"@, true),
{
    pref_bool(db, "ignore_declined", true)
}

/// Leaves declined events out, or not.
pub fn set_ignore_declined(db: &mut Db, enabled: bool)
    requires
        old(db).well_formed(),
    ensures
        final(db).well_formed(),
        final(db)@.settings == old(db)@.settings.insert(
            "ignore_declined"@,
            SettingRowV { key: "ignore_declined"@, value: flag_text(enabled) },
        ),
        final(db)@.accounts == old(db)@.accounts,
        final(db)@.calendars == old(db)@.calendars,
        final(db)@.events == old(db)@.events,
{
    set_flag(db, "ignore_declined", enabled);
}

/// Whether all-day events are left out of the list (off unless turned on).
pub fn get_ignore_all_day(db: &Db) -> (r: bool)
    requires
        db.well_formed(),
    ensures
        r == pref_value(db@.settings, "ignore_all_day"@, false),
{
    pref_bool(db, "ignore_all_day", false)
}

/// Leaves all-day events out of the list, or not.
pub fn set_ignore_all_day(db: &mut Db, enabled: bool)
    requires
        old(db).well_formed(),
    ensures
        final(db).well_formed(),
        final(db)@.settings == old(db)@.settings.insert(
            "ignore_all_day"@,
            SettingRowV { key: "ignore_all_day"@, value: flag_text(enabled) },
        ),
        final(db)@.accounts == old(db)@.accounts,
        final(db)@.calendars == old(db)@.calendars,
        final(db)@.events == old(db)@.events,
{
    set_flag(db, "ignore_all_day", enabled);
}

/// Whether the window starts hidden in the tray (on unless turned off).
pub fn get_start_minimized(db: &Db) -> (r: bool)
    requires
        db.well_formed(),
    ensures
        r == pref_value(db@.settings, "start_minimized"@, true),
{
    pref_bool(db, "start_minimized", true)
}

/// Starts hidden in the tray, or not.
pub fn set_start_minimized(db: &mut Db, enabled: bool)
    requires
        old(db).well_formed(),
    ensures
        final(db).well_formed(),
        final(db)@.settings == old(db)@.settings.insert(
            "start_minimized"@,
            SettingRowV { key: "start_minimized"@, value: flag_text(enabled) },
        ),
        final(db)@.accounts == old(db)@.accounts,
        final(db)@.calendars == old(db)@.calendars,
        final(db)@.events == old(db)@.events,
{
    set_flag(db, "start_minimized", enabled);
}

/// Whether the daily summary is sent (off unless turned on).
pub fn get_daily_summary_enabled(db: &Db) -> (r: bool)
    requires
        db.well_formed(),
    ensures
        r == pref_value(db@.settings, "daily_summary_enabled"@, false),
{
    pref_bool(db, "daily_summary_enabled", false)
}

/// Sends the daily summary, or not.
pub fn set_daily_summary_enabled(db: &mut Db, enabled: bool)
    requires
        old(db).well_formed(),
    ensures
        final(db).well_formed(),
        final(db)@.settings == old(db)@.settings.insert(
            "daily_summary_enabled"@,
            SettingRowV { key: "daily_summary_enabled"@, value: flag_text(enabled) },
        ),
        final(db)@.accounts == old(db)@.accounts,
        final(db)@.calendars == old(db)@.calendars,
        final(db)@.events == old(db)@.events,
{
    set_flag(db, "daily_summary_enabled", enabled);
}

// ---------------------------------------------------------------------------
// times and intervals
// ---------------------------------------------------------------------------

/// Shown when a summary time is not `HH:MM`.
pub const BAD_TIME_MESSAGE: &'static str = "horário inválido (use HH:MM)";

/// Shown when the saved polling interval is not a number.
pub const BAD_INTERVAL_MESSAGE: &'static str = "intervalo inválido";

/// Shown when the saved time of the last sync is not a number.
pub const BAD_VALUE_MESSAGE: &'static str = "valor inválido";

/// The time of the daily summary as saved (`"08:00"` when never set).
pub fn get_daily_summary_time(db: &Db) -> (r: String)
    requires
        db.well_formed(),
    ensures
        r@ == setting_or(db@.settings, "daily_summary_time"@, DEFAULT_SUMMARY_TIME@),
{
    get_setting(db, "daily_summary_time", DEFAULT_SUMMARY_TIME)
}

/// `HH:MM` with hours below 24 and minutes below 60 (no white space).
pub open spec fn valid_time(t: Seq<char>) -> bool {
    match split_once(t, ':') {
        Some(p) => match (
            parse_int(p.0, false, 0, u32::MAX as int),
            parse_int(p.1, false, 0, u32::MAX as int),
        ) {
            (Some(h), Some(m)) => h < 24 && m < 60,
            _ => false,
        },
        None => false,
    }
}

/// Saves the time of the daily summary, if it is a valid `HH:MM`.
pub fn set_daily_summary_time(db: &mut Db, time: &str) -> (r: Result<(), String>)
    requires
        old(db).well_formed(),
    ensures
        final(db).well_formed(),
        r is Ok <==> valid_time(time@),
        r matches Err(m) ==> m@ == BAD_TIME_MESSAGE@,
        final(db)@.settings == (if valid_time(time@) {
            old(db)@.settings.insert(
                "daily_summary_time"@,
                SettingRowV { key: "daily_summary_time"@, value: time@ },
            )
        } else {
            old(db)@.settings
        }),
        final(db)@.accounts == old(db)@.accounts,
        final(db)@.calendars == old(db)@.calendars,
        final(db)@.events == old(db)@.events,
{
    let cs = chars_of(time);
    let valid = match split_once_chars(&cs, ':') {
        Some(p) => {
            let h_ok = match parse_u32(&p.0) {
                Some(h) => h < 24,
                None => false,
            };
            let m_ok = match parse_u32(&p.1) {
                Some(m) => m < 60,
                None => false,
            };
            h_ok && m_ok
        },
        None => false,
    };
    if !valid {
        return Err(String::from_str(BAD_TIME_MESSAGE));
    }
    set_setting(db, "daily_summary_time", time);
    Ok(())
}

/// The saved polling interval, in minutes.
pub fn get_poll_minutes(db: &Db) -> (r: Result<i64, String>)
    requires
        db.well_formed(),
    ensures
        ({
            let p = parse_int(
                setting_or(db@.settings, "poll_minutes"@, DEFAULT_POLL@),
                true,
                i64::MIN as int,
                i64::MAX as int,
            );
            &&& r is Ok <==> p is Some
            &&& r matches Ok(v) ==> p == Some(v as int)
            &&& r matches Err(m) ==> m@ == BAD_INTERVAL_MESSAGE@
        }),
{
    let s = get_setting(db, "poll_minutes", DEFAULT_POLL);
    let cs = chars_of(s.as_str());
    match parse_i64(&cs) {
        Some(v) => Ok(v),
        None => Err(String::from_str(BAD_INTERVAL_MESSAGE)),
    }
}

/// `m.clamp(lo, hi)`.
pub open spec fn clamped(m: int, lo: int, hi: int) -> int {
    if m < lo {
        lo
    } else if m > hi {
        hi
    } else {
        m
    }
}

/// Saves the polling interval, kept within one minute and one day.
pub fn set_poll_minutes(db: &mut Db, minutes: i64)
    requires
        old(db).well_formed(),
    ensures
        final(db).well_formed(),
        final(db)@.settings == old(db)@.settings.insert(
            "poll_minutes"@,
            SettingRowV {
                key: "poll_minutes"@,
                value: decimal_chars(clamped(minutes as int, 1, 1440) as nat),
            },
        ),
        final(db)@.accounts == old(db)@.accounts,
        final(db)@.calendars == old(db)@.calendars,
        final(db)@.events == old(db)@.events,
{
    let m: i64 = if minutes < 1 {
        1
    } else if minutes > 1440 {
        1440
    } else {
        minutes
    };
    let text = decimal_string(m as u64);
    set_setting(db, "poll_minutes", text.as_str());
}

/// When the last sync succeeded (seconds since the epoch; 0 if never).
pub fn get_last_sync(db: &Db) -> (r: Result<i64, String>)
    requires
        db.well_formed(),
    ensures
        ({
            let p = parse_int(
                setting_or(db@.settings, "last_sync_ts"@, "0"@),
                true,
                i64::MIN as int,
                i64::MAX as int,
            );
            &&& r is Ok <==> p is Some
            &&& r matches Ok(v) ==> p == Some(v as int)
            &&& r matches Err(m) ==> m@ == BAD_VALUE_MESSAGE@
        }),
{
    let s = get_setting(db, "last_sync_ts", "0");
    let cs = chars_of(s.as_str());
    match parse_i64(&cs) {
        Some(v) => Ok(v),
        None => Err(String::from_str(BAD_VALUE_MESSAGE)),
    }
}

/// Records that a sync succeeded at `now` (seconds since the epoch).
pub fn record_sync(db: &mut Db, now: u64)
    requires
        old(db).well_formed(),
    ensures
        final(db).well_formed(),
        final(db)@.settings == old(db)@.settings.insert(
            "last_sync_ts"@,
            SettingRowV { key: "last_sync_ts"@, value: decimal_chars(now as nat) },
        ),
        final(db)@.accounts == old(db)@.accounts,
        final(db)@.calendars == old(db)@.calendars,
        final(db)@.events == old(db)@.events,
{
    let text = decimal_string(now);
    set_setting(db, "last_sync_ts", text.as_str());
}

// ---------------------------------------------------------------------------
// the event list
// ---------------------------------------------------------------------------

/// An event stays in the list unless it was declined and declined events
/// are left out, or it lasts all day and all-day events are left out.
pub open spec fn event_shown(e: UpcomingEvent, ignore_declined: bool, ignore_all_day: bool) -> bool {
    !(ignore_declined && e.declined) && !(ignore_all_day && e.all_day)
}

/// The events of `evs` that stay in the list, in order.
pub open spec fn shown_events(evs: Seq<UpcomingEvent>, ignore_declined: bool, ignore_all_day: bool) -> Seq<
    UpcomingEvent,
>
    decreases evs.len(),
{
    if evs.len() == 0 {
        Seq::empty()
    } else {
        let rest = shown_events(evs.drop_last(), ignore_declined, ignore_all_day);
        if event_shown(evs.last(), ignore_declined, ignore_all_day) {
            rest.push(evs.last())
        } else {
            rest
        }
    }
}

/// The preferences filter keeps exactly the events they do not leave out:
/// each kept event is one of `evs` that is neither declined (when declined
/// events are left out) nor all-day (when all-day events are left out), and
/// each such event of `evs` is kept.
pub proof fn law_shown_events_filter(evs: Seq<UpcomingEvent>, ignore_declined: bool, ignore_all_day: bool)
    ensures
        forall|k: int|
            0 <= k < shown_events(evs, ignore_declined, ignore_all_day).len() ==> {
                let e = #[trigger] shown_events(evs, ignore_declined, ignore_all_day)[k];
                &&& evs.contains(e)
                &&& !(ignore_declined && e.declined)
                &&& !(ignore_all_day && e.all_day)
            },
        forall|i: int|
            0 <= i < evs.len() && !(ignore_declined && (#[trigger] evs[i]).declined) && !(ignore_all_day
                && evs[i].all_day) ==> shown_events(evs, ignore_declined, ignore_all_day).contains(
                evs[i],
            ),
    decreases evs.len(),
{
    if evs.len() > 0 {
        let init = evs.drop_last();
        law_shown_events_filter(init, ignore_declined, ignore_all_day);
        let rest = shown_events(init, ignore_declined, ignore_all_day);
        let out = shown_events(evs, ignore_declined, ignore_all_day);
        assert forall|k: int| 0 <= k < out.len() implies {
            let e = #[trigger] out[k];
            &&& evs.contains(e)
            &&& !(ignore_declined && e.declined)
            &&& !(ignore_all_day && e.all_day)
        } by {
            if k < rest.len() {
                assert(out[k] == rest[k]);
                let j = choose|j: int| 0 <= j < init.len() && init[j] == rest[k];
                assert(evs[j] == init[j]);
            } else {
                assert(out[k] == evs[evs.len() - 1]);
            }
        }
        assert forall|i: int|
            0 <= i < evs.len() && !(ignore_declined && (#[trigger] evs[i]).declined) && !(ignore_all_day
                && evs[i].all_day) implies out.contains(evs[i]) by {
            if i < evs.len() - 1 {
                assert(init[i] == evs[i]);
                assert(rest.contains(init[i]));
                let k = choose|k: int| 0 <= k < rest.len() && rest[k] == init[i];
                assert(out[k] == rest[k]);
            } else {
                assert(out[out.len() - 1] == evs[i]);
            }
        }
    }
}

/// How many cached events the list shows at most.
pub const EVENT_LIST_LIMIT: i64 = 2000;

fn copy_upcoming(e: &UpcomingEvent) -> (r: UpcomingEvent)
    ensures
        r == *e,
{
    UpcomingEvent {
        id: e.id.clone(),
        account_email: e.account_email.clone(),
        title: e.title.clone(),
        start_ts: e.start_ts,
        end_ts: e.end_ts,
        all_day: e.all_day,
        html_link: e.html_link.clone(),
        color: e.color.clone(),
        calendar_summary: e.calendar_summary.clone(),
        declined: e.declined,
    }
}

/// The cached events (past and future), earliest first, at most
/// `EVENT_LIST_LIMIT` of them, without those the preferences leave out.
pub fn list_events(db: &Db) -> (r: Vec<UpcomingEvent>)
    requires
        db.well_formed(),
    ensures
        exists|all: Seq<UpcomingEvent>|
            {
                &&& all.map_values(|u: UpcomingEvent| u@).to_multiset() == upcoming_of(
                    db.events@,
                    db@.calendars,
                    i64::MIN as int,
                ).to_multiset()
                &&& sorted(all)
                &&& r@ == shown_events(
                    all.take(limited(all.len() as int, EVENT_LIST_LIMIT as int)),
                    pref_value(db@.settings, "ignore_declined"@, true),
                    pref_value(db@.settings, "ignore_all_day"@, false),
                )
            },
        forall|k: int|
            0 <= k < r@.len() ==> {
                let e = #[trigger] r@[k];
                &&& lists_upcoming_row(e@, db.events@, db@.calendars, i64::MIN as int)
                &&& !(pref_value(db@.settings, "ignore_declined"@, true) && e.declined)
                &&& !(pref_value(db@.settings, "ignore_all_day"@, false) && e.all_day)
            },
{
    let ignore_declined = pref_bool(db, "ignore_declined", true);
    let ignore_all_day = pref_bool(db, "ignore_all_day", false);
    // no event starts before the earliest instant: this is every cached event
    let evs = upcoming_events(db, EVENT_LIST_LIMIT, i64::MIN);
    let ghost all = choose|all: Seq<UpcomingEvent>|
        {
            &&& all.map_values(|u: UpcomingEvent| u@).to_multiset() == upcoming_of(
                db.events@,
                db@.calendars,
                i64::MIN as int,
            ).to_multiset()
            &&& sorted(all)
            &&& evs@ == all.take(limited(all.len() as int, EVENT_LIST_LIMIT as int))
        };
    let mut out: Vec<UpcomingEvent> = Vec::new();
    let mut i: usize = 0;
    while i < evs.len()
        invariant
            i <= evs@.len(),
            out@ == shown_events(evs@.take(i as int), ignore_declined, ignore_all_day),
        decreases evs@.len() - i,
    {
        assert(evs@.take(i + 1).drop_last() =~= evs@.take(i as int));
        let e = &evs[i];
        if !(ignore_declined && e.declined) && !(ignore_all_day && e.all_day) {
            out.push(copy_upcoming(e));
        }
        i = i + 1;
    }
    assert(evs@.take(evs@.len() as int) =~= evs@);
    proof {
        law_shown_events_filter(evs@, ignore_declined, ignore_all_day);
        assert forall|k: int| 0 <= k < out@.len() implies {
            let e = #[trigger] out@[k];
            &&& lists_upcoming_row(e@, db.events@, db@.calendars, i64::MIN as int)
            &&& !(pref_value(db@.settings, "ignore_declined"@, true) && e.declined)
            &&& !(pref_value(db@.settings, "ignore_all_day"@, false) && e.all_day)
        } by {
            let e = out@[k];
            assert(evs@.contains(e));
            let i = choose|i: int| 0 <= i < evs@.len() && evs@[i] == e;
            assert(lists_upcoming_row(evs@[i]@, db.events@, db@.calendars, i64::MIN as int));
        }
    }
    out
}

/// The tray tooltip when nothing is coming up.
pub const TRAY_IDLE: &'static str = "Calendar Notifier — sem eventos";

/// The tray tooltip: the title of the next event (starting at `now` or
/// later), or that there is none.
pub fn tray_tooltip(db: &Db, now: i64) -> (r: String)
    requires
        db.well_formed(),
    ensures
        exists|all: Seq<UpcomingEvent>|
            {
                &&& all.map_values(|u: UpcomingEvent| u@).to_multiset() == upcoming_of(
                    db.events@,
                    db@.calendars,
                    now as int,
                ).to_multiset()
                &&& sorted(all)
                &&& r@ == (if all.len() > 0 {
                    "Próximo: "@ + all[0].title@
                } else {
                    TRAY_IDLE@
                })
            },
{
    let evs = upcoming_events(db, 1, now);
    let ghost all = choose|all: Seq<UpcomingEvent>|
        {
            &&& all.map_values(|u: UpcomingEvent| u@).to_multiset() == upcoming_of(
                db.events@,
                db@.calendars,
                now as int,
            ).to_multiset()
            &&& sorted(all)
            &&& evs@ == all.take(limited(all.len() as int, 1))
        };
    if evs.len() > 0 {
        let mut t = String::from_str("Próximo: ");
        t.append(evs[0].title.as_str());
        t
    } else {
        String::from_str(TRAY_IDLE)
    }
}

/// Whether the app starts hidden in the tray: it was launched at login
/// (with `--minimized`) and the user wants that.
pub fn start_hidden(db: &Db, launched_minimized: bool) -> (r: bool)
    requires
        db.well_formed(),
    ensures
        r == (launched_minimized && pref_value(db@.settings, "start_minimized"@, true)),
{
    launched_minimized && pref_bool(db, "start_minimized", true)
}

// ---------------------------------------------------------------------------
// calendars
// ---------------------------------------------------------------------------

/// The calendars of an account, primary first, then by name.
pub fn account_calendars(db: &Db, email: &str) -> (r: Vec<Calendar>)
    ensures
        r@.to_multiset() == calendars_of(db.calendars@, email@).to_multiset(),
        sorted(r@),
        forall|k: int|
            0 <= k < r@.len() ==> (#[trigger] r@[k]).account_email@ == email@ && db.calendars@.contains(
                r@[k],
            ),
        forall|j: int|
            0 <= j < db.calendars@.len() && (#[trigger] db.calendars@[j]).account_email@ == email@
                ==> r@.contains(db.calendars@[j]),
{
    list_calendars(db, email)
}

/// Follows or stops following a calendar; one that is no longer followed
/// loses its cached events, so that it is not notified.
pub fn set_calendar_selected(db: &mut Db, email: &str, calendar_id: &str, selected: bool)
    requires
        old(db).well_formed(),
    ensures
        final(db).well_formed(),
        final(db)@.calendars == (if old(db)@.calendars.contains_key((email@, calendar_id@)) {
            old(db)@.calendars.insert(
                (email@, calendar_id@),
                CalendarV { selected, ..old(db)@.calendars[(email@, calendar_id@)] },
            )
        } else {
            old(db)@.calendars
        }),
        final(db)@.events == (if selected {
            old(db)@.events
        } else {
            old(db)@.events.restrict(events_not_of_calendar(email@, calendar_id@))
        }),
        !selected ==> forall|k: (Seq<char>, Seq<char>, Seq<char>)|
            #[trigger] final(db)@.events.contains_key(k) ==> !(k.0 == email@ && k.1 == calendar_id@),
        forall|k: (Seq<char>, Seq<char>, Seq<char>)|
            old(db)@.events.contains_key(k) && !(k.0 == email@ && k.1 == calendar_id@)
                ==> #[trigger] final(db)@.events.contains_key(k) && final(db)@.events[k] == old(db)@.events[k],
        final(db)@.accounts == old(db)@.accounts,
        final(db)@.settings == old(db)@.settings,
{
    crate::store::set_calendar_selected(db, email, calendar_id, selected);
    if !selected {
        delete_events_for_calendar(db, email, calendar_id);
    }
}

/// The calendars of `email` after the fetched list `items` was saved in
/// order: names, primary flags and colors are updated; a known calendar
/// keeps whether it is followed; a new one is followed if it is primary.
pub open spec fn calendars_saved(
    m: Map<(Seq<char>, Seq<char>), CalendarV>,
    email: Seq<char>,
    items: Seq<CalendarItem>,
) -> Map<(Seq<char>, Seq<char>), CalendarV>
    decreases items.len(),
{
    if items.len() == 0 {
        m
    } else {
        let prev = calendars_saved(m, email, items.drop_last());
        let c = items.last();
        let k = (email, c.id@);
        prev.insert(
            k,
            CalendarV {
                id: c.id@,
                account_email: email,
                summary: c.summary@,
                selected: if prev.contains_key(k) {
                    prev[k].selected
                } else {
                    c.primary
                },
                is_primary: c.primary,
                color: c.color@,
            },
        )
    }
}

/// `c` is the fetched calendar `it` of account `email` as saved: its id,
/// name, primary flag and color are the fetched ones.
pub open spec fn saves_calendar(c: CalendarV, email: Seq<char>, it: CalendarItem) -> bool {
    &&& c.id == it.id@
    &&& c.account_email == email
    &&& c.summary == it.summary@
    &&& c.is_primary == it.primary
    &&& c.color == it.color@
}

/// Saving a list leaves alone every calendar that no item of it names.
proof fn lemma_saved_untouched(
    m: Map<(Seq<char>, Seq<char>), CalendarV>,
    email: Seq<char>,
    items: Seq<CalendarItem>,
    k: (Seq<char>, Seq<char>),
)
    requires
        forall|j: int| 0 <= j < items.len() ==> k != (email, #[trigger] items[j].id@),
    ensures
        calendars_saved(m, email, items).contains_key(k) == m.contains_key(k),
        m.contains_key(k) ==> calendars_saved(m, email, items)[k] == m[k],
    decreases items.len(),
{
    if items.len() > 0 {
        let rest = items.drop_last();
        assert forall|j: int| 0 <= j < rest.len() implies k != (email, #[trigger] rest[j].id@) by {
            assert(rest[j] == items[j]);
        }
        lemma_saved_untouched(m, email, rest, k);
        assert(k != (email, items[items.len() - 1].id@));
    }
}

/// Refreshing an account's calendar list (ids being distinct) saves every
/// fetched calendar with its fetched name, primary flag and color; a
/// calendar known before keeps whether it is followed, a new one is
/// followed if it is primary.
pub proof fn law_calendars_refreshed(
    m: Map<(Seq<char>, Seq<char>), CalendarV>,
    email: Seq<char>,
    items: Seq<CalendarItem>,
    i: int,
)
    requires
        0 <= i < items.len(),
        forall|x: int, y: int| 0 <= x < y < items.len() ==> items[x].id@ != items[y].id@,
    ensures
        calendars_saved(m, email, items).contains_key((email, items[i].id@)),
        saves_calendar(calendars_saved(m, email, items)[(email, items[i].id@)], email, items[i]),
        calendars_saved(m, email, items)[(email, items[i].id@)].selected == (if m.contains_key(
            (email, items[i].id@),
        ) {
            m[(email, items[i].id@)].selected
        } else {
            items[i].primary
        }),
    decreases items.len(),
{
    let rest = items.drop_last();
    let key = (email, items[i].id@);
    if i == items.len() - 1 {
        assert forall|j: int| 0 <= j < rest.len() implies key != (email, #[trigger] rest[j].id@) by {
            assert(rest[j] == items[j]);
        }
        lemma_saved_untouched(m, email, rest, key);
        assert(items.last() == items[i]);
    } else {
        assert(rest[i] == items[i]);
        assert forall|x: int, y: int| 0 <= x < y < rest.len() implies rest[x].id@ != rest[y].id@ by {
            assert(rest[x] == items[x] && rest[y] == items[y]);
        }
        law_calendars_refreshed(m, email, rest, i);
        assert(items.last().id@ != items[i].id@) by {
            assert(items.last() == items[items.len() - 1]);
        }
    }
}

/// Saves the calendar list fetched for `email`.
pub fn save_calendars(db: &mut Db, email: &str, items: &Vec<CalendarItem>)
    requires
        old(db).well_formed(),
    ensures
        final(db).well_formed(),
        final(db)@.calendars == calendars_saved(old(db)@.calendars, email@, items@),
        (forall|x: int, y: int| 0 <= x < y < items@.len() ==> items@[x].id@ != items@[y].id@)
            ==> forall|i: int|
            0 <= i < items@.len() ==> final(db)@.calendars.contains_key((email@, #[trigger] items@[i].id@))
                && saves_calendar(final(db)@.calendars[(email@, items@[i].id@)], email@, items@[i]),
        final(db)@.accounts == old(db)@.accounts,
        final(db)@.events == old(db)@.events,
        final(db)@.settings == old(db)@.settings,
{
    let mut i: usize = 0;
    while i < items.len()
        invariant
            i <= items@.len(),
            db.well_formed(),
            db@.calendars == calendars_saved(old(db)@.calendars, email@, items@.take(i as int)),
            db@.accounts == old(db)@.accounts,
            db@.events == old(db)@.events,
            db@.settings == old(db)@.settings,
        decreases items@.len() - i,
    {
        assert(items@.take(i + 1).drop_last() =~= items@.take(i as int));
        let c = &items[i];
        upsert_calendar(db, email, c.id.as_str(), c.summary.as_str(), c.primary, c.primary, c.color.as_str());
        i = i + 1;
    }
    assert(items@.take(items@.len() as int) =~= items@);
    proof {
        if forall|x: int, y: int| 0 <= x < y < items@.len() ==> items@[x].id@ != items@[y].id@ {
            assert forall|i: int| 0 <= i < items@.len() implies db@.calendars.contains_key(
                (email@, #[trigger] items@[i].id@),
            ) && saves_calendar(db@.calendars[(email@, items@[i].id@)], email@, items@[i]) by {
                law_calendars_refreshed(old(db)@.calendars, email@, items@, i);
            }
        }
    }
}

// ---------------------------------------------------------------------------
// syncing events
// ---------------------------------------------------------------------------

/// The followed calendars of one account.
pub struct AccountCalendars {
    pub email: String,
    pub calendars: Vec<Calendar>,
}

/// The calendars of `cals` that belong to `email`, in order.
fn calendars_of_account(cals: &Vec<Calendar>, email: &String) -> (r: Vec<Calendar>)
    ensures
        r@ == calendars_of(cals@, email@),
{
    let mut mine: Vec<Calendar> = Vec::new();
    let mut i: usize = 0;
    while i < cals.len()
        invariant
            i <= cals@.len(),
            mine@ == calendars_of(cals@.take(i as int), email@),
        decreases cals@.len() - i,
    {
        assert(cals@.take(i + 1).drop_last() =~= cals@.take(i as int));
        if cals[i].account_email == *email {
            mine.push(copy_calendar(&cals[i]));
        }
        i = i + 1;
    }
    assert(cals@.take(cals@.len() as int) =~= cals@);
    mine
}

/// Some group of `groups` is the one of account `e`.
pub open spec fn has_group(groups: Seq<AccountCalendars>, e: Seq<char>) -> bool {
    exists|i: int| 0 <= i < groups.len() && #[trigger] groups[i].email@ == e
}

/// Some calendar of `cals` belongs to account `e`.
pub open spec fn has_calendar_of(cals: Seq<Calendar>, e: Seq<char>) -> bool {
    exists|k: int| 0 <= k < cals.len() && #[trigger] cals[k].account_email@ == e
}

/// Whether some group of `groups` is the one of `email`.
fn find_group(groups: &Vec<AccountCalendars>, email: &String) -> (r: bool)
    ensures
        r == has_group(groups@, email@),
{
    let mut i: usize = 0;
    while i < groups.len()
        invariant
            i <= groups@.len(),
            forall|j: int| 0 <= j < i ==> groups@[j].email@ != email@,
        decreases groups@.len() - i,
    {
        if groups[i].email == *email {
            return true;
        }
        i = i + 1;
    }
    false
}

/// Groups calendars by account: one group per account that has some,
/// holding its calendars in their order.
pub fn group_by_account(cals: &Vec<Calendar>) -> (r: Vec<AccountCalendars>)
    ensures
        forall|i: int| 0 <= i < r@.len() ==> #[trigger] r@[i].calendars@ == calendars_of(cals@, r@[i].email@),
        forall|i: int, j: int| 0 <= i < j < r@.len() ==> r@[i].email@ != r@[j].email@,
        forall|k: int| 0 <= k < cals@.len() ==> has_group(r@, #[trigger] cals@[k].account_email@),
        forall|i: int| 0 <= i < r@.len() ==> has_calendar_of(cals@, #[trigger] r@[i].email@),
{
    let mut r: Vec<AccountCalendars> = Vec::new();
    let mut k: usize = 0;
    while k < cals.len()
        invariant
            k <= cals@.len(),
            forall|i: int| 0 <= i < r@.len() ==> #[trigger] r@[i].calendars@ == calendars_of(cals@, r@[i].email@),
            forall|i: int, j: int| 0 <= i < j < r@.len() ==> r@[i].email@ != r@[j].email@,
            forall|q: int| 0 <= q < k ==> has_group(r@, #[trigger] cals@[q].account_email@),
            forall|i: int| 0 <= i < r@.len() ==> has_calendar_of(cals@, #[trigger] r@[i].email@),
        decreases cals@.len() - k,
    {
        let e = &cals[k].account_email;
        let ghost before = r@;
        if !find_group(&r, e) {
            r.push(AccountCalendars { email: e.clone(), calendars: calendars_of_account(cals, e) });
            proof {
                let n = before.len() as int;
                assert(r@[n].email@ == cals@[k as int].account_email@);
                assert(has_calendar_of(cals@, r@[n].email@));
                assert forall|i: int| 0 <= i < n implies r@[i] == before[i] by {}
                assert forall|q: int| 0 <= q < k + 1 implies has_group(r@, #[trigger] cals@[q].account_email@) by {
                    if q < k {
                        assert(has_group(before, cals@[q].account_email@));
                        let i = choose|i: int| 0 <= i < before.len() && #[trigger] before[i].email@ == cals@[q].account_email@;
                        assert(r@[i] == before[i]);
                    } else {
                        assert(r@[n].email@ == cals@[q].account_email@);
                    }
                }
                assert forall|i: int, j: int| 0 <= i < j < r@.len() implies r@[i].email@ != r@[j].email@ by {
                    if j < n {
                        assert(r@[i] == before[i] && r@[j] == before[j]);
                    } else {
                        assert(r@[i] == before[i]);
                        if before[i].email@ == e@ {
                            assert(has_group(before, e@));
                        }
                    }
                }
                assert forall|i: int| 0 <= i < r@.len() implies has_calendar_of(cals@, #[trigger] r@[i].email@) by {
                    if i < n {
                        assert(r@[i] == before[i]);
                    }
                }
            }
        }
        k = k + 1;
    }
    r
}

/// How a fetched event of calendar `c` of account `a` is cached.
pub open spec fn stored_event_of(a: Seq<char>, c: Seq<char>, it: EventItemV) -> EventV {
    EventV {
        id: it.id,
        calendar_id: c,
        account_email: a,
        title: it.title,
        start_ts: it.start_ts,
        end_ts: it.end_ts,
        all_day: it.all_day,
        status: it.status,
        html_link: it.html_link,
        declined: it.declined,
    }
}

/// The fetched events of calendar `c` of account `a`, as they are cached.
pub open spec fn stored_events_of(a: Seq<char>, c: Seq<char>, items: Seq<EventItem>) -> Seq<EventV> {
    items.map_values(|it: EventItem| stored_event_of(a, c, it@))
}

/// `e` is the fetched item `it` cached for calendar `c` of account `a`: its
/// id, title, start, end, all-day flag, status, link and declined flag are
/// the item's.
pub open spec fn caches_item(e: EventV, a: Seq<char>, c: Seq<char>, it: EventItem) -> bool {
    &&& e.id == it.id@
    &&& e.account_email == a
    &&& e.calendar_id == c
    &&& e.title == it.title@
    &&& e.start_ts == it.start_ts
    &&& e.end_ts == it.end_ts
    &&& e.all_day == it.all_day
    &&& e.status == it.status@
    &&& e.html_link == it.html_link@
    &&& e.declined == it.declined
}

/// Each fetched item is cached as itself: the cached event at its position
/// carries the item's fields, under the account and calendar synced.
pub proof fn law_stored_events(a: Seq<char>, c: Seq<char>, items: Seq<EventItem>)
    ensures
        stored_events_of(a, c, items).len() == items.len(),
        forall|k: int|
            0 <= k < items.len() ==> caches_item(
                #[trigger] stored_events_of(a, c, items)[k],
                a,
                c,
                items[k],
            ),
{
}

/// A sync caches every fetched event with the fetched fields (its declined
/// flag included), under the account and calendar synced, ids being
/// distinct.
pub proof fn law_sync_caches_fetched(
    m: Map<(Seq<char>, Seq<char>, Seq<char>), EventRowV>,
    a: Seq<char>,
    c: Seq<char>,
    items: Seq<EventItem>,
    i: int,
)
    requires
        0 <= i < items.len(),
        forall|x: int, y: int| 0 <= x < y < items.len() ==> items[x].id@ != items[y].id@,
    ensures
        refreshed_events(m, a, c, stored_events_of(a, c, items)).contains_key((a, c, items[i].id@)),
        caches_item(
            refreshed_events(m, a, c, stored_events_of(a, c, items))[(a, c, items[i].id@)].event,
            a,
            c,
            items[i],
        ),
{
    let evs = stored_events_of(a, c, items);
    law_stored_events(a, c, items);
    assert forall|x: int, y: int| 0 <= x < y < evs.len() implies evs[x].id != evs[y].id by {
        assert(caches_item(evs[x], a, c, items[x]));
        assert(caches_item(evs[y], a, c, items[y]));
    }
    assert(caches_item(evs[i], a, c, items[i]));
    crate::laws::law_sync_calendar(m, a, c, evs, (a, c, evs[i].id), i);
}

/// The fetched events of a calendar, ready to be cached.
pub fn events_for_store(email: &str, calendar_id: &str, items: &Vec<EventItem>) -> (r: Vec<Event>)
    ensures
        r@.map_values(|e: Event| e@) == stored_events_of(email@, calendar_id@, items@),
        r@.len() == items@.len(),
        forall|k: int|
            0 <= k < r@.len() ==> caches_item(#[trigger] r@[k]@, email@, calendar_id@, items@[k]),
{
    let mut out: Vec<Event> = Vec::new();
    let mut i: usize = 0;
    while i < items.len()
        invariant
            i <= items@.len(),
            out@.len() == i,
            forall|k: int| 0 <= k < i ==> #[trigger] out@[k]@ == stored_event_of(email@, calendar_id@, items@[k]@),
        decreases items@.len() - i,
    {
        let it = &items[i];
        out.push(
            Event {
                id: it.id.clone(),
                calendar_id: String::from_str(calendar_id),
                account_email: String::from_str(email),
                title: it.title.clone(),
                start_ts: it.start_ts,
                end_ts: it.end_ts,
                all_day: it.all_day,
                status: it.status.clone(),
                html_link: it.html_link.clone(),
                declined: it.declined,
            },
        );
        i = i + 1;
    }
    assert(out@.map_values(|e: Event| e@) =~= stored_events_of(email@, calendar_id@, items@));
    proof {
        law_stored_events(email@, calendar_id@, items@);
    }
    out
}

/// Caches the events fetched for a calendar, replacing what was cached for it.
pub fn store_fetched(db: &mut Db, email: &str, calendar_id: &str, items: &Vec<EventItem>)
    requires
        old(db).well_formed(),
    ensures
        final(db).well_formed(),
        final(db)@.events == refreshed_events(
            old(db)@.events,
            email@,
            calendar_id@,
            stored_events_of(email@, calendar_id@, items@),
        ),
        final(db)@.accounts == old(db)@.accounts,
        final(db)@.calendars == old(db)@.calendars,
        final(db)@.settings == old(db)@.settings,
{
    let mapped = events_for_store(email, calendar_id, items);
    replace_events(db, email, calendar_id, &mapped);
}

/// One calendar of a sync, once its events were fetched or the fetch
/// failed: fetched events are cached and added to the running count
/// `total`; a failure stops the sync with its message and changes nothing.
pub fn sync_fetched(
    db: &mut Db,
    email: &str,
    calendar_id: &str,
    total: u32,
    fetched: Result<Vec<EventItem>, ErrorFacts>,
) -> (r: Result<u32, String>)
    requires
        old(db).well_formed(),
        fetched matches Ok(items) ==> total + (items@.len() as u32) <= u32::MAX,
    ensures
        final(db).well_formed(),
        r is Ok <==> fetched is Ok,
        fetched matches Ok(items) ==> (r matches Ok(t) && t == total + (items@.len() as u32))
            && final(db)@.events == refreshed_events(
            old(db)@.events,
            email@,
            calendar_id@,
            stored_events_of(email@, calendar_id@, items@),
        ),
        fetched matches Err(e) ==> (r matches Err(m) && m@ == friendly_text(e)) && final(db)@.events
            == old(db)@.events,
        final(db)@.accounts == old(db)@.accounts,
        final(db)@.calendars == old(db)@.calendars,
        final(db)@.settings == old(db)@.settings,
{
    match fetched {
        Ok(items) => {
            store_fetched(db, email, calendar_id, &items);
            let n = items.len() as u32;
            Ok(total + n)
        },
        Err(e) => Err(friendly_err(&e)),
    }
}

/// The message of an account test that found `n` calendars.
pub open spec fn calendars_message_text(n: nat) -> Seq<char> {
    decimal_chars(n) + " calendário(s) acessível(is)"@
}

/// What an account test reports: how many calendars are reachable.
pub fn calendars_message(n: u64) -> (r: String)
    ensures
        r@ == calendars_message_text(n as nat),
{
    let mut m = decimal_string(n);
    m.append(" calendário(s) acessível(is)");
    m
}

// ---------------------------------------------------------------------------
// completing an authorization by hand
// ---------------------------------------------------------------------------

/// The PKCE context of the authorization in progress.
pub struct PendingCtx {
    pub verifier: String,
    pub state: String,
    pub redirect_uri: String,
}

/// The authorization in progress, if any, between its start and its
/// completion by hand.
pub struct AuthState {
    pub pending: Option<PendingCtx>,
}

impl Default for AuthState {
    fn default() -> (s: Self)
        ensures
            s.pending is None,
    {
        AuthState { pending: None }
    }
}

/// The result of completing by hand with the redirect `url`: the code, the
/// verifier and the redirect address to exchange, or the message to show.
pub open spec fn manual_outcome(pending: Option<PendingCtx>, url: Seq<char>) -> Result<
    (Seq<char>, Seq<char>, Seq<char>),
    Seq<char>,
> {
    match pending {
        None => Err(NO_PENDING_MESSAGE@),
        Some(ctx) => match url_query_pairs(trim(url)) {
            None => Err(BAD_URL_MESSAGE@),
            Some(ps) => match last_value(ps, "code"@) {
                None => Err(NO_CODE_MESSAGE@),
                Some(code) => if last_value(ps, "state"@) == Some(ctx.state@) {
                    Ok((code, ctx.verifier@, ctx.redirect_uri@))
                } else {
                    Err(STATE_MESSAGE@)
                },
            },
        },
    }
}

impl AuthState {
    /// Keeps the context of an authorization that just started.
    pub fn remember(&mut self, p: &PendingAuth)
        ensures
            final(self).pending matches Some(c) && c.verifier@ == p.verifier@ && c.state@
                == p.state@ && c.redirect_uri@ == p.redirect_uri@,
    {
        self.pending = Some(
            PendingCtx {
                verifier: p.verifier.clone(),
                state: p.state.clone(),
                redirect_uri: p.redirect_uri.clone(),
            },
        );
    }

    /// Reads the redirect URL that the user pasted: the exchange to make, or
    /// what went wrong.
    pub fn manual_exchange(&self, redirect_url: &str) -> (r: Result<ExchangeRequest, String>)
        ensures
            r matches Ok(x) ==> (manual_outcome(self.pending, redirect_url@) matches Ok(t) && t == (
                x.code@,
                x.verifier@,
                x.redirect_uri@,
            )),
            r matches Err(m) ==> (manual_outcome(self.pending, redirect_url@) matches Err(t) && t
                == m@),
    {
        let ctx = match &self.pending {
            Some(c) => c,
            None => {
                return Err(String::from_str(NO_PENDING_MESSAGE));
            },
        };
        let cs = chars_of(redirect_url);
        let t = trim_chars(&cs);
        let trimmed = string_from_chars(&t);
        let pairs = match query_pairs_of(trimmed.as_str()) {
            Some(p) => p,
            None => {
                return Err(String::from_str(BAD_URL_MESSAGE));
            },
        };
        let code = match last_value_of(&pairs, "code") {
            Some(c) => c,
            None => {
                return Err(String::from_str(NO_CODE_MESSAGE));
            },
        };
        let st = last_value_of(&pairs, "state");
        let matches = match &st {
            Some(s) => *s == ctx.state,
            None => false,
        };
        if !matches {
            return Err(String::from_str(STATE_MESSAGE));
        }
        Ok(
            ExchangeRequest {
                code,
                verifier: ctx.verifier.clone(),
                redirect_uri: ctx.redirect_uri.clone(),
            },
        )
    }
}

} // verus!
