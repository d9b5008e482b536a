//! Properties of the library that relate several operations: what is read
//! back after a write, what a sync keeps, what a refresh of the calendar
//! list keeps, and that the daily summary is sent once a day.
use vstd::prelude::*;
use crate::commands::{
    calendars_saved, flag_text, minutes_of, minutes_text, pref_value, reminders_shown,
};
use crate::google::CalendarItem;
use crate::reminders::{
    clamp_minutes, descending_of, digit_runs, digit_runs_acc, lemma_descending_of_props,
    listed_numbers, run_numbers, strictly_descending,
};
use crate::reminders::fired_set;
use crate::scheduler::{account_leads, lead_key, shown_kept, summary_due};
use crate::store::{
    CalendarV, EventRowV, EventV, SettingRowV, fetched_id, refreshed_events, setting_or,
    upsert_event, upsert_events,
};
use crate::text::{
    all_digits, decimal_chars, decimal_value, int_chars, is_digit, join, lemma_decimal_chars,
    lemma_int_chars_parse, parse_int,
};

verus! {

// ---------------------------------------------------------------------------
// settings and tokens
// ---------------------------------------------------------------------------

/// A setting reads back what was last written under its key, and writing
/// one key leaves every other key as it was.
pub proof fn law_setting_read_back(
    settings: Map<Seq<char>, SettingRowV>,
    key: Seq<char>,
    value: Seq<char>,
    other: Seq<char>,
    default: Seq<char>,
)
    ensures
        setting_or(settings.insert(key, SettingRowV { key, value }), key, default) == value,
        other != key ==> setting_or(settings.insert(key, SettingRowV { key, value }), other, default)
            == setting_or(settings, other, default),
{
}

/// An on/off preference reads back what was last saved, whatever its
/// default.
pub proof fn law_flag_read_back(
    settings: Map<Seq<char>, SettingRowV>,
    key: Seq<char>,
    on: bool,
    default: bool,
)
    ensures
        pref_value(settings.insert(key, SettingRowV { key, value: flag_text(on) }), key, default)
            == on,
{
    reveal_strlit("true");
    reveal_strlit("false");
    assert("true"@.len() != "false"@.len());
}

/// A saved refresh token is the one read back for its account; a deleted
/// one is gone; the tokens of other accounts are untouched by either.
pub proof fn law_token_read_back(
    tokens: Map<Seq<char>, Seq<char>>,
    email: Seq<char>,
    token: Seq<char>,
    other: Seq<char>,
)
    ensures
        tokens.insert(email, token).contains_key(email),
        tokens.insert(email, token)[email] == token,
        !tokens.remove(email).contains_key(email),
        other != email ==> tokens.insert(email, token).contains_key(other) == tokens.contains_key(other),
        other != email && tokens.contains_key(other) ==> tokens.insert(email, token)[other]
            == tokens[other] && tokens.remove(email)[other] == tokens[other],
        other != email ==> tokens.remove(email).contains_key(other) == tokens.contains_key(other),
{
}

/// The time of the last sync reads back what was last recorded (a time
/// beyond what an `i64` holds reads as invalid), and reads as 0 before any
/// sync was recorded.
pub proof fn law_last_sync_read_back(settings: Map<Seq<char>, SettingRowV>, now: u64)
    ensures
        parse_int(
            setting_or(
                settings.insert(
                    "last_sync_ts"@,
                    SettingRowV { key: "last_sync_ts"@, value: decimal_chars(now as nat) },
                ),
                "last_sync_ts"@,
                "0"@,
            ),
            true,
            i64::MIN as int,
            i64::MAX as int,
        ) == (if now <= i64::MAX {
            Some(now as int)
        } else {
            None
        }),
        !settings.contains_key("last_sync_ts"@) ==> parse_int(
            setting_or(settings, "last_sync_ts"@, "0"@),
            true,
            i64::MIN as int,
            i64::MAX as int,
        ) == Some(0int),
{
    let d = decimal_chars(now as nat);
    lemma_decimal_chars(now as nat);
    if now <= i64::MAX {
        assert(int_chars(now as int) == d);
        lemma_int_chars_parse(now as int);
    } else {
        assert(is_digit(d[0]));
    }
    reveal_strlit("0");
    let z = "0"@;
    assert(z.len() == 1 && z[0] == '0');
    assert(z.drop_last() =~= Seq::<char>::empty());
    assert(decimal_value(z.drop_last()) == 0);
    assert(crate::text::digit_value(z.last()) == 0);
    assert(decimal_value(z) == decimal_value(z.drop_last()) * 10 + crate::text::digit_value(z.last()));
    assert(decimal_value(z) == 0);
    assert(all_digits(z));
}

// ---------------------------------------------------------------------------
// reminder lists read back
// ---------------------------------------------------------------------------

/// Appending ASCII digits extends the open run of digits.
proof fn lemma_runs_digits(q: Seq<char>, d: Seq<char>)
    requires
        all_digits(d),
    ensures
        digit_runs_acc(q + d) == (digit_runs_acc(q).0, digit_runs_acc(q).1 + d),
    decreases d.len(),
{
    if d.len() == 0 {
        assert(q + d =~= q);
        assert(digit_runs_acc(q).1 + d =~= digit_runs_acc(q).1);
    } else {
        let dl = d.drop_last();
        assert(all_digits(dl)) by {
            assert forall|i: int| 0 <= i < dl.len() implies is_digit(#[trigger] dl[i]) by {
                assert(dl[i] == d[i]);
            }
        }
        lemma_runs_digits(q, dl);
        assert((q + d).drop_last() =~= q + dl);
        assert((q + d).last() == d.last());
        assert(is_digit(d[d.len() - 1]));
        assert((digit_runs_acc(q).1 + dl).push(d.last()) =~= digit_runs_acc(q).1 + d);
    }
}

/// Non-empty runs of digits joined with commas split back into those runs.
proof fn lemma_runs_of_join(ds: Seq<Seq<char>>)
    requires
        ds.len() > 0,
        forall|i: int| 0 <= i < ds.len() ==> #[trigger] ds[i].len() > 0 && all_digits(ds[i]),
    ensures
        digit_runs_acc(join(ds, seq![','])) == (ds.drop_last(), ds.last()),
    decreases ds.len(),
{
    let e = Seq::<char>::empty();
    if ds.len() == 1 {
        assert(ds[0].len() > 0);
        lemma_runs_digits(e, ds[0]);
        assert(e + ds[0] =~= ds[0]);
        assert(digit_runs_acc(e) == (Seq::<Seq<char>>::empty(), e));
        assert(e + ds[0] =~= ds[0]);
        assert(ds.drop_last() =~= Seq::<Seq<char>>::empty());
    } else {
        let rest = ds.drop_last();
        assert forall|i: int| 0 <= i < rest.len() implies #[trigger] rest[i].len() > 0 && all_digits(rest[i]) by {
            assert(rest[i] == ds[i]);
        }
        lemma_runs_of_join(rest);
        let p = join(rest, seq![',']);
        let q = p.push(',');
        assert(q.drop_last() =~= p);
        assert(rest.last().len() > 0) by {
            assert(rest.last() == ds[ds.len() - 2]);
        }
        assert(digit_runs_acc(q) == (rest.drop_last().push(rest.last()), e));
        assert(rest.drop_last().push(rest.last()) =~= rest);
        assert(ds.last() == ds[ds.len() - 1]);
        lemma_runs_digits(q, ds.last());
        assert(e + ds.last() =~= ds.last());
        assert(join(ds, seq![',']) =~= q + ds.last());
    }
}

/// The numbers of runs whose values fit in an `i64` are those values.
proof fn lemma_run_numbers_small(ds: Seq<Seq<char>>)
    requires
        forall|i: int| 0 <= i < ds.len() ==> #[trigger] decimal_value(ds[i]) <= i64::MAX,
    ensures
        run_numbers(ds) == ds.map_values(|d: Seq<char>| decimal_value(d) as int),
    decreases ds.len(),
{
    if ds.len() > 0 {
        let rest = ds.drop_last();
        assert forall|i: int| 0 <= i < rest.len() implies #[trigger] decimal_value(rest[i]) <= i64::MAX by {
            assert(rest[i] == ds[i]);
        }
        lemma_run_numbers_small(rest);
        assert(decimal_value(ds[ds.len() - 1]) <= i64::MAX);
        assert(run_numbers(ds) =~= ds.map_values(|d: Seq<char>| decimal_value(d) as int));
    }
}

/// A saved non-empty reminder list lists back its clamped values, in order.
proof fn lemma_listed_minutes_text(v: Seq<i64>)
    requires
        v.len() > 0,
    ensures
        listed_numbers(minutes_text(v)) == v.map_values(|m: i64| clamp_minutes(m as int)),
{
    let ds = v.map_values(|m: i64| decimal_chars(clamp_minutes(m as int) as nat));
    assert forall|i: int| 0 <= i < ds.len() implies #[trigger] ds[i].len() > 0 && all_digits(ds[i])
        && decimal_value(ds[i]) == clamp_minutes(v[i] as int) by {
        lemma_decimal_chars(clamp_minutes(v[i] as int) as nat);
    }
    lemma_runs_of_join(ds);
    assert(ds.drop_last().push(ds.last()) =~= ds);
    assert(ds.last() == ds[ds.len() - 1]);
    assert(digit_runs(minutes_text(v)) == ds);
    assert forall|i: int| 0 <= i < ds.len() implies #[trigger] decimal_value(ds[i]) <= i64::MAX by {
        lemma_decimal_chars(clamp_minutes(v[i] as int) as nat);
    }
    lemma_run_numbers_small(ds);
    let lhs = ds.map_values(|d: Seq<char>| decimal_value(d) as int);
    let rhs = v.map_values(|m: i64| clamp_minutes(m as int));
    assert(lhs =~= rhs) by {
        assert forall|i: int| 0 <= i < ds.len() implies #[trigger] lhs[i] == rhs[i] by {
            lemma_decimal_chars(clamp_minutes(v[i] as int) as nat);
        }
    }
}

/// A saved non-empty reminder list reads back as its values clamped to
/// `0..=1440`, largest first, each once.
proof fn lemma_minutes_read_back(v: Seq<i64>)
    requires
        v.len() > 0,
    ensures
        minutes_of(minutes_text(v)) == descending_of(v.map_values(|m: i64| clamp_minutes(m as int))),
        minutes_of(minutes_text(v)).len() > 0,
{
    let c = v.map_values(|m: i64| clamp_minutes(m as int));
    lemma_listed_minutes_text(v);
    assert(c.map_values(|m: int| clamp_minutes(m)) =~= c);
    lemma_descending_of_props(c);
    let d = descending_of(c);
    assert(c[0] == clamp_minutes(v[0] as int));
    assert(d.contains(c[0] as i64));
}

/// The global reminder list reads back what was saved: the values of the
/// saved list (ten minutes when it was empty) clamped to `0..=1440`,
/// largest first, each once.
pub proof fn law_reminders_read_back(settings: Map<Seq<char>, SettingRowV>, minutes: Seq<i64>)
    ensures
        ({
            let saved = if minutes.len() == 0 {
                seq![10i64]
            } else {
                minutes
            };
            let after = settings.insert(
                "lead_minutes"@,
                SettingRowV { key: "lead_minutes"@, value: minutes_text(saved) },
            );
            let expected = saved.map_values(|m: i64| clamp_minutes(m as int));
            &&& reminders_shown(after) == descending_of(expected)
            &&& strictly_descending(reminders_shown(after))
            &&& forall|y: i64| reminders_shown(after).contains(y) <==> expected.contains(y as int)
        }),
{
    let saved = if minutes.len() == 0 {
        seq![10i64]
    } else {
        minutes
    };
    lemma_minutes_read_back(saved);
    lemma_descending_of_props(saved.map_values(|m: i64| clamp_minutes(m as int)));
}

/// An account with a saved non-empty list of its own is reminded by that
/// list (its values clamped, largest first, each once), whatever the
/// global one; clearing its list makes it follow the global list again.
pub proof fn law_account_reminders(
    settings: Map<Seq<char>, SettingRowV>,
    email: Seq<char>,
    own: Seq<i64>,
    global: Seq<i64>,
)
    ensures
        own.len() > 0 ==> account_leads(
            settings.insert(lead_key(email), SettingRowV { key: lead_key(email), value: minutes_text(own) }),
            email,
            global,
        ) == descending_of(own.map_values(|m: i64| clamp_minutes(m as int))),
        account_leads(
            settings.insert(lead_key(email), SettingRowV { key: lead_key(email), value: Seq::empty() }),
            email,
            global,
        ) == global,
{
    if own.len() > 0 {
        lemma_minutes_read_back(own);
        lemma_listed_minutes_text(own);
        let c = own.map_values(|m: i64| clamp_minutes(m as int));
        assert(c.map_values(|m: int| clamp_minutes(m)) =~= c);
    }
    let e = Seq::<char>::empty();
    assert(digit_runs_acc(e) == (Seq::<Seq<char>>::empty(), e));
    assert(listed_numbers(e) =~= Seq::<int>::empty());
    lemma_descending_of_props(Seq::<int>::empty());
    let d = descending_of(Seq::<int>::empty());
    if d.len() > 0 {
        assert(d.contains(d[0]));
    }
}

// ---------------------------------------------------------------------------
// the daily summary
// ---------------------------------------------------------------------------

/// The daily summary is sent once a day: once it was due and the day was
/// recorded, it is not due again on that day, at any time.
pub proof fn law_summary_once_a_day(
    settings: Map<Seq<char>, SettingRowV>,
    today: Seq<char>,
    secs: int,
    later: int,
)
    requires
        summary_due(settings, today, secs),
    ensures
        !summary_due(
            settings.insert(
                "daily_summary_last"@,
                SettingRowV { key: "daily_summary_last"@, value: today },
            ),
            today,
            later,
        ),
{
}

// ---------------------------------------------------------------------------
// what a sync of a calendar keeps
// ---------------------------------------------------------------------------

/// Writing fetched events leaves alone every key that none of them has.
proof fn lemma_upserts_untouched(
    m: Map<(Seq<char>, Seq<char>, Seq<char>), EventRowV>,
    a: Seq<char>,
    c: Seq<char>,
    evs: Seq<EventV>,
    k: (Seq<char>, Seq<char>, Seq<char>),
)
    requires
        forall|j: int| 0 <= j < evs.len() ==> k != (a, c, #[trigger] evs[j].id),
    ensures
        upsert_events(m, a, c, evs).contains_key(k) == m.contains_key(k),
        m.contains_key(k) ==> upsert_events(m, a, c, evs)[k] == m[k],
    decreases evs.len(),
{
    if evs.len() > 0 {
        let rest = evs.drop_last();
        assert forall|j: int| 0 <= j < rest.len() implies k != (a, c, #[trigger] rest[j].id) by {
            assert(rest[j] == evs[j]);
        }
        lemma_upserts_untouched(m, a, c, rest, k);
        assert(k != (a, c, evs[evs.len() - 1].id));
    }
}

/// With distinct ids, the row of a fetched event is that event written once
/// over what was cached before.
proof fn lemma_upserts_at(
    m: Map<(Seq<char>, Seq<char>, Seq<char>), EventRowV>,
    a: Seq<char>,
    c: Seq<char>,
    evs: Seq<EventV>,
    i: int,
)
    requires
        0 <= i < evs.len(),
        forall|x: int, y: int| 0 <= x < y < evs.len() ==> evs[x].id != evs[y].id,
    ensures
        upsert_events(m, a, c, evs).contains_key((a, c, evs[i].id)),
        upsert_events(m, a, c, evs)[(a, c, evs[i].id)] == upsert_event(m, a, c, evs[i])[(a, c, evs[i].id)],
    decreases evs.len(),
{
    let rest = evs.drop_last();
    let k = (a, c, evs[i].id);
    if i == evs.len() - 1 {
        assert forall|j: int| 0 <= j < rest.len() implies k != (a, c, #[trigger] rest[j].id) by {
            assert(rest[j] == evs[j]);
        }
        lemma_upserts_untouched(m, a, c, rest, k);
        assert(evs.last() == evs[i]);
    } else {
        assert(rest[i] == evs[i]);
        assert forall|x: int, y: int| 0 <= x < y < rest.len() implies rest[x].id != rest[y].id by {
            assert(rest[x] == evs[x] && rest[y] == evs[y]);
        }
        lemma_upserts_at(m, a, c, rest, i);
        assert(evs.last().id != evs[i].id) by {
            assert(evs.last() == evs[evs.len() - 1]);
        }
    }
}

/// A sync of one calendar of one account:
/// - leaves the cached events of every other calendar as they were;
/// - drops the cached events of that calendar that were not fetched;
/// - caches each fetched event (ids being distinct) with the fetched
///   fields, and keeps its reminder state (notified, fired reminders) if
///   it was cached before with the same start, clearing it otherwise.
pub proof fn law_sync_calendar(
    m: Map<(Seq<char>, Seq<char>, Seq<char>), EventRowV>,
    a: Seq<char>,
    c: Seq<char>,
    evs: Seq<EventV>,
    k: (Seq<char>, Seq<char>, Seq<char>),
    i: int,
)
    ensures
        !(k.0 == a && k.1 == c) ==> refreshed_events(m, a, c, evs).contains_key(k) == m.contains_key(k)
            && (m.contains_key(k) ==> refreshed_events(m, a, c, evs)[k] == m[k]),
        k.0 == a && k.1 == c && !fetched_id(evs, k.2) ==> !refreshed_events(m, a, c, evs).contains_key(k),
        0 <= i < evs.len() && (forall|x: int, y: int| 0 <= x < y < evs.len() ==> evs[x].id != evs[y].id)
            ==> ({
            let key = (a, c, evs[i].id);
            let r = refreshed_events(m, a, c, evs);
            let same = m.contains_key(key) && m[key].event.start_ts == evs[i].start_ts;
            &&& r.contains_key(key)
            &&& r[key].event == EventV { calendar_id: c, account_email: a, ..evs[i] }
            &&& r[key].notified == (same && m[key].notified)
            &&& r[key].notified_leads == (if same {
                m[key].notified_leads
            } else {
                Seq::empty()
            })
        }),
{
    if !(k.0 == a && k.1 == c) {
        assert forall|j: int| 0 <= j < evs.len() implies k != (a, c, #[trigger] evs[j].id) by {}
        lemma_upserts_untouched(m, a, c, evs, k);
    }
    if 0 <= i < evs.len() && (forall|x: int, y: int| 0 <= x < y < evs.len() ==> evs[x].id != evs[y].id) {
        lemma_upserts_at(m, a, c, evs, i);
        assert(fetched_id(evs, evs[i].id));
    }
}

/// A sync of one calendar keeps every reminder recorded for the events it
/// still holds, when none of the fetched events moved its start (ids being
/// distinct); an event that moved has its record cleared, as
/// `law_sync_calendar` states.
pub proof fn law_sync_keeps_shown(
    m: Map<(Seq<char>, Seq<char>, Seq<char>), EventRowV>,
    a: Seq<char>,
    c: Seq<char>,
    evs: Seq<EventV>,
)
    requires
        forall|x: int, y: int| 0 <= x < y < evs.len() ==> evs[x].id != evs[y].id,
        forall|i: int|
            0 <= i < evs.len() && m.contains_key((a, c, #[trigger] evs[i].id)) ==> m[(
                a,
                c,
                evs[i].id,
            )].event.start_ts == evs[i].start_ts,
    ensures
        shown_kept(m, refreshed_events(m, a, c, evs)),
{
    let r = refreshed_events(m, a, c, evs);
    assert forall|k: (Seq<char>, Seq<char>, Seq<char>), x: int|
        m.contains_key(k) && r.contains_key(k) && #[trigger] fired_set(m[k].notified_leads).contains(x)
        implies #[trigger] fired_set(r[k].notified_leads).contains(x) by {
        if !(k.0 == a && k.1 == c) {
            law_sync_calendar(m, a, c, evs, k, 0);
        } else {
            assert(fetched_id(evs, k.2));
            let i = choose|i: int| 0 <= i < evs.len() && evs[i].id == k.2;
            assert(k == (a, c, evs[i].id));
            law_sync_calendar(m, a, c, evs, k, i);
        }
    }
}

// ---------------------------------------------------------------------------
// refreshing the calendar list
// ---------------------------------------------------------------------------

/// Refreshing an account's calendar list keeps every calendar it knew, and
/// keeps the user's choice of following each of them.
pub proof fn law_calendar_choice_kept(
    m: Map<(Seq<char>, Seq<char>), CalendarV>,
    email: Seq<char>,
    items: Seq<CalendarItem>,
    k: (Seq<char>, Seq<char>),
)
    requires
        m.contains_key(k),
    ensures
        calendars_saved(m, email, items).contains_key(k),
        calendars_saved(m, email, items)[k].selected == m[k].selected,
    decreases items.len(),
{
    if items.len() > 0 {
        law_calendar_choice_kept(m, email, items.drop_last(), k);
    }
}

} // verus!
