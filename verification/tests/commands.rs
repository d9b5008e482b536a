use calendar_notifier::auth::{Connected, PendingAuth};
use calendar_notifier::commands::{
    account_calendars, calendars_message, events_for_store, friendly_err, get_account_reminders,
    get_daily_summary_enabled, get_daily_summary_time, get_ignore_all_day, get_ignore_declined,
    get_last_sync, get_poll_minutes, get_reminders, get_sound_enabled, get_start_minimized,
    group_by_account, list_accounts, list_events, record_sync, refresh_outcome, refresh_token_for,
    remove_account, save_calendars, save_connected, set_account_reminders, set_calendar_selected,
    set_daily_summary_enabled, set_daily_summary_time, set_ignore_all_day, set_ignore_declined,
    set_poll_minutes, set_reminders, set_sound_enabled, set_start_minimized, start_hidden,
    store_fetched, sync_fetched, tray_tooltip, AuthState, ErrorFacts, BAD_INTERVAL_MESSAGE, BAD_TIME_MESSAGE,
    BAD_URL_MESSAGE, BAD_VALUE_MESSAGE, NO_CODE_MESSAGE, NO_PENDING_MESSAGE, NO_TOKEN_MESSAGE,
    OFFLINE_MESSAGE, REAUTH_MESSAGE, STATE_MESSAGE, TRAY_IDLE,
};
use calendar_notifier::google::{CalendarItem, EventItem};
use calendar_notifier::secrets::{get_refresh_token, save_refresh_token, TokenStore};
use calendar_notifier::store::{
    get_setting, init, list_calendars, replace_events, set_setting, upsert_account, upsert_calendar,
    Calendar, Db, Event,
};

fn facts(network: bool, statuses: Vec<u16>, text: &str) -> ErrorFacts {
    ErrorFacts { network, statuses, text: text.to_string() }
}

fn ev(id: &str, start: i64) -> Event {
    Event {
        id: id.to_string(),
        calendar_id: String::new(),
        account_email: String::new(),
        title: format!("T{id}"),
        start_ts: start,
        end_ts: start + 60,
        all_day: false,
        status: String::new(),
        html_link: String::new(),
        declined: false,
    }
}

fn item(id: &str, start: i64) -> EventItem {
    EventItem {
        id: id.to_string(),
        title: format!("T{id}"),
        start_ts: start,
        end_ts: start + 60,
        all_day: false,
        status: "confirmed".to_string(),
        html_link: "https://example.com".to_string(),
        declined: false,
    }
}

#[test]
fn friendly_err_messages() {
    assert_eq!(
        friendly_err(&facts(true, vec![401], "x")),
        "Sem conexão com a internet (não consegui falar com o Google). Vou tentar de novo na próxima sincronização."
    );
    assert_eq!(friendly_err(&facts(false, vec![500, 401], "x")), REAUTH_MESSAGE);
    assert_eq!(friendly_err(&facts(false, vec![400], "x")), "Autorização expirada ou revogada. Reconecte a conta.");
    assert_eq!(friendly_err(&facts(false, vec![403], "x")), REAUTH_MESSAGE);
    assert_eq!(friendly_err(&facts(false, vec![404, 500], "boom")), "boom");
    assert_eq!(friendly_err(&facts(false, vec![], "plain")), "plain");
    assert_eq!(OFFLINE_MESSAGE, friendly_err(&facts(true, vec![], "")));
}

#[test]
fn refresh_outcome_marks_reauth() {
    let mut db = init();
    upsert_account(&mut db, "a", "A", 1);
    let r = refresh_outcome(&mut db, "a", Err(facts(false, vec![401], "bad")));
    assert_eq!(r, Err(REAUTH_MESSAGE.to_string()));
    assert!(list_accounts(&db)[0].needs_reauth);
    let r = refresh_outcome(&mut db, "a", Ok("at".to_string()));
    assert_eq!(r, Ok("at".to_string()));
    assert!(!list_accounts(&db)[0].needs_reauth);
    let r = refresh_outcome(&mut db, "a", Err(facts(true, vec![], "offline")));
    assert_eq!(r, Err(OFFLINE_MESSAGE.to_string()));
    assert!(!list_accounts(&db)[0].needs_reauth);
}

#[test]
fn refresh_token_for_missing() {
    let mut t = TokenStore::new();
    assert_eq!(refresh_token_for(&t, "a"), Err("conta sem refresh token — reconecte".to_string()));
    assert_eq!(NO_TOKEN_MESSAGE, "conta sem refresh token — reconecte");
    save_refresh_token(&mut t, "a", "rt");
    assert_eq!(refresh_token_for(&t, "a"), Ok("rt".to_string()));
}

#[test]
fn reminders_read_back() {
    let mut db = init();
    assert_eq!(get_reminders(&db), vec![10]);
    set_reminders(&mut db, vec![2, 10, 10]);
    assert_eq!(get_setting(&db, "lead_minutes", ""), "2,10,10");
    assert_eq!(get_reminders(&db), vec![10, 2]);
    set_reminders(&mut db, vec![99999, -5]);
    assert_eq!(get_setting(&db, "lead_minutes", ""), "1440,0");
    assert_eq!(get_reminders(&db), vec![1440, 0]);
    set_reminders(&mut db, vec![]);
    assert_eq!(get_setting(&db, "lead_minutes", ""), "10");
    assert_eq!(get_reminders(&db), vec![10]);
}

#[test]
fn account_reminders_read_back() {
    let mut db = init();
    assert_eq!(get_account_reminders(&db, "a"), None);
    set_account_reminders(&mut db, "a", Some(vec![3, 30]));
    assert_eq!(get_setting(&db, "lead:a", "?"), "3,30");
    assert_eq!(get_account_reminders(&db, "a"), Some(vec![30, 3]));
    assert_eq!(get_account_reminders(&db, "b"), None);
    set_account_reminders(&mut db, "a", Some(vec![]));
    assert_eq!(get_account_reminders(&db, "a"), None);
    set_account_reminders(&mut db, "a", Some(vec![5]));
    set_account_reminders(&mut db, "a", None);
    assert_eq!(get_setting(&db, "lead:a", "?"), "");
    assert_eq!(get_account_reminders(&db, "a"), None);
}

#[test]
fn flags_defaults_and_read_back() {
    let mut db = init();
    assert!(get_sound_enabled(&db));
    assert!(get_ignore_declined(&db));
    assert!(!get_ignore_all_day(&db));
    assert!(get_start_minimized(&db));
    assert!(!get_daily_summary_enabled(&db));
    set_sound_enabled(&mut db, false);
    set_ignore_declined(&mut db, false);
    set_ignore_all_day(&mut db, true);
    set_start_minimized(&mut db, false);
    set_daily_summary_enabled(&mut db, true);
    assert!(!get_sound_enabled(&db));
    assert!(!get_ignore_declined(&db));
    assert!(get_ignore_all_day(&db));
    assert!(!get_start_minimized(&db));
    assert!(get_daily_summary_enabled(&db));
    assert_eq!(get_setting(&db, "sound_enabled", ""), "false");
    assert_eq!(get_setting(&db, "ignore_all_day", ""), "true");
    set_setting(&mut db, "sound_enabled", "whatever");
    assert!(get_sound_enabled(&db));
}

#[test]
fn start_hidden_needs_both() {
    let mut db = init();
    assert!(start_hidden(&db, true));
    assert!(!start_hidden(&db, false));
    set_start_minimized(&mut db, false);
    assert!(!start_hidden(&db, true));
}

#[test]
fn summary_time_validation() {
    let mut db = init();
    assert_eq!(get_daily_summary_time(&db), "08:00");
    assert_eq!(set_daily_summary_time(&mut db, "07:45"), Ok(()));
    assert_eq!(get_daily_summary_time(&db), "07:45");
    assert_eq!(set_daily_summary_time(&mut db, "24:00"), Err("horário inválido (use HH:MM)".to_string()));
    assert_eq!(set_daily_summary_time(&mut db, "12:60"), Err(BAD_TIME_MESSAGE.to_string()));
    assert_eq!(set_daily_summary_time(&mut db, " 7:05"), Err(BAD_TIME_MESSAGE.to_string()));
    assert_eq!(set_daily_summary_time(&mut db, "noon"), Err(BAD_TIME_MESSAGE.to_string()));
    assert_eq!(get_daily_summary_time(&db), "07:45");
    assert_eq!(set_daily_summary_time(&mut db, "7:5"), Ok(()));
    assert_eq!(get_daily_summary_time(&db), "7:5");
}

#[test]
fn poll_minutes_get_set() {
    let mut db = init();
    assert_eq!(get_poll_minutes(&db), Ok(60));
    set_poll_minutes(&mut db, 0);
    assert_eq!(get_poll_minutes(&db), Ok(1));
    set_poll_minutes(&mut db, 5000);
    assert_eq!(get_poll_minutes(&db), Ok(1440));
    set_poll_minutes(&mut db, 30);
    assert_eq!(get_setting(&db, "poll_minutes", ""), "30");
    set_setting(&mut db, "poll_minutes", "x");
    assert_eq!(get_poll_minutes(&db), Err("intervalo inválido".to_string()));
    assert_eq!(BAD_INTERVAL_MESSAGE, "intervalo inválido");
}

#[test]
fn last_sync_get_set() {
    let mut db = init();
    assert_eq!(get_last_sync(&db), Ok(0));
    record_sync(&mut db, 1_700_000_000);
    assert_eq!(get_setting(&db, "last_sync_ts", ""), "1700000000");
    assert_eq!(get_last_sync(&db), Ok(1_700_000_000));
    set_setting(&mut db, "last_sync_ts", "bad");
    assert_eq!(get_last_sync(&db), Err("valor inválido".to_string()));
    assert_eq!(BAD_VALUE_MESSAGE, "valor inválido");
}

#[test]
fn list_events_filters() {
    let mut db = init();
    let mut declined = ev("d", 300);
    declined.declined = true;
    let mut allday = ev("a", 200);
    allday.all_day = true;
    replace_events(&mut db, "x", "c", &vec![ev("late", 400), declined, allday, ev("early", -100)]);
    let ids = |db: &Db| list_events(db).into_iter().map(|e| e.id).collect::<Vec<_>>();
    assert_eq!(ids(&db), vec!["early", "a", "late"]);
    set_ignore_all_day(&mut db, true);
    assert_eq!(ids(&db), vec!["early", "late"]);
    set_ignore_declined(&mut db, false);
    assert_eq!(ids(&db), vec!["early", "d", "late"]);
}

#[test]
fn tray_tooltip_next_event() {
    let mut db = init();
    assert_eq!(tray_tooltip(&db, 0), TRAY_IDLE);
    assert_eq!(TRAY_IDLE, "Calendar Notifier — sem eventos");
    replace_events(&mut db, "x", "c", &vec![ev("b", 500), ev("a", 100), ev("old", -5)]);
    assert_eq!(tray_tooltip(&db, 0), "Próximo: Ta");
    assert_eq!(tray_tooltip(&db, 101), "Próximo: Tb");
    assert_eq!(tray_tooltip(&db, 501), TRAY_IDLE);
}

fn cal_item(id: &str, primary: bool) -> CalendarItem {
    CalendarItem { id: id.to_string(), summary: format!("S{id}"), primary, color: "#123".to_string() }
}

#[test]
fn save_calendars_follows_primary_and_keeps_choice() {
    let mut db = init();
    save_calendars(&mut db, "a", &vec![cal_item("p", true), cal_item("o", false)]);
    let sel = |db: &Db, id: &str| list_calendars(db, "a").into_iter().find(|c| c.id == id).unwrap().selected;
    assert!(sel(&db, "p"));
    assert!(!sel(&db, "o"));
    set_calendar_selected(&mut db, "a", "p", false);
    set_calendar_selected(&mut db, "a", "o", true);
    save_calendars(&mut db, "a", &vec![cal_item("p", true), cal_item("o", false)]);
    assert!(!sel(&db, "p"));
    assert!(sel(&db, "o"));
    assert_eq!(account_calendars(&db, "a").len(), 2);
}

#[test]
fn unfollowing_drops_events() {
    let mut db = init();
    upsert_calendar(&mut db, "a", "c", "C", true, true, "");
    replace_events(&mut db, "a", "c", &vec![ev("e", 100)]);
    set_calendar_selected(&mut db, "a", "c", true);
    assert_eq!(db.events.len(), 1);
    set_calendar_selected(&mut db, "a", "c", false);
    assert!(db.events.is_empty());
}

fn calendar(email: &str, id: &str) -> Calendar {
    Calendar {
        id: id.to_string(),
        account_email: email.to_string(),
        summary: String::new(),
        selected: true,
        is_primary: false,
        color: String::new(),
    }
}

#[test]
fn group_by_account_groups() {
    let cals = vec![calendar("a", "1"), calendar("b", "2"), calendar("a", "3")];
    let g = group_by_account(&cals);
    assert_eq!(g.len(), 2);
    let a = g.iter().find(|x| x.email == "a").unwrap();
    assert_eq!(a.calendars.iter().map(|c| c.id.as_str()).collect::<Vec<_>>(), vec!["1", "3"]);
    let b = g.iter().find(|x| x.email == "b").unwrap();
    assert_eq!(b.calendars.len(), 1);
    assert!(group_by_account(&Vec::new()).is_empty());
}

#[test]
fn fetched_events_are_cached() {
    let mapped = events_for_store("a", "c", &vec![item("1", 100)]);
    assert_eq!(mapped[0].account_email, "a");
    assert_eq!(mapped[0].calendar_id, "c");
    assert_eq!(mapped[0].html_link, "https://example.com");
    let mut db = init();
    store_fetched(&mut db, "a", "c", &vec![item("1", 100), item("2", 200)]);
    assert_eq!(db.events.len(), 2);
    store_fetched(&mut db, "a", "c", &vec![item("2", 200)]);
    assert_eq!(db.events.len(), 1);
    assert_eq!(db.events[0].event.id, "2");
}

#[test]
fn calendars_message_text() {
    assert_eq!(calendars_message(3), "3 calendário(s) acessível(is)");
    assert_eq!(calendars_message(0), "0 calendário(s) acessível(is)");
}

#[test]
fn connect_and_remove_account() {
    let mut db = init();
    let mut t = TokenStore::new();
    let c = Connected {
        email: "a@x.com".to_string(),
        display_name: "Ana".to_string(),
        refresh_token: "rt".to_string(),
        access_token: "at".to_string(),
        expires_in: 3600,
    };
    save_connected(&mut db, &mut t, &c, 42);
    assert_eq!(get_refresh_token(&t, "a@x.com"), Some("rt".to_string()));
    let l = list_accounts(&db);
    assert_eq!(l.len(), 1);
    assert_eq!(l[0].display_name, "Ana");
    assert!(!l[0].needs_reauth);
    upsert_calendar(&mut db, "a@x.com", "c", "C", true, true, "");
    remove_account(&mut db, &mut t, "a@x.com");
    assert_eq!(get_refresh_token(&t, "a@x.com"), None);
    assert!(list_accounts(&db).is_empty());
    assert!(list_calendars(&db, "a@x.com").is_empty());
}

fn pending() -> PendingAuth {
    PendingAuth {
        auth_url: "https://accounts.example/auth?x=1".to_string(),
        verifier: "ver".to_string(),
        state: "st8".to_string(),
        redirect_uri: "http://127.0.0.1:5555".to_string(),
    }
}

#[test]
fn manual_completion() {
    let mut s = AuthState::default();
    assert_eq!(s.manual_exchange("http://127.0.0.1:5555/?code=c&state=st8").err(), Some(NO_PENDING_MESSAGE.to_string()));
    assert_eq!(NO_PENDING_MESSAGE, "nenhuma autorização em andamento — clique em Conectar primeiro");
    s.remember(&pending());
    assert_eq!(s.manual_exchange("not a url").err(), Some(BAD_URL_MESSAGE.to_string()));
    assert_eq!(s.manual_exchange("http://127.0.0.1:5555/?state=st8").err(), Some(NO_CODE_MESSAGE.to_string()));
    assert_eq!(s.manual_exchange("http://127.0.0.1:5555/?code=c&state=other").err(), Some(STATE_MESSAGE.to_string()));
    assert_eq!(s.manual_exchange("http://127.0.0.1:5555/?code=c").err(), Some(STATE_MESSAGE.to_string()));
    let x = s.manual_exchange("  http://127.0.0.1:5555/?state=st8&code=4%2F0Ab&scope=x  ").unwrap();
    assert_eq!(x.code, "4/0Ab");
    assert_eq!(x.verifier, "ver");
    assert_eq!(x.redirect_uri, "http://127.0.0.1:5555");
    let x = s.manual_exchange("http://127.0.0.1:5555/?code=first&code=second&state=st8").unwrap();
    assert_eq!(x.code, "second");
    assert_eq!(BAD_URL_MESSAGE, "URL inválida — cole a URL completa (começa com http://127.0.0.1)");
    assert_eq!(NO_CODE_MESSAGE, "a URL não tem 'code' — copie a URL de redirect (127.0.0.1/?code=...)");
    assert_eq!(STATE_MESSAGE, "state não confere — reinicie a conexão");
}

#[test]
fn sync_step_counts_or_stops() {
    let mut db = init();
    let r = sync_fetched(&mut db, "a", "c", 5, Ok(vec![item("1", 100), item("2", 200)]));
    assert_eq!(r, Ok(7));
    assert_eq!(db.events.len(), 2);
    let r = sync_fetched(&mut db, "a", "c", 7, Err(facts(false, vec![403], "x")));
    assert_eq!(r, Err(REAUTH_MESSAGE.to_string()));
    assert_eq!(db.events.len(), 2);
    let r = sync_fetched(&mut db, "a", "c", 0, Ok(vec![]));
    assert_eq!(r, Ok(0));
    assert!(db.events.is_empty());
}
