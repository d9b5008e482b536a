# calendar_notifier

A desktop notifier for Google Calendar: it connects one or more Google
accounts, keeps their events in a local store and reminds the user a chosen
number of minutes before each event (several reminders per event, globally
or per account), with an optional daily summary.

## Layout

- `src/` — the verified library (Verus). Every public function carries a
  contract over a mathematical model of its data:
  - `text` — decimal numbers, trimming, splitting and joining over `Seq<char>`;
  - `reminders` — reading reminder lists and the record of fired reminders;
  - `table`, `order` — keyed tables and sorting, shared by the store;
  - `store` — accounts, calendars, cached events and settings as maps;
  - `secrets` — refresh tokens per account;
  - `auth` — PKCE, the consent URL, the loopback redirect, token grants;
  - `google` — Calendar API addresses, queries and answers;
  - `scheduler` — what each tick of the reminder loop shows and records,
    and the daily summary;
  - `commands` — what the settings and account screens ask of the store;
  - `laws` — properties that relate several operations.
- `tests/` — tests of the library, run with the real outside crates.
- `app/` — the Tauri shell: window, tray, notifications, SQLite file, token
  vault, HTTP and the background loops. It hands plain values to the library
  and acts on what it returns.
