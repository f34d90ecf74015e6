# calrs: Basecamp as a calendar back-end

Basecamp has no CalDAV. It has a JSON API where each project owns at most one schedule, and each
schedule holds entries. This library maps that onto calendars and events: it lists a project's
schedule as a calendar, turns schedule entries into iCalendar text, turns the iCalendar text of a
booking into a schedule entry, finds the entry of a booking again by a marker in its description,
and signs in with 37signals' Launchpad.

The library is written in Verus. It computes and decides; it sends nothing and reads no database.

## Layout

| path                        | what it holds                                                  |
|-----------------------------|----------------------------------------------------------------|
| `src/basecamp/client.rs`    | the API's values, requests and answers                         |
| `src/basecamp/ical.rs`      | schedule entries to iCalendar text, and back                   |
| `src/basecamp/sync.rs`      | listing calendars, reading events, writing and removing them   |
| `src/basecamp/oauth.rs`     | Launchpad: requests, answers, identity, expiry of tokens       |
| `src/basecamp/renewal.rs`   | renewing a source's tokens, step by step                       |
| `src/basecamp/laws.rs`, `src/basecamp/calendar_laws.rs` | what holds across reading and writing |
| `src/providers/`            | which back-end a stored source has, and what it needs          |
| `src/utils.rs`              | the grammar of iCalendar text                                  |
| `src/time.rs`, `src/web.rs` | dates and URLs, on top of `chrono`, `reqwest` and `urlencoding` |
| `src/text.rs`, `src/decimal.rs`, `src/json.rs`, `src/error.rs` | texts, numerals, JSON, failures |
| `app/`                      | ordinary Rust around the library: HTTP, database, serde        |

Where work has to be done outside (a page fetched, a secret decrypted), a function of the library
says what to do next and takes what came of it: see `PageWalk`, `EntryFetch`, `EntryLookup` and
`Renewal`.

The functions that call `chrono`, `reqwest::Url` and `urlencoding`, and the specification of
`String::push`, are the only ones whose contracts are not proved; each says in its doc comment
what it takes from the crate it calls.

`app/` takes encryption, the general check of source URLs and the CalDAV and Exchange back-ends
from the program it is built into, through the traits of `app/host.rs`. That program also chooses
the TLS features of `reqwest`.
