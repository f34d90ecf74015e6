//! The Basecamp JSON API: its values, its requests and its answers.
//!
//! Three rules of the API are kept here:
//!
//! - A `User-Agent` with an app name and a contact is mandatory, so [`request_headers`] always
//!   sends one.
//! - Collections come in pages. Pages are asked for by number, and a short page is the last one.
//! - A 429 answer means wait. One retry after a short `Retry-After` covers the burst limit; a
//!   second 429 is handed on.

use vstd::prelude::*;
use crate::decimal;
use crate::decimal::{append_i64, append_u64, parse_u64};
use crate::error::{Error, Failure};
use crate::text;
use crate::text::{chars_of, same, string_of, trim, trim_end_matches, trim_start_char};
use crate::time;
use crate::time::{parse_date_by, parse_rfc3339, CivilDate, UtcDateTime, ISO_DATE};

verus! {

/// Page size Basecamp uses for the collections this module reads. Used only to decide whether a
/// page was the last one, never sent to the server.
pub const PER_PAGE_HINT: usize = 15;

/// Timeout for a single API call, in seconds.
pub const REQUEST_TIMEOUT_SECS: u64 = 30;

/// Cap on a `Retry-After` that is slept through inline, in seconds. Longer waits are a failure,
/// so that an on-demand sync fails fast.
pub const MAX_RETRY_AFTER_SECS: u64 = 5;

/// The most bytes of an answer's body that an error quotes.
pub const MAX_QUOTED_BYTES: usize = 300;

/// The status of a throttled request.
pub const TOO_MANY_REQUESTS: u16 = 429;

/// The version that the `User-Agent` names.
pub const VERSION: &'static str = "0.1.0";

/// The contact that the `User-Agent` names for an instance without a public URL.
pub const PROJECT_URL: &'static str = "https://github.com/joelgombin/calrs";

// ---------------------------------------------------------------------------
// Values
// ---------------------------------------------------------------------------

/// One entry in a project's dock (the project's enabled tools).
#[derive(Debug, Clone)]
pub struct DockTool {
    pub id: i64,
    pub name: String,
    pub enabled: bool,
}

/// A Basecamp project ("bucket").
#[derive(Debug, Clone)]
pub struct Project {
    pub id: i64,
    pub name: String,
    pub updated_at: Option<String>,
    pub dock: Vec<DockTool>,
}

/// A schedule entry: Basecamp's calendar event.
#[derive(Debug, Clone)]
pub struct ScheduleEntry {
    pub id: i64,
    pub summary: Option<String>,
    pub description: Option<String>,
    pub starts_at: Option<String>,
    pub ends_at: Option<String>,
    pub all_day: bool,
    /// `active`, `archived` or `trashed`.
    pub status: Option<String>,
    pub app_url: Option<String>,
}

/// Body for creating or updating a schedule entry.
///
/// `starts_at` and `ends_at` go on the wire verbatim: Basecamp reads a bare date as an all-day
/// entry and a full RFC 3339 timestamp as a timed one, and the two forms are not
/// interchangeable.
#[derive(Debug, Clone, PartialEq, Eq)]
pub struct ScheduleEntryPayload {
    pub summary: String,
    pub starts_at: String,
    pub ends_at: String,
    pub description: Option<String>,
    pub all_day: bool,
    /// Notify the entry's participants. Confirmation emails are sent elsewhere, so this stays
    /// off: a booking should not double-notify the host.
    pub notify: bool,
}

/// A payload, as contracts speak of it.
pub struct PayloadView {
    pub summary: Seq<char>,
    pub starts_at: Seq<char>,
    pub ends_at: Seq<char>,
    pub description: Option<Seq<char>>,
    pub all_day: bool,
    pub notify: bool,
}

impl View for ScheduleEntryPayload {
    type V = PayloadView;

    open spec fn view(&self) -> PayloadView {
        PayloadView {
            summary: self.summary@,
            starts_at: self.starts_at@,
            ends_at: self.ends_at@,
            description: text::opt_string_view(self.description),
            all_day: self.all_day,
            notify: self.notify,
        }
    }
}

/// One page of a collection.
#[derive(Debug)]
pub struct Page<T> {
    pub items: Vec<T>,
    /// Is there a page after this one?
    pub has_next: bool,
}

/// Is there a page after one with that many items?
pub open spec fn has_page_after(items: nat) -> bool {
    items >= PER_PAGE_HINT
}

impl<T> Page<T> {
    /// The page with these items. A short page is the last one.
    pub fn of(items: Vec<T>) -> (r: Page<T>)
        ensures
            r.has_next == has_page_after(items@.len()),
            r.items == items,
            r.has_next == (items@.len() >= PER_PAGE_HINT),
    {
        let has_next = items.len() >= PER_PAGE_HINT;
        Page { items, has_next }
    }
}

/// Is this tool a schedule that is enabled?
pub open spec fn is_live_schedule(tool: DockTool) -> bool {
    tool.name@ == "schedule"@ && tool.enabled
}

/// The id of the first enabled schedule of a dock, not before index `from`.
pub open spec fn schedule_from(dock: Seq<DockTool>, from: int) -> Option<i64>
    decreases dock.len() - from,
{
    if from < 0 || from >= dock.len() {
        None
    } else if is_live_schedule(dock[from]) {
        Some(dock[from].id)
    } else {
        schedule_from(dock, from + 1)
    }
}

/// The id of a project's schedule, where its schedule tool is enabled.
pub open spec fn schedule_of(project: Project) -> Option<i64> {
    schedule_from(project.dock@, 0)
}

impl Project {
    /// The id of this project's schedule, if the schedule tool is enabled.
    ///
    /// A project whose schedule is disabled has no calendar to read or write, so it is skipped
    /// entirely rather than surfaced as an empty calendar.
    pub fn schedule_dock_id(&self) -> (r: Option<i64>)
        ensures
            r == schedule_of(*self),
    {
        let mut i: usize = 0;
        while i < self.dock.len()
            invariant
                i <= self.dock@.len(),
                schedule_of(*self) == schedule_from(self.dock@, i as int),
            decreases self.dock@.len() - i,
        {
            if same(self.dock[i].name.as_str(), "schedule") && self.dock[i].enabled {
                return Some(self.dock[i].id);
            }
            i = i + 1;
        }
        None
    }
}

/// Midnight UTC of a date.
pub open spec fn midnight(date: CivilDate) -> UtcDateTime {
    UtcDateTime { date, hour: 0, minute: 0, second: 0, nanos: 0 }
}

/// A timestamp, or else the midnight of a bare date.
pub open spec fn chosen_start(stamp: Option<UtcDateTime>, bare: Option<CivilDate>) -> Option<
    UtcDateTime,
> {
    match stamp {
        Some(t) => Some(t),
        None => match bare {
            Some(d) => Some(midnight(d)),
            None => None,
        },
    }
}

/// The start of an entry in UTC, where it can be read.
pub open spec fn entry_start(entry: ScheduleEntry) -> Option<UtcDateTime> {
    match text::opt_string_view(entry.starts_at) {
        Some(raw) => chosen_start(time::rfc3339_utc(raw), time::parsed_date(raw, ISO_DATE@)),
        None => None,
    }
}

/// A timestamp, or else the midnight of a bare date.
pub fn choose_start(stamp: Option<UtcDateTime>, bare: Option<CivilDate>) -> (r: Option<
    UtcDateTime,
>)
    ensures
        r == chosen_start(stamp, bare),
{
    match stamp {
        Some(t) => Some(t),
        None => match bare {
            Some(date) => Some(UtcDateTime { date, hour: 0, minute: 0, second: 0, nanos: 0 }),
            None => None,
        },
    }
}

impl ScheduleEntry {
    /// Parse `starts_at` into UTC. Bare dates (all-day entries) resolve to midnight UTC, which is
    /// precise enough for the window check that uses it. A timestamp in the form that Basecamp
    /// writes, or a bare date, is read as what it tells.
    pub fn starts_at_utc(&self) -> (r: Option<UtcDateTime>)
        ensures
            r == entry_start(*self),
            r matches Some(t) ==> t.valid(),
            self.starts_at matches Some(s) ==> {
                &&& forall|t: UtcDateTime| #[trigger] time::is_told_stamp(s@, t) ==> r == Some(t)
                &&& forall|d: CivilDate| #[trigger] time::is_told_date(s@, d) ==> r == Some(
                    midnight(d),
                )
                &&& s@.len() == 0 ==> r is None
            },
    {
        proof {
            assert forall|s: Seq<char>, d: CivilDate| #[trigger] time::is_told_date(s, d) implies
                s.len() == 10 by {
                time::lemma_told_date(s, d);
            }
        }
        match &self.starts_at {
            Some(raw) => {
                let stamp = parse_rfc3339(raw.as_str());
                let bare = parse_date_by(raw.as_str(), ISO_DATE);
                choose_start(stamp, bare)
            },
            None => None,
        }
    }
}

// ---------------------------------------------------------------------------
// Requests
// ---------------------------------------------------------------------------

/// The method of a request.
#[derive(Debug, Clone, Copy, PartialEq, Eq, Structural)]
pub enum Method {
    Get,
    Post,
    Put,
}

/// A request, without its body.
#[derive(Debug)]
pub struct ApiRequest {
    pub method: Method,
    pub url: String,
}

/// A request as contracts speak of it: its method and its URL.
pub open spec fn request_view(r: ApiRequest) -> (Method, Seq<char>) {
    (r.method, r.url@)
}

/// The request for one page of an account's projects.
pub open spec fn projects_request(client: BasecampClient, page: int) -> (Method, Seq<char>) {
    (Method::Get, client.url_text("projects.json"@) + "?page="@ + decimal::int_text(page))
}

/// The request for one page of a schedule's entries.
pub open spec fn entries_request(
    client: BasecampClient,
    project_id: int,
    schedule_id: int,
    page: int,
) -> (Method, Seq<char>) {
    (
        Method::Get,
        client.url_text(entries_path(project_id, schedule_id)) + "?page="@ + decimal::int_text(
            page,
        ),
    )
}

/// The request that creates an entry of a schedule.
pub open spec fn creation_request(
    client: BasecampClient,
    project_id: int,
    schedule_id: int,
) -> (Method, Seq<char>) {
    (Method::Post, client.url_text(entries_path(project_id, schedule_id)))
}

/// The request that replaces an entry.
pub open spec fn update_request(client: BasecampClient, project_id: int, entry_id: int) -> (
    Method,
    Seq<char>,
) {
    (
        Method::Put,
        client.url_text(
            "buckets/"@ + decimal::int_text(project_id) + "/schedule_entries/"@
                + decimal::int_text(entry_id) + ".json"@,
        ),
    )
}

/// The request that trashes an entry.
pub open spec fn trash_request(client: BasecampClient, project_id: int, entry_id: int) -> (
    Method,
    Seq<char>,
) {
    (
        Method::Put,
        client.url_text(
            "buckets/"@ + decimal::int_text(project_id) + "/recordings/"@ + decimal::int_text(
                entry_id,
            ) + "/status/trashed.json"@,
        ),
    )
}

/// Where one Basecamp account is reached, and the token it is reached with.
#[derive(Debug)]
pub struct BasecampClient {
    api_base: String,
    account_id: String,
    access_token: String,
}

impl BasecampClient {
    /// The API's base URL, without closing slashes.
    pub closed spec fn base(&self) -> Seq<char> {
        self.api_base@
    }

    /// The account id.
    pub closed spec fn account(&self) -> Seq<char> {
        self.account_id@
    }

    /// The bearer token.
    pub closed spec fn token(&self) -> Seq<char> {
        self.access_token@
    }

    /// The URL of a path of this account.
    pub open spec fn url_text(&self, path: Seq<char>) -> Seq<char> {
        self.base() + "/"@ + self.account() + "/"@ + text::without_leading(path, '/')
    }

    /// A client of one account.
    pub fn new(api_base: &str, account_id: &str, access_token: &str) -> (r: BasecampClient)
        ensures
            r.base() == text::without_suffixes(api_base@, "/"@),
            r.account() == account_id@,
            r.token() == access_token@,
    {
        proof {
            reveal_strlit("/");
        }
        BasecampClient {
            api_base: trim_end_matches(api_base, "/"),
            account_id: account_id.to_owned(),
            access_token: access_token.to_owned(),
        }
    }

    /// The account id.
    pub fn account_id(&self) -> (r: &str)
        ensures
            r@ == self.account(),
    {
        self.account_id.as_str()
    }

    /// The bearer token that every request carries.
    pub fn access_token(&self) -> (r: &str)
        ensures
            r@ == self.token(),
    {
        self.access_token.as_str()
    }

    /// The URL of a path of this account.
    pub fn url(&self, path: &str) -> (r: String)
        ensures
            r@ == self.url_text(path@),
    {
        let rest = trim_start_char(path, '/');
        let mut out = String::new();
        out.append(self.api_base.as_str());
        out.append("/");
        out.append(self.account_id.as_str());
        out.append("/");
        out.append(rest.as_str());
        assert(out@ =~= self.url_text(path@));
        out
    }

    /// The request for one page of the account's active projects.
    pub fn get_projects_page(&self, page: u32) -> (r: ApiRequest)
        ensures
            request_view(r) == projects_request(*self, page as int),
            r.method == Method::Get,
            r.url@ == self.url_text("projects.json"@) + "?page="@ + decimal::int_text(page as int),
    {
        let mut url = self.url("projects.json");
        url.append("?page=");
        append_u64(&mut url, page as u64);
        ApiRequest { method: Method::Get, url }
    }

    /// The request for one page of a schedule's active entries.
    ///
    /// The route names the project too, so that a mis-addressed calendar id fails instead of
    /// silently reading another project's schedule.
    pub fn get_schedule_entries_page(
        &self,
        project_id: i64,
        schedule_id: i64,
        page: u32,
    ) -> (r: ApiRequest)
        ensures
            request_view(r) == entries_request(
                *self,
                project_id as int,
                schedule_id as int,
                page as int,
            ),
            r.method == Method::Get,
            r.url@ == self.url_text(entries_path(project_id as int, schedule_id as int)) + "?page="@
                + decimal::int_text(page as int),
    {
        let path = entries_route(project_id, schedule_id);
        let mut url = self.url(path.as_str());
        url.append("?page=");
        append_u64(&mut url, page as u64);
        ApiRequest { method: Method::Get, url }
    }

    /// The request that creates a schedule entry.
    pub fn create_schedule_entry(&self, project_id: i64, schedule_id: i64) -> (r: ApiRequest)
        ensures
            request_view(r) == creation_request(*self, project_id as int, schedule_id as int),
            r.method == Method::Post,
            r.url@ == self.url_text(entries_path(project_id as int, schedule_id as int)),
    {
        let path = entries_route(project_id, schedule_id);
        ApiRequest { method: Method::Post, url: self.url(path.as_str()) }
    }

    /// The request that replaces a schedule entry in place.
    pub fn update_schedule_entry(&self, project_id: i64, entry_id: i64) -> (r: ApiRequest)
        ensures
            request_view(r) == update_request(*self, project_id as int, entry_id as int),
            r.method == Method::Put,
            r.url@ == self.url_text(
                "buckets/"@ + decimal::int_text(project_id as int) + "/schedule_entries/"@
                    + decimal::int_text(entry_id as int) + ".json"@,
            ),
    {
        let path = route("buckets/", project_id, "/schedule_entries/", entry_id, ".json");
        ApiRequest { method: Method::Put, url: self.url(path.as_str()) }
    }

    /// The request that moves a recording (here: a schedule entry) to the trash.
    pub fn trash_recording(&self, project_id: i64, recording_id: i64) -> (r: ApiRequest)
        ensures
            request_view(r) == trash_request(*self, project_id as int, recording_id as int),
            r.method == Method::Put,
            r.url@ == self.url_text(
                "buckets/"@ + decimal::int_text(project_id as int) + "/recordings/"@
                    + decimal::int_text(recording_id as int) + "/status/trashed.json"@,
            ),
    {
        let path = route(
            "buckets/",
            project_id,
            "/recordings/",
            recording_id,
            "/status/trashed.json",
        );
        ApiRequest { method: Method::Put, url: self.url(path.as_str()) }
    }
}

/// The path of a schedule's entries.
pub open spec fn entries_path(project_id: int, schedule_id: int) -> Seq<char> {
    "buckets/"@ + decimal::int_text(project_id) + "/schedules/"@ + decimal::int_text(schedule_id)
        + "/entries.json"@
}

fn route(head: &str, first: i64, middle: &str, second: i64, tail: &str) -> (r: String)
    ensures
        r@ == head@ + decimal::int_text(first as int) + middle@ + decimal::int_text(second as int)
            + tail@,
{
    let mut out = String::new();
    out.append(head);
    append_i64(&mut out, first);
    out.append(middle);
    append_i64(&mut out, second);
    out.append(tail);
    assert(out@ =~= head@ + decimal::int_text(first as int) + middle@ + decimal::int_text(
        second as int,
    ) + tail@);
    out
}

fn entries_route(project_id: i64, schedule_id: i64) -> (r: String)
    ensures
        r@ == entries_path(project_id as int, schedule_id as int),
{
    route("buckets/", project_id, "/schedules/", schedule_id, "/entries.json")
}

/// The contact that the `User-Agent` names.
pub open spec fn contact_text(base_url: Option<Seq<char>>) -> Seq<char> {
    match base_url {
        Some(u) => if u.len() == 0 {
            PROJECT_URL@
        } else {
            u
        },
        None => PROJECT_URL@,
    }
}

/// The `User-Agent` of an instance.
pub open spec fn user_agent_text(base_url: Option<Seq<char>>) -> Seq<char> {
    "calrs/"@ + VERSION@ + " ("@ + contact_text(base_url) + ")"@
}

/// The `User-Agent` Basecamp requires: app name plus a contact.
///
/// The contact is the instance's public base URL when one is configured, falling back to the
/// project URL for an instance with no base URL set.
pub fn user_agent(base_url: Option<&str>) -> (r: String)
    ensures
        r@ == user_agent_text(text::opt_view(base_url)),
{
    let contact = match base_url {
        Some(u) => if u.is_empty() {
            PROJECT_URL
        } else {
            u
        },
        None => PROJECT_URL,
    };
    let mut out = String::new();
    out.append("calrs/");
    out.append(VERSION);
    out.append(" (");
    out.append(contact);
    out.append(")");
    assert(out@ =~= user_agent_text(text::opt_view(base_url)));
    out
}

/// A header as contracts speak of it: its name and its value.
pub open spec fn header_view(h: (&'static str, String)) -> (Seq<char>, Seq<char>) {
    (h.0@, h.1@)
}

/// The headers of a request, besides its authorization.
pub open spec fn headers_text(base_url: Option<Seq<char>>, has_body: bool) -> Seq<
    (Seq<char>, Seq<char>),
> {
    let always = seq![
        ("User-Agent"@, user_agent_text(base_url)),
        ("Accept"@, "application/json"@),
    ];
    if has_body {
        always.push(("Content-Type"@, "application/json"@))
    } else {
        always
    }
}

/// The headers of a request, besides its authorization.
pub fn request_headers(base_url: Option<&str>, has_body: bool) -> (r: Vec<(&'static str, String)>)
    ensures
        r@.map_values(|h: (&'static str, String)| header_view(h)) == headers_text(
            text::opt_view(base_url),
            has_body,
        ),
{
    let mut out: Vec<(&'static str, String)> = Vec::new();
    out.push(("User-Agent", user_agent(base_url)));
    out.push(("Accept", "application/json".to_owned()));
    if has_body {
        out.push(("Content-Type", "application/json".to_owned()));
    }
    assert(out@.map_values(|h: (&'static str, String)| header_view(h)) =~= headers_text(
        text::opt_view(base_url),
        has_body,
    ));
    out
}

// ---------------------------------------------------------------------------
// Answers
// ---------------------------------------------------------------------------

/// The seconds that a `Retry-After` header asks to wait, where it is a number of seconds.
pub open spec fn asked_delay(header: Option<Seq<char>>) -> Option<u64> {
    match header {
        Some(h) => decimal::u64_of(text::trimmed(h)),
        None => None,
    }
}

/// Read `Retry-After` (delay-seconds form) from a 429 response. The date form is no delay.
pub fn retry_after_secs(header: Option<&str>) -> (r: Option<u64>)
    ensures
        r == asked_delay(text::opt_view(header)),
{
    match header {
        Some(h) => {
            let t = trim(h);
            parse_u64(t.as_str())
        },
        None => None,
    }
}

/// Which sending of a request an answer is for.
#[derive(Debug, Clone, Copy, PartialEq, Eq, Structural)]
pub enum Attempt {
    First,
    Second,
}

/// What to do with an answer.
#[derive(Debug)]
pub enum Reaction {
    /// Hand the answer on.
    Deliver,
    /// Wait that many seconds, then send the request a second time.
    RetryAfter(u64),
    /// Give up.
    Fail(Error),
}

/// What to do with an answer, as contracts speak of it.
pub enum ReactionView {
    Deliver,
    RetryAfter(u64),
    Fail(Failure<Seq<char>>),
}

impl View for Reaction {
    type V = ReactionView;

    open spec fn view(&self) -> ReactionView {
        match self {
            Reaction::Deliver => ReactionView::Deliver,
            Reaction::RetryAfter(s) => ReactionView::RetryAfter(*s),
            Reaction::Fail(e) => ReactionView::Fail(e@),
        }
    }
}

/// What to do with an answer: a first 429 is retried after the delay it asks for (one second
/// where it asks for none), unless that is too long; any other answer is handed on.
pub open spec fn reaction(
    attempt: Attempt,
    status: u16,
    retry_after: Option<Seq<char>>,
) -> ReactionView {
    if attempt == Attempt::Second || status != TOO_MANY_REQUESTS {
        ReactionView::Deliver
    } else {
        let wait = match asked_delay(retry_after) {
            Some(s) => s,
            None => 1,
        };
        if wait > MAX_RETRY_AFTER_SECS {
            ReactionView::Fail(Failure::RateLimited(wait))
        } else {
            ReactionView::RetryAfter(wait)
        }
    }
}

/// Decide on an answer: retry once on 429 if `Retry-After` is short.
pub fn react(attempt: Attempt, status: u16, retry_after: Option<&str>) -> (r: Reaction)
    ensures
        r@ == reaction(attempt, status, text::opt_view(retry_after)),
{
    if attempt == Attempt::Second || status != TOO_MANY_REQUESTS {
        return Reaction::Deliver;
    }
    let wait: u64 = match retry_after_secs(retry_after) {
        Some(s) => s,
        None => 1,
    };
    if wait > MAX_RETRY_AFTER_SECS {
        Reaction::Fail(Failure::RateLimited(wait))
    } else {
        Reaction::RetryAfter(wait)
    }
}

/// Is this the status of a request that succeeded?
pub open spec fn is_success(status: u16) -> bool {
    200 <= status < 300
}

/// What an answer comes to, where a refusal is told as `failure`.
pub open spec fn verdict(status: u16, failure: Failure<Seq<char>>) -> Result<
    (),
    Failure<Seq<char>>,
> {
    if is_success(status) {
        Ok(())
    } else {
        Err(failure)
    }
}

/// Accept the answer to an API call, or tell its status and the start of its body.
pub fn check_answer(status: u16, status_text: &str, body: &str) -> (r: Result<(), Error>)
    ensures
        crate::error::result_view(r) == verdict(
            status,
            Failure::ApiStatus(status_text@, shortened(body@)),
        ),
        crate::error::result_view(r) == if is_success(status) {
            Ok::<(), Failure<Seq<char>>>(())
        } else {
            Err(Failure::ApiStatus(status_text@, shortened(body@)))
        },
{
    if 200 <= status && status < 300 {
        Ok(())
    } else {
        Err(Failure::ApiStatus(status_text.to_owned(), truncate(body)))
    }
}

/// Accept the answer to a trash call, or tell its status and the start of its body.
pub fn check_trash_answer(status: u16, status_text: &str, body: &str) -> (r: Result<(), Error>)
    ensures
        crate::error::result_view(r) == verdict(
            status,
            Failure::TrashFailed(status_text@, shortened(body@)),
        ),
        crate::error::result_view(r) == if is_success(status) {
            Ok::<(), Failure<Seq<char>>>(())
        } else {
            Err(Failure::TrashFailed(status_text@, shortened(body@)))
        },
{
    if 200 <= status && status < 300 {
        Ok(())
    } else {
        Err(Failure::TrashFailed(status_text.to_owned(), truncate(body)))
    }
}

/// The failure of a body that could not be decoded, with the decoder's message.
pub fn unreadable_body(problem: &str, body: &str) -> (r: Error)
    ensures
        r@ == Failure::<Seq<char>>::UnreadableBody(problem@, shortened(body@)),
{
    Failure::UnreadableBody(problem.to_owned(), truncate(body))
}

/// The number of bytes of a character in UTF-8.
pub open spec fn utf8_width(c: char) -> nat {
    if (c as int) < 0x80 {
        1
    } else if (c as int) < 0x800 {
        2
    } else if (c as int) < 0x10000 {
        3
    } else {
        4
    }
}

/// The number of bytes of a text in UTF-8.
pub open spec fn utf8_length(s: Seq<char>) -> nat
    decreases s.len(),
{
    if s.len() == 0 {
        0
    } else {
        utf8_width(s[0]) + utf8_length(s.skip(1))
    }
}

/// How many leading characters of `s` fit into `limit` bytes.
pub open spec fn fitting(s: Seq<char>, limit: int) -> int
    decreases s.len(),
{
    if s.len() == 0 || utf8_width(s[0]) > limit {
        0
    } else {
        1 + fitting(s.skip(1), limit - utf8_width(s[0]))
    }
}

/// A body as errors quote it: whole, or its first characters within the byte limit and an
/// ellipsis.
pub open spec fn shortened(body: Seq<char>) -> Seq<char> {
    if utf8_length(body) <= MAX_QUOTED_BYTES {
        body
    } else {
        body.take(fitting(body, MAX_QUOTED_BYTES as int)) + "…"@
    }
}

fn width_of(c: char) -> (r: usize)
    ensures
        r == utf8_width(c),
{
    let n: u32 = c as u32;
    if n < 0x80 {
        1
    } else if n < 0x800 {
        2
    } else if n < 0x10000 {
        3
    } else {
        4
    }
}

/// Keep API error bodies out of the logs at full length.
pub fn truncate(body: &str) -> (r: String)
    ensures
        r@ == shortened(body@),
{
    let cs = chars_of(body);
    let mut i: usize = 0;
    let mut room: usize = MAX_QUOTED_BYTES;
    assert(cs@.skip(0) =~= cs@);
    while i < cs.len() && width_of(cs[i]) <= room
        invariant
            i <= cs@.len(),
            room <= MAX_QUOTED_BYTES,
            fitting(cs@, MAX_QUOTED_BYTES as int) == i + fitting(cs@.skip(i as int), room as int),
            utf8_length(cs@) == MAX_QUOTED_BYTES - room + utf8_length(cs@.skip(i as int)),
        decreases cs@.len() - i,
    {
        assert(cs@.skip(i as int).skip(1) =~= cs@.skip(i + 1));
        room = room - width_of(cs[i]);
        i = i + 1;
    }
    if i == cs.len() {
        let whole = string_of(&cs, 0, cs.len());
        assert(whole@ =~= body@);
        whole
    } else {
        assert(cs@.skip(i as int).len() > 0);
        let mut out = string_of(&cs, 0, i);
        assert(out@ =~= body@.take(i as int));
        out.append("…");
        out
    }
}

// ---------------------------------------------------------------------------
// Laws
// ---------------------------------------------------------------------------

/// A request is sent a second time only after a first 429, and never after more than
/// [`MAX_RETRY_AFTER_SECS`]; whatever answers the second sending is handed on.
pub proof fn law_one_short_retry(attempt: Attempt, status: u16, retry_after: Option<Seq<char>>)
    ensures
        reaction(attempt, status, retry_after) matches ReactionView::RetryAfter(wait) ==> {
            &&& attempt == Attempt::First
            &&& status == TOO_MANY_REQUESTS
            &&& wait <= MAX_RETRY_AFTER_SECS
        },
        attempt == Attempt::Second ==> reaction(attempt, status, retry_after)
            == ReactionView::Deliver,
{
}

/// Every `User-Agent` starts with the app's name and holds a contact that is not empty between
/// its parentheses.
pub proof fn law_user_agent_names_a_contact(base_url: Option<Seq<char>>)
    ensures
        text::occurs_at(user_agent_text(base_url), "calrs/"@, 0),
        contact_text(base_url).len() > 0,
        text::contains_text(user_agent_text(base_url), "("@ + contact_text(base_url) + ")"@),
{
    let ua = user_agent_text(base_url);
    let contact = contact_text(base_url);
    reveal_strlit("https://github.com/joelgombin/calrs");
    reveal_strlit(" (");
    reveal_strlit("(");
    reveal_strlit(")");
    assert(ua.subrange(0, "calrs/"@.len() as int) =~= "calrs/"@);
    let shown = "("@ + contact + ")"@;
    let at: int = ("calrs/"@.len() + VERSION@.len() + 1) as int;
    assert(ua.subrange(at, at + shown.len()) =~= shown);
    assert(text::occurs_at(ua, shown, at));
}

proof fn lemma_utf8_length_adds(a: Seq<char>, b: Seq<char>)
    ensures
        utf8_length(a + b) == utf8_length(a) + utf8_length(b),
    decreases a.len(),
{
    if a.len() == 0 {
        assert(a + b =~= b);
    } else {
        assert((a + b).skip(1) =~= a.skip(1) + b);
        lemma_utf8_length_adds(a.skip(1), b);
    }
}

proof fn lemma_fitting(s: Seq<char>, limit: int)
    requires
        limit >= 0,
    ensures
        0 <= fitting(s, limit) <= s.len(),
        utf8_length(s.take(fitting(s, limit))) <= limit,
    decreases s.len(),
{
    if s.len() > 0 && utf8_width(s[0]) <= limit {
        let left = limit - utf8_width(s[0]);
        lemma_fitting(s.skip(1), left);
        let head = s.take(fitting(s, limit));
        assert(head.skip(1) =~= s.skip(1).take(fitting(s.skip(1), left)));
    }
}

proof fn lemma_width_is_encoded_width(c: char)
    ensures
        vstd::utf8::encode_scalar(c as u32).len() == utf8_width(c),
{
    vstd::utf8::char_is_scalar(c);
}

/// The number of bytes of a text is the length of its UTF-8 encoding.
pub proof fn law_utf8_length_is_encoded_length(s: Seq<char>)
    ensures
        utf8_length(s) == vstd::utf8::encode_utf8(s).len(),
    decreases s.len(),
{
    if s.len() > 0 {
        law_utf8_length_is_encoded_length(s.skip(1));
        assert(s.drop_first() =~= s.skip(1));
        lemma_width_is_encoded_width(s[0]);
    }
}

/// What an error quotes of a body is at most [`MAX_QUOTED_BYTES`] bytes of whole characters from
/// the body's start, and an ellipsis where the body was longer.
pub proof fn law_quoted_body_is_bounded(body: Seq<char>)
    ensures
        utf8_length(shortened(body)) <= MAX_QUOTED_BYTES + 3,
        shortened(body) == body || exists|n: int|
            0 <= n < body.len() && utf8_length(#[trigger] body.take(n)) <= MAX_QUOTED_BYTES
                && shortened(body) == body.take(n) + "…"@,
{
    if utf8_length(body) > MAX_QUOTED_BYTES {
        let n = fitting(body, MAX_QUOTED_BYTES as int);
        lemma_fitting(body, MAX_QUOTED_BYTES as int);
        lemma_utf8_length_adds(body.take(n), "…"@);
        reveal_strlit("…");
        reveal_with_fuel(utf8_length, 2);
        assert("…"@.skip(1) =~= Seq::<char>::empty());
        if n == body.len() {
            assert(body.take(n) =~= body);
        }
        assert(shortened(body) == body.take(n) + "…"@);
    }
}

/// The schedule of a project is the enabled tool named `schedule` that stands first in its dock,
/// wherever that is, and none where no tool of the dock is an enabled schedule.
pub proof fn law_schedule_is_the_first_enabled_one(project: Project)
    ensures
        match schedule_of(project) {
            Some(n) => exists|i: int|
                #![trigger project.dock@[i]]
                0 <= i < project.dock@.len() && project.dock@[i].name@ == "schedule"@
                    && project.dock@[i].enabled && project.dock@[i].id == n && forall|j: int|
                    0 <= j < i ==> !((#[trigger] project.dock@[j]).name@ == "schedule"@
                        && project.dock@[j].enabled),
            None => forall|j: int|
                0 <= j < project.dock@.len() ==> !((#[trigger] project.dock@[j]).name@
                    == "schedule"@ && project.dock@[j].enabled),
        },
{
    lemma_schedule_from(project.dock@, 0);
}

proof fn lemma_schedule_from(dock: Seq<DockTool>, from: int)
    requires
        0 <= from,
    ensures
        match schedule_from(dock, from) {
            Some(n) => exists|i: int|
                #![trigger dock[i]]
                from <= i < dock.len() && dock[i].name@ == "schedule"@ && dock[i].enabled
                    && dock[i].id == n && forall|j: int|
                    from <= j < i ==> !((#[trigger] dock[j]).name@ == "schedule"@
                        && dock[j].enabled),
            None => forall|j: int|
                from <= j < dock.len() ==> !((#[trigger] dock[j]).name@ == "schedule"@
                    && dock[j].enabled),
        },
    decreases dock.len() - from,
{
    if from < dock.len() {
        if dock[from].name@ == "schedule"@ && dock[from].enabled {
            assert(dock[from].id == dock[from].id);
        } else {
            lemma_schedule_from(dock, from + 1);
        }
    }
}

/// An entry starts when its start text says, read as a timestamp, or else at the UTC midnight of
/// the bare date that the text says. An entry without a start text, or with one that says
/// neither, has no start that can be read. Nothing else of the entry matters.
pub proof fn law_start_is_what_the_text_says(entry: ScheduleEntry, raw: Seq<char>)
    requires
        text::opt_string_view(entry.starts_at) == Some(raw),
    ensures
        time::rfc3339_utc(raw) is Some ==> entry_start(entry) == time::rfc3339_utc(raw),
        time::rfc3339_utc(raw) is None ==> match time::parsed_date(raw, "%Y-%m-%d"@) {
            Some(d) => entry_start(entry) matches Some(t) && t.date == d && t.hour == 0 && t.minute
                == 0 && t.second == 0 && t.nanos == 0,
            None => entry_start(entry) is None,
        },
{
}

/// An entry without a start text has no start that can be read.
pub proof fn law_no_text_is_no_start(entry: ScheduleEntry)
    ensures
        entry.starts_at is None ==> entry_start(entry) is None,
{
}

/// A first 429 answer is retried exactly when it asks for five seconds or less, after exactly the
/// wait it asks for, or one second where it asks for no number of seconds; where it asks for
/// more, that wait is the failure. Every other answer is handed on.
pub proof fn law_throttled_requests_wait_as_asked(
    attempt: Attempt,
    status: u16,
    retry_after: Option<Seq<char>>,
)
    ensures
        reaction(attempt, status, retry_after) == ReactionView::Deliver <==> !(attempt
            == Attempt::First && status == 429),
        attempt == Attempt::First && status == 429 ==> match asked_delay(retry_after) {
            Some(wait) => if wait <= 5 {
                reaction(attempt, status, retry_after) == ReactionView::RetryAfter(wait)
            } else {
                reaction(attempt, status, retry_after) == ReactionView::Fail(
                    Failure::RateLimited(wait),
                )
            },
            None => reaction(attempt, status, retry_after) == ReactionView::RetryAfter(1),
        },
{
}

/// A `Retry-After` of a number of seconds, with or without white space around it, asks for that
/// many; none asks for none.
pub proof fn law_asked_delay_reads_back(before: Seq<char>, seconds: u64, after: Seq<char>)
    requires
        forall|i: int| 0 <= i < before.len() ==> text::is_space(#[trigger] before[i]),
        forall|i: int| 0 <= i < after.len() ==> text::is_space(#[trigger] after[i]),
    ensures
        asked_delay(Some(before + decimal::int_text(seconds as int) + after)) == Some(seconds),
        asked_delay(None) is None,
{
    let n = decimal::int_text(seconds as int);
    decimal::lemma_digits(seconds as nat);
    assert(decimal::is_digit(n[0]));
    assert(decimal::is_digit(n[n.len() - 1]));
    text::lemma_trimmed_keeps(n);
    text::law_padding_is_trimmed(before, n, after);
}

/// A `Retry-After` that holds anything but digits and a leading plus sign, once trimmed, asks for
/// no number of seconds.
pub proof fn law_other_delays_are_none(header: Seq<char>, i: int)
    requires
        0 <= i < text::trimmed(header).len(),
        !decimal::is_digit(text::trimmed(header)[i]),
        i > 0 || text::trimmed(header)[i] != '+',
    ensures
        asked_delay(Some(header)) is None,
{
    let s = text::trimmed(header);
    if s[0] == '+' {
        assert(s.skip(1)[i - 1] == s[i]);
    }
}

/// A path is asked for below the account, and a slash before it makes no difference.
pub proof fn law_urls_lie_below_the_account(client: BasecampClient, path: Seq<char>)
    ensures
        path.len() > 0 && path[0] != '/' ==> client.url_text(path) == client.base() + "/"@
            + client.account() + "/"@ + path,
        client.url_text("/"@ + path) == client.url_text(path),
{
    reveal_strlit("/");
    text::law_leading_characters_are_taken_off(path, '/');
    assert("/"@ =~= seq!['/']);
}

/// The entries of a schedule are asked for by project and schedule, in this order.
pub proof fn law_entries_are_addressed_by_project_and_schedule(
    client: BasecampClient,
    project_id: i64,
    schedule_id: i64,
)
    ensures
        client.url_text(entries_path(project_id as int, schedule_id as int)) == client.base() + "/"@
            + client.account() + "/buckets/"@ + decimal::int_text(project_id as int)
            + "/schedules/"@ + decimal::int_text(schedule_id as int) + "/entries.json"@,
{
    let path = entries_path(project_id as int, schedule_id as int);
    reveal_strlit("buckets/");
    reveal_strlit("/buckets/");
    reveal_strlit("/");
    assert("/buckets/"@ =~= "/"@ + "buckets/"@);
    assert(path[0] == 'b');
    law_urls_lie_below_the_account(client, path);
    assert(client.url_text(path) =~= client.base() + "/"@ + client.account() + "/buckets/"@
        + decimal::int_text(project_id as int) + "/schedules/"@ + decimal::int_text(
        schedule_id as int,
    ) + "/entries.json"@);
}

/// The contact is the instance's public URL wherever it has one, and the project's page only
/// where it has none.
pub proof fn law_contact_is_the_instance(base_url: Option<Seq<char>>)
    ensures
        match base_url {
            Some(u) => u.len() > 0 ==> user_agent_text(base_url) == "calrs/0.1.0 ("@ + u + ")"@,
            None => true,
        },
        base_url is None || base_url->0.len() == 0 ==> user_agent_text(base_url)
            == "calrs/0.1.0 (https://github.com/joelgombin/calrs)"@,
{
    reveal_strlit("calrs/");
    reveal_strlit("0.1.0");
    reveal_strlit(" (");
    reveal_strlit(")");
    reveal_strlit("calrs/0.1.0 (");
    reveal_strlit("https://github.com/joelgombin/calrs");
    reveal_strlit("calrs/0.1.0 (https://github.com/joelgombin/calrs)");
    assert("calrs/"@ + VERSION@ + " ("@ =~= "calrs/0.1.0 ("@);
    assert("calrs/0.1.0 ("@ + PROJECT_URL@ + ")"@
        =~= "calrs/0.1.0 (https://github.com/joelgombin/calrs)"@);
}

/// Every request names the app and accepts JSON; it says that it sends JSON exactly where it has
/// a body. No header stands twice.
pub proof fn law_headers_of_requests(base_url: Option<Seq<char>>, has_body: bool)
    ensures
        headers_text(base_url, has_body).contains(("User-Agent"@, user_agent_text(base_url))),
        headers_text(base_url, has_body).contains(("Accept"@, "application/json"@)),
        headers_text(base_url, has_body).contains(("Content-Type"@, "application/json"@))
            <==> has_body,
        headers_text(base_url, has_body).len() == if has_body {
            3int
        } else {
            2int
        },
{
    reveal_strlit("User-Agent");
    reveal_strlit("Accept");
    reveal_strlit("Content-Type");
    let h = headers_text(base_url, has_body);
    assert(h[0] == ("User-Agent"@, user_agent_text(base_url)));
    assert(h[1] == ("Accept"@, "application/json"@));
    assert("User-Agent"@.len() == 10 && "Accept"@.len() == 6 && "Content-Type"@.len() == 12);
    if has_body {
        assert(h[2] == ("Content-Type"@, "application/json"@));
    }
}

/// A body that fits the limit is quoted whole. Of a longer one as much is quoted as fits: one
/// character more would be too much.
pub proof fn law_quoted_body_is_as_long_as_fits(body: Seq<char>)
    ensures
        vstd::utf8::encode_utf8(body).len() <= 300 ==> shortened(body) == body,
        vstd::utf8::encode_utf8(body).len() > 300 ==> exists|n: int|
            #![trigger body.take(n)]
            0 <= n < body.len() && shortened(body) == body.take(n) + "…"@
                && vstd::utf8::encode_utf8(body.take(n)).len() <= 300 && vstd::utf8::encode_utf8(
                body.take(n + 1),
            ).len() > 300,
{
    law_utf8_length_is_encoded_length(body);
    if utf8_length(body) > 300 {
        let n = fitting(body, 300);
        lemma_fitting(body, 300);
        lemma_fitting_is_longest(body, 300);
        if n == body.len() {
            assert(body.take(n) =~= body);
        }
        law_utf8_length_is_encoded_length(body.take(n));
        law_utf8_length_is_encoded_length(body.take(n + 1));
        assert(shortened(body) == body.take(n) + "…"@);
    }
}

proof fn lemma_fitting_is_longest(s: Seq<char>, limit: int)
    requires
        limit >= 0,
    ensures
        fitting(s, limit) < s.len() ==> utf8_length(s.take(fitting(s, limit) + 1)) > limit,
    decreases s.len(),
{
    if s.len() > 0 {
        if utf8_width(s[0]) <= limit {
            let left = limit - utf8_width(s[0]);
            lemma_fitting_is_longest(s.skip(1), left);
            lemma_fitting(s.skip(1), left);
            let n = fitting(s, limit);
            if n < s.len() {
                assert(s.take(n + 1).skip(1) =~= s.skip(1).take(n));
            }
        } else {
            assert(s.take(1)[0] == s[0]);
            assert(s.take(1).skip(1) =~= Seq::<char>::empty());
            reveal_with_fuel(utf8_length, 2);
        }
    }
}

/// An answer counts as a success exactly where its status is of the two hundreds.
pub proof fn law_success_is_two_hundred(status: u16)
    ensures
        is_success(status) <==> status as int / 100 == 2,
{
}

/// Each request is made with its method and below its own path of the account: projects and
/// entries are read by page number, an entry is created among those of its schedule, replaced
/// under its own id, and taken off the schedule by trashing the recording of that id.
pub proof fn law_requests_are_addressed_exactly(
    client: BasecampClient,
    project_id: i64,
    schedule_id: i64,
    entry_id: i64,
    page: u32,
)
    ensures
        ({
            let root = client.base() + "/"@ + client.account();
            let project = root + "/buckets/"@ + decimal::int_text(project_id as int);
            let entries = project + "/schedules/"@ + decimal::int_text(schedule_id as int)
                + "/entries.json"@;
            let paged = "?page="@ + decimal::int_text(page as int);
            &&& projects_request(client, page as int) == (
                Method::Get,
                root + "/projects.json"@ + paged,
            )
            &&& entries_request(client, project_id as int, schedule_id as int, page as int) == (
                Method::Get,
                entries + paged,
            )
            &&& creation_request(client, project_id as int, schedule_id as int) == (
                Method::Post,
                entries,
            )
            &&& update_request(client, project_id as int, entry_id as int) == (
                Method::Put,
                project + "/schedule_entries/"@ + decimal::int_text(entry_id as int) + ".json"@,
            )
            &&& trash_request(client, project_id as int, entry_id as int) == (
                Method::Put,
                project + "/recordings/"@ + decimal::int_text(entry_id as int)
                    + "/status/trashed.json"@,
            )
        }),
{
    let root = client.base() + "/"@ + client.account();
    let number = decimal::int_text(project_id as int);
    let project = root + "/buckets/"@ + number;
    let paged = "?page="@ + decimal::int_text(page as int);
    law_entries_are_addressed_by_project_and_schedule(client, project_id, schedule_id);
    reveal_strlit("/");
    reveal_strlit("projects.json");
    reveal_strlit("/projects.json");
    reveal_strlit("buckets/");
    reveal_strlit("/buckets/");
    assert("/projects.json"@ =~= "/"@ + "projects.json"@);
    assert("/buckets/"@ =~= "/"@ + "buckets/"@);
    law_urls_lie_below_the_account(client, "projects.json"@);
    assert(client.url_text("projects.json"@) + "?page="@ + decimal::int_text(page as int) =~= root
        + "/projects.json"@ + paged);
    let entries = project + "/schedules/"@ + decimal::int_text(schedule_id as int)
        + "/entries.json"@;
    assert(entries + "?page="@ + decimal::int_text(page as int) =~= entries + paged);
    let own = "/schedule_entries/"@ + decimal::int_text(entry_id as int) + ".json"@;
    let update = "buckets/"@ + number + "/schedule_entries/"@ + decimal::int_text(entry_id as int)
        + ".json"@;
    assert(update =~= "buckets/"@ + number + own);
    assert(update[0] == 'b');
    law_urls_lie_below_the_account(client, update);
    assert(client.url_text(update) =~= project + "/schedule_entries/"@ + decimal::int_text(
        entry_id as int,
    ) + ".json"@);
    let trash = "buckets/"@ + number + "/recordings/"@ + decimal::int_text(entry_id as int)
        + "/status/trashed.json"@;
    assert(trash[0] == 'b');
    law_urls_lie_below_the_account(client, trash);
    assert(client.url_text(trash) =~= project + "/recordings/"@ + decimal::int_text(
        entry_id as int,
    ) + "/status/trashed.json"@);
}

/// A page of fewer than fifteen items is the last one, and only such a page is.
pub proof fn law_short_pages_are_last(items: nat)
    ensures
        has_page_after(items) <==> items >= 15,
{
}

/// A payload is viewed field by field.
pub proof fn law_payloads_are_viewed_field_by_field(payload: ScheduleEntryPayload)
    ensures
        payload@.summary == payload.summary@,
        payload@.starts_at == payload.starts_at@,
        payload@.ends_at == payload.ends_at@,
        payload@.description is Some <==> payload.description is Some,
        payload.description is Some ==> payload@.description->0 == payload.description->0@,
        payload@.all_day == payload.all_day,
        payload@.notify == payload.notify,
{
}

/// An answer is accepted exactly where its status is from 200 to 299, and else refused as told.
pub proof fn law_answers_are_accepted_by_their_status(status: u16, failure: Failure<Seq<char>>)
    ensures
        verdict(status, failure) is Ok <==> 200 <= status <= 299,
        verdict(status, failure) matches Err(e) ==> e == failure,
{
}

} // verus!
