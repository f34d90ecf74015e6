//! Basecamp (37signals) as a calendar back-end.
//!
//! Basecamp has a JSON API where each project owns at most one schedule, and each schedule holds
//! schedule entries, the closest thing Basecamp has to calendar events:
//!
//! | concept              | Basecamp concept                                  |
//! |----------------------|---------------------------------------------------|
//! | source               | one Basecamp account (`3.basecampapi.com/ID`)     |
//! | calendar             | one project's schedule                            |
//! | event                | a schedule entry                                  |
//! | calendar id (opaque) | `"{project_id}/{schedule_id}"`                    |
//!
//! Because a calendar id carries the project id, writing knows which project's schedule a
//! booking belongs in without any lookup.
//!
//! - [`client`]: the API's values, requests and answers.
//! - [`ical`]: between schedule entries and iCalendar text.
//! - [`sync`]: listing calendars, reading events, writing and removing them.
//! - [`oauth`]: signing in with 37signals' Launchpad.
//! - [`renewal`]: renewing a source's tokens, step by step.
//! - [`laws`], [`booking_laws`], [`calendar_laws`]: what holds across reading and writing.

use vstd::prelude::*;
use self::client::BasecampClient;
use crate::decimal;
use crate::decimal::{append_i64, only_digits, parse_i64};
use crate::error;
use crate::error::{Error, Failure};
use crate::text;
use crate::text::{as_text, chars_of, find_char, string_of, trim, trim_end_matches};
use crate::web;
use crate::web::{first_path_segment, parse_url, UrlParts, UrlView};

pub mod booking_laws;
pub mod calendar_laws;
pub mod client;
pub mod ical;
pub mod laws;
pub mod oauth;
pub mod renewal;
pub mod sync;

verus! {

/// Default API host. The account id is the first path segment.
pub const API_BASE: &'static str = "https://3.basecampapi.com";

/// Maximum pages walked when listing projects, a hard stop against a pagination loop.
pub const MAX_PROJECT_PAGES: u32 = 40;

/// Maximum pages walked when listing one schedule's entries.
pub const MAX_ENTRY_PAGES: u32 = 20;

/// Pages one provider may fetch over its whole lifetime. A provider is built per operation, so
/// this caps what a single request can cost.
pub const DEFAULT_PAGE_BUDGET: u32 = 60;

// ---------------------------------------------------------------------------
// Account URLs
// ---------------------------------------------------------------------------

/// The account id in the parts of a URL: the first path segment, without `.json` at its end.
pub open spec fn account_segment(parts: UrlView) -> Seq<char> {
    match web::first_segment(parts.path) {
        Some(s) => text::without_suffixes(s, ".json"@),
        None => Seq::empty(),
    }
}

/// Scheme, host and port of a URL.
pub open spec fn origin_text(scheme: Seq<char>, host: Seq<char>, port: Option<u16>) -> Seq<char> {
    let plain = scheme + "://"@ + host;
    match port {
        Some(p) => plain + ":"@ + decimal::int_text(p as int),
        None => plain,
    }
}

/// API base and account id, from the parts of an account URL.
pub open spec fn account_of_parts(parts: UrlView) -> Result<
    (Seq<char>, Seq<char>),
    Failure<Seq<char>>,
> {
    let id = account_segment(parts);
    if id.len() == 0 {
        Err(Failure::MissingAccountId)
    } else if !decimal::all_digits(id) {
        Err(Failure::NonNumericAccountId(id))
    } else {
        match parts.host {
            None => Err(Failure::MissingHost),
            Some(host) => Ok((origin_text(parts.scheme, host, parts.port), id)),
        }
    }
}

/// API base and account id of an account URL.
pub open spec fn account_of_url(url: Seq<char>) -> Result<
    (Seq<char>, Seq<char>),
    Failure<Seq<char>>,
> {
    match web::url_parts(text::trimmed(url)) {
        None => Err(Failure::InvalidUrl(url)),
        Some(parts) => account_of_parts(parts),
    }
}

/// The view of a fallible pair of texts.
pub open spec fn pair_result_view(r: Result<(String, String), Error>) -> Result<
    (Seq<char>, Seq<char>),
    Failure<Seq<char>>,
> {
    match r {
        Ok((a, b)) => Ok((a@, b@)),
        Err(e) => Err(e@),
    }
}

/// API base and account id, from the parts of an account URL.
pub fn account_from_parts(parts: &UrlParts) -> (r: Result<(String, String), Error>)
    ensures
        pair_result_view(r) == account_of_parts(parts@),
{
    proof {
        reveal_strlit(".json");
    }
    let id = match first_path_segment(parts.path.as_str()) {
        Some(s) => trim_end_matches(s.as_str(), ".json"),
        None => String::new(),
    };
    if id.as_str().is_empty() {
        return Err(Failure::MissingAccountId);
    }
    if !only_digits(id.as_str()) {
        return Err(Failure::NonNumericAccountId(id));
    }
    let host = match as_text(&parts.host) {
        Some(host) => host,
        None => {
            return Err(Failure::MissingHost);
        },
    };
    let mut origin = String::new();
    origin.append(parts.scheme.as_str());
    origin.append("://");
    origin.append(host);
    assert(origin@ =~= parts@.scheme + "://"@ + host@);
    match parts.port {
        Some(p) => {
            origin.append(":");
            append_i64(&mut origin, p as i64);
        },
        None => {},
    }
    Ok((origin, id))
}

/// Is `url` the base URL of the account, as it stands or with a slash or `.json` at its end?
pub open spec fn is_account_url(url: Seq<char>, id: Seq<char>) -> bool {
    url == account_url_text(id) || url == account_url_text(id) + "/"@ || url == account_url_text(id)
        + ".json"@
}

/// What stands after the first slash of a path, with no slash in it, is the first segment.
proof fn lemma_first_segment(segment: Seq<char>, rest: Seq<char>)
    requires
        forall|i: int| 0 <= i < segment.len() ==> segment[i] != '/',
        rest.len() == 0 || rest[0] == '/',
    ensures
        web::first_segment("/"@ + segment + rest) == Some(segment),
{
    web::law_first_segment_ends_at_the_next_slash(segment, rest);
}

proof fn lemma_account_url(url: Seq<char>, id: Seq<char>)
    requires
        decimal::all_digits(id),
        id.len() > 0,
        is_account_url(url, id),
    ensures
        text::trimmed(url) == url,
        account_url_text(id) == web::API_ROOT@ + id,
        account_segment(web::api_parts("/"@ + id)) == id,
        account_segment(web::api_parts("/"@ + id + "/"@)) == id,
        account_segment(web::api_parts("/"@ + id + ".json"@)) == id,
        origin_text("https"@, "3.basecampapi.com"@, None) == API_BASE@,
{
    let s = account_url_text(id);
    reveal_strlit("https://3.basecampapi.com/");
    reveal_strlit("https://3.basecampapi.com");
    reveal_strlit("https");
    reveal_strlit("://");
    reveal_strlit("3.basecampapi.com");
    reveal_strlit("/");
    reveal_strlit(".json");
    assert(s =~= web::API_ROOT@ + id);
    assert("https"@ + "://"@ + "3.basecampapi.com"@ =~= API_BASE@);
    assert(s[0] == 'h');
    assert(s.last() == id.last());
    assert(decimal::is_digit(id[id.len() - 1]));
    assert((s + "/"@).last() == '/' && (s + "/"@)[0] == 'h');
    assert((s + ".json"@).last() == 'n' && (s + ".json"@)[0] == 'h');
    text::lemma_trimmed_keeps(url);
    if text::occurs_at(id, ".json"@, id.len() - 5) {
        assert(id.subrange(id.len() - 5, id.len() as int)[4] == 'n');
    }
    let named = id + ".json"@;
    assert(named.subrange(id.len() as int, named.len() as int) =~= ".json"@);
    assert(named.take(id.len() as int) =~= id);
    assert(text::before_suffix(named, ".json"@) == Some(id));
    assert(text::without_suffixes(id, ".json"@) == id);
    assert(text::without_suffixes(named, ".json"@) == id);
    lemma_first_segment(id, Seq::empty());
    lemma_first_segment(id, "/"@);
    lemma_first_segment(named, Seq::empty());
    assert("/"@ + id + Seq::empty() =~= "/"@ + id);
    assert("/"@ + named + Seq::empty() =~= "/"@ + id + ".json"@);
}

/// Split an account base URL into `(api_base, account_id)`.
///
/// Accepts `https://3.basecampapi.com/1234567` and tolerates a trailing slash or a `.json`
/// suffix. What [`account_url`] builds for a numeric account id, with or without these, is split
/// into [`API_BASE`] and that id.
pub fn split_account_url(url: &str) -> (r: Result<(String, String), Error>)
    ensures
        pair_result_view(r) == account_of_url(url@),
        forall|id: Seq<char>|
            #![trigger account_url_text(id)]
            decimal::all_digits(id) && 0 < id.len() && is_account_url(url@, id)
                ==> pair_result_view(r) == Ok::<(Seq<char>, Seq<char>), Failure<Seq<char>>>(
                (API_BASE@, id),
            ),
{
    proof {
        assert forall|id: Seq<char>|
            #![trigger account_url_text(id)]
            decimal::all_digits(id) && 0 < id.len() && is_account_url(url@, id) implies {
            &&& text::trimmed(url@) == url@
            &&& account_url_text(id) == web::API_ROOT@ + id
            &&& account_segment(web::api_parts("/"@ + id)) == id
            &&& account_segment(web::api_parts("/"@ + id + "/"@)) == id
            &&& account_segment(web::api_parts("/"@ + id + ".json"@)) == id
            &&& origin_text("https"@, "3.basecampapi.com"@, None) == API_BASE@
        } by {
            lemma_account_url(url@, id);
        }
    }
    let trimmed_url = trim(url);
    match parse_url(trimmed_url.as_str()) {
        None => Err(Failure::InvalidUrl(url.to_owned())),
        Some(parts) => account_from_parts(&parts),
    }
}

/// The base URL of an account.
pub open spec fn account_url_text(account_id: Seq<char>) -> Seq<char> {
    API_BASE@ + "/"@ + account_id
}

/// Build the account base URL that is stored for a source.
pub fn account_url(account_id: &str) -> (r: String)
    ensures
        r@ == account_url_text(account_id@),
{
    let mut out = String::new();
    out.append(API_BASE);
    out.append("/");
    out.append(account_id);
    assert(out@ =~= account_url_text(account_id@));
    out
}

/// What validating a source URL gives, where the general check of source URLs gave `general`.
pub open spec fn validated(url: Seq<char>, general: Result<(), Seq<char>>) -> Result<
    (),
    Failure<Seq<char>>,
> {
    match general {
        Err(message) => Err(Failure::RejectedUrl(message)),
        Ok(_) => match account_of_url(url) {
            Err(e) => Err(e),
            Ok(_) => Ok(()),
        },
    }
}

/// The view of the outcome of the general check of source URLs.
pub open spec fn check_view(r: Result<(), String>) -> Result<(), Seq<char>> {
    match r {
        Ok(_) => Ok(()),
        Err(m) => Err(m@),
    }
}

/// Validate a Basecamp source URL: the general check of source URLs, whose outcome is `general`,
/// then the numeric account id. The host is not pinned, but the shape must be right.
pub fn validate_url(url: &str, general: Result<(), String>) -> (r: Result<(), Error>)
    ensures
        error::result_view(r) == validated(url@, check_view(general)),
{
    match general {
        Err(message) => Err(Failure::RejectedUrl(message)),
        Ok(_) => match split_account_url(url) {
            Err(e) => Err(e),
            Ok(_) => Ok(()),
        },
    }
}

// ---------------------------------------------------------------------------
// Calendar ids
// ---------------------------------------------------------------------------

/// Project id and schedule id of a calendar id: two numbers around its first slash.
pub open spec fn ids_of(calendar_id: Seq<char>) -> Result<(i64, i64), Failure<Seq<char>>> {
    let s = text::trimmed(calendar_id);
    match text::find_char_from(s, '/', 0) {
        None => Err(Failure::MalformedCalendarId(calendar_id)),
        Some(i) => match decimal::i64_of(text::trimmed(s.take(i))) {
            None => Err(Failure::MalformedProjectId(calendar_id)),
            Some(project) => match decimal::i64_of(text::trimmed(s.skip(i + 1))) {
                None => Err(Failure::MalformedScheduleId(calendar_id)),
                Some(schedule) => Ok((project, schedule)),
            },
        },
    }
}

/// A calendar id is `"{project_id}/{schedule_id}"`. Split it back out.
pub fn split_calendar_id(calendar_id: &str) -> (r: Result<(i64, i64), Error>)
    ensures
        error::result_view(r) == ids_of(calendar_id@),
{
    let t = trim(calendar_id);
    let cs = chars_of(t.as_str());
    let slash: usize = match find_char(&cs, '/', 0) {
        Some(i) => i,
        None => {
            return Err(Failure::MalformedCalendarId(calendar_id.to_owned()));
        },
    };
    let n: usize = cs.len();
    let before = string_of(&cs, 0, slash);
    let after = string_of(&cs, slash + 1, n);
    assert(before@ =~= t@.take(slash as int));
    assert(after@ =~= t@.skip(slash + 1));
    let project: i64 = match parse_i64(trim(before.as_str()).as_str()) {
        Some(v) => v,
        None => {
            return Err(Failure::MalformedProjectId(calendar_id.to_owned()));
        },
    };
    match parse_i64(trim(after.as_str()).as_str()) {
        Some(schedule) => Ok((project, schedule)),
        None => Err(Failure::MalformedScheduleId(calendar_id.to_owned())),
    }
}

/// The calendar id of a project and its schedule.
pub open spec fn calendar_id_text(project_id: int, schedule_id: int) -> Seq<char> {
    decimal::int_text(project_id) + "/"@ + decimal::int_text(schedule_id)
}

/// Build the calendar id for a project/schedule pair.
pub fn calendar_id(project_id: i64, schedule_id: i64) -> (r: String)
    ensures
        r@ == calendar_id_text(project_id as int, schedule_id as int),
{
    let mut out = String::new();
    append_i64(&mut out, project_id);
    out.append("/");
    append_i64(&mut out, schedule_id);
    assert(out@ =~= calendar_id_text(project_id as int, schedule_id as int));
    out
}

// ---------------------------------------------------------------------------
// The provider and its page budget
// ---------------------------------------------------------------------------

/// Basecamp-backed calendar provider for a single Basecamp account.
#[derive(Debug)]
pub struct BasecampProvider {
    client: BasecampClient,
    page_budget: u32,
}

impl BasecampProvider {
    /// The client of the account.
    pub closed spec fn account_client(&self) -> BasecampClient {
        self.client
    }

    /// The pages this provider may still fetch.
    pub closed spec fn budget(&self) -> nat {
        self.page_budget as nat
    }

    /// Build a provider from the account base URL and a valid bearer token.
    pub fn new(url: &str, access_token: &str) -> (r: Result<BasecampProvider, Error>)
        ensures
            match account_of_url(url@) {
                Ok((base, account)) => {
                    &&& r matches Ok(p)
                    &&& p.account_client().base() == text::without_suffixes(base, "/"@)
                    &&& p.account_client().account() == account
                    &&& p.account_client().token() == access_token@
                    &&& p.budget() == DEFAULT_PAGE_BUDGET
                },
                Err(f) => r matches Err(e) && e@ == f,
            },
    {
        match split_account_url(url) {
            Err(e) => Err(e),
            Ok((api_base, account_id)) => Ok(
                BasecampProvider {
                    client: BasecampClient::new(
                        api_base.as_str(),
                        account_id.as_str(),
                        access_token,
                    ),
                    page_budget: DEFAULT_PAGE_BUDGET,
                },
            ),
        }
    }

    /// The client of the account.
    pub fn client(&self) -> (r: &BasecampClient)
        ensures
            *r == self.account_client(),
    {
        &self.client
    }

    /// The Basecamp account id this provider talks to.
    pub fn account_id(&self) -> (r: &str)
        ensures
            r@ == self.account_client().account(),
    {
        self.client.account_id()
    }

    /// Claim one page from this provider's budget. `false` means the caller must stop and report
    /// incomplete results.
    pub fn take_page(&mut self) -> (r: bool)
        ensures
            r == (old(self).budget() > 0),
            final(self).budget() == if r {
                (old(self).budget() - 1) as nat
            } else {
                old(self).budget()
            },
            final(self).account_client() == old(self).account_client(),
    {
        if self.page_budget == 0 {
            false
        } else {
            self.page_budget = self.page_budget - 1;
            true
        }
    }
}

// ---------------------------------------------------------------------------
// Laws
// ---------------------------------------------------------------------------

/// The numeral of an integer has no slash in it and no white space around it.
proof fn lemma_numeral(n: i64)
    ensures
        decimal::int_text(n as int).len() > 0,
        text::trimmed(decimal::int_text(n as int)) == decimal::int_text(n as int),
        forall|i: int|
            0 <= i < decimal::int_text(n as int).len() ==> decimal::int_text(n as int)[i] != '/',
        !text::is_space(decimal::int_text(n as int)[0]),
        !text::is_space(decimal::int_text(n as int).last()),
{
    let s = decimal::int_text(n as int);
    let magnitude: nat = if n < 0 {
        (-n) as nat
    } else {
        n as nat
    };
    let ds = decimal::digits(magnitude);
    decimal::lemma_digits(magnitude);
    let skipped: int = s.len() - ds.len();
    assert forall|i: int| skipped <= i < s.len() implies decimal::is_digit(#[trigger] s[i]) by {
        assert(s[i] == ds[i - skipped]);
    }
    assert(decimal::is_digit(s[s.len() - 1]));
    assert(s[0] == '-' || decimal::is_digit(s[0]));
    text::lemma_trimmed_keeps(s);
}

/// A calendar id splits back into the project and the schedule that it was built for.
pub proof fn law_calendar_id_reads_back(project_id: i64, schedule_id: i64)
    ensures
        ids_of(calendar_id_text(project_id as int, schedule_id as int)) == Ok::<
            (i64, i64),
            Failure<Seq<char>>,
        >((project_id, schedule_id)),
{
    let a = decimal::int_text(project_id as int);
    let b = decimal::int_text(schedule_id as int);
    let s = calendar_id_text(project_id as int, schedule_id as int);
    let i = a.len() as int;
    lemma_numeral(project_id);
    lemma_numeral(schedule_id);
    reveal_strlit("/");
    assert(s[0] == a[0]);
    assert(s.last() == b.last());
    text::lemma_trimmed_keeps(s);
    assert(s[i] == '/');
    assert forall|j: int| 0 <= j < i implies s[j] != '/' by {
        assert(s[j] == a[j]);
    }
    text::lemma_find_char_is(s, '/', 0, i);
    assert(s.take(i) =~= a);
    assert(s.skip(i + 1) =~= b);
    decimal::law_i64_text_reads_back(project_id);
    decimal::law_i64_text_reads_back(schedule_id);
}

/// The account of a URL stands first in its path, up to the next slash, with any number of `.json`
/// after it; where it is a number, the URL is split into scheme, host and port, where it has one,
/// and that number.
pub proof fn law_account_stands_first_in_the_path(
    parts: UrlView,
    id: Seq<char>,
    suffixes: nat,
    rest: Seq<char>,
)
    requires
        forall|i: int| 0 <= i < id.len() ==> '0' <= #[trigger] id[i] <= '9',
        rest.len() == 0 || rest[0] == '/',
        parts.path == "/"@ + (id + json_suffixes(suffixes)) + rest,
    ensures
        account_of_parts(parts) == if id.len() == 0 {
            Err(Failure::<Seq<char>>::MissingAccountId)
        } else {
            match (parts.host, parts.port) {
                (None, _) => Err(Failure::MissingHost),
                (Some(host), None) => Ok((parts.scheme + "://"@ + host, id)),
                (Some(host), Some(port)) => Ok(
                    (
                        parts.scheme + "://"@ + host + ":"@ + decimal::int_text(port as int),
                        id,
                    ),
                ),
            }
        },
{
    let segment = id + json_suffixes(suffixes);
    assert forall|i: int| 0 <= i < id.len() implies decimal::is_digit(#[trigger] id[i]) by {}
    assert forall|head: Seq<char>| id != #[trigger] (head + ".json"@) by {
        reveal_strlit(".json");
        if id == head + ".json"@ {
            assert(id[id.len() - 1] == 'n');
        }
    }
    lemma_suffixes(id, suffixes);
    lemma_first_segment(segment, rest);
}

/// That many times `.json`.
pub open spec fn json_suffixes(n: nat) -> Seq<char>
    decreases n,
{
    if n == 0 {
        Seq::empty()
    } else {
        json_suffixes((n - 1) as nat) + ".json"@
    }
}

proof fn lemma_suffixes(id: Seq<char>, n: nat)
    requires
        forall|i: int| 0 <= i < id.len() ==> #[trigger] id[i] != '/',
        forall|head: Seq<char>| id != #[trigger] (head + ".json"@),
    ensures
        text::without_suffixes(id + json_suffixes(n), ".json"@) == id,
        forall|i: int|
            0 <= i < (id + json_suffixes(n)).len() ==> (id + json_suffixes(n))[i] != '/',
    decreases n,
{
    reveal_strlit(".json");
    if n == 0 {
        assert(id + json_suffixes(n) =~= id);
        text::law_suffixes_are_taken_off(id, ".json"@);
    } else {
        let shorter = id + json_suffixes((n - 1) as nat);
        lemma_suffixes(id, (n - 1) as nat);
        text::law_suffixes_are_taken_off(shorter, ".json"@);
        let all = id + json_suffixes(n);
        assert(all =~= shorter + ".json"@);
        assert forall|i: int| 0 <= i < all.len() implies all[i] != '/' by {
            if i < shorter.len() {
                assert(all[i] == shorter[i]);
            } else {
                assert(all[i] == ".json"@[i - shorter.len()]);
            }
        }
    }
}

/// An account that is no number is refused, and quoted without any `.json` after it.
pub proof fn law_accounts_are_numbers(
    parts: UrlView,
    id: Seq<char>,
    suffixes: nat,
    rest: Seq<char>,
    i: int,
)
    requires
        forall|k: int| 0 <= k < id.len() ==> #[trigger] id[k] != '/',
        forall|head: Seq<char>| id != #[trigger] (head + ".json"@),
        0 <= i < id.len(),
        !('0' <= id[i] <= '9'),
        rest.len() == 0 || rest[0] == '/',
        parts.path == "/"@ + (id + json_suffixes(suffixes)) + rest,
    ensures
        account_of_parts(parts) == Err::<(Seq<char>, Seq<char>), Failure<Seq<char>>>(
            Failure::NonNumericAccountId(id),
        ),
{
    lemma_suffixes(id, suffixes);
    lemma_first_segment(id + json_suffixes(suffixes), rest);
    assert(!decimal::is_digit(id[i]));
}

/// A URL whose path does not start with a slash names no account.
pub proof fn law_paths_start_with_a_slash(parts: UrlView)
    requires
        parts.path.len() == 0 || parts.path[0] != '/',
    ensures
        account_of_parts(parts) == Err::<(Seq<char>, Seq<char>), Failure<Seq<char>>>(
            Failure::MissingAccountId,
        ),
{
    reveal_strlit("/");
    if text::occurs_at(parts.path, "/"@, 0) {
        assert(parts.path.subrange(0, 1)[0] == parts.path[0]);
    }
}

/// The URL of an account is the API's address, a slash and the account id.
pub proof fn law_account_url_names_the_account(account_id: Seq<char>)
    ensures
        account_url_text(account_id) == "https://3.basecampapi.com/"@ + account_id,
{
    reveal_strlit("https://3.basecampapi.com/");
    reveal_strlit("https://3.basecampapi.com");
    reveal_strlit("/");
    assert(account_url_text(account_id) =~= "https://3.basecampapi.com/"@ + account_id);
}

/// White space around an account URL makes no difference, but to how it is quoted where it is
/// none.
pub proof fn law_padded_account_urls(before: Seq<char>, url: Seq<char>, after: Seq<char>)
    requires
        forall|i: int| 0 <= i < before.len() ==> text::is_space(#[trigger] before[i]),
        forall|i: int| 0 <= i < after.len() ==> text::is_space(#[trigger] after[i]),
    ensures
        account_of_url(before + url + after) == match account_of_url(url) {
            Err(Failure::InvalidUrl(_)) => Err(Failure::InvalidUrl(before + url + after)),
            other => other,
        },
        web::url_parts(text::trimmed(url)) is None <==> account_of_url(url) == Err::<
            (Seq<char>, Seq<char>),
            Failure<Seq<char>>,
        >(Failure::InvalidUrl(url)),
        web::url_parts(text::trimmed(url)) matches Some(parts) ==> account_of_url(url)
            == account_of_parts(parts),
{
    text::law_padding_is_trimmed(before, url, after);
}

/// A source URL is valid exactly where the general check lets it pass and it names an account; the
/// general check's refusal comes first, in its own words.
pub proof fn law_valid_urls_pass_both_checks(url: Seq<char>, general: Result<(), Seq<char>>)
    ensures
        validated(url, general) is Ok <==> general is Ok && account_of_url(url) is Ok,
        general matches Err(message) ==> validated(url, general) == Err::<(), Failure<Seq<char>>>(
            Failure::RejectedUrl(message),
        ),
        general is Ok ==> (account_of_url(url) matches Err(e) ==> validated(url, general) == Err::<
            (),
            Failure<Seq<char>>,
        >(e)),
{
}

/// A calendar id is two numbers with a slash between them, and white space around either makes no
/// difference; the first is the project's, the second the schedule's. Without a slash it is
/// malformed; else what is no number before the first slash, and then what is none after it, is
/// what is wrong. The whole id is quoted.
pub proof fn law_calendar_ids_are_two_numbers(left: Seq<char>, right: Seq<char>)
    requires
        forall|i: int| 0 <= i < left.len() ==> #[trigger] left[i] != '/',
    ensures
        ids_of(left + "/"@ + right) == match (
            decimal::i64_of(text::trimmed(left)),
            decimal::i64_of(text::trimmed(right)),
        ) {
            (None, _) => Err(Failure::MalformedProjectId(left + "/"@ + right)),
            (Some(_), None) => Err(Failure::MalformedScheduleId(left + "/"@ + right)),
            (Some(project), Some(schedule)) => Ok((project, schedule)),
        },
        ids_of(left) == Err::<(i64, i64), Failure<Seq<char>>>(Failure::MalformedCalendarId(left)),
{
    reveal_strlit("/");
    let s = left + "/"@ + right;
    text::law_trimming_takes_white_space_only(s);
    let (a, b) = choose|a: int, b: int|
        #![trigger s.subrange(a, b)]
        0 <= a <= b <= s.len() && text::trimmed(s) == s.subrange(a, b) && (forall|i: int|
            0 <= i < a ==> text::is_space(#[trigger] s[i])) && (forall|i: int|
            b <= i < s.len() ==> text::is_space(#[trigger] s[i]));
    let n = left.len() as int;
    assert(s[n] == '/');
    assert(!text::is_space('/'));
    assert(a <= n < b);
    let t = s.subrange(a, b);
    assert forall|j: int| 0 <= j < n - a implies t[j] != '/' by {
        assert(t[j] == left[j + a]);
    }
    assert(t[n - a] == '/');
    text::lemma_find_char_is(t, '/', 0, n - a);
    let head = s.take(a);
    let tail = s.skip(b);
    let l = t.take(n - a);
    let r = t.skip(n - a + 1);
    assert forall|i: int| 0 <= i < head.len() implies text::is_space(#[trigger] head[i]) by {
        assert(head[i] == s[i]);
    }
    assert forall|i: int| 0 <= i < tail.len() implies text::is_space(#[trigger] tail[i]) by {
        assert(tail[i] == s[b + i]);
    }
    let none = Seq::<char>::empty();
    text::law_padding_is_trimmed(head, l, none);
    assert(head + l + none =~= left);
    text::law_padding_is_trimmed(none, r, tail);
    assert(none + r + tail =~= right);
    // Without a slash.
    text::law_trimming_takes_white_space_only(left);
    let (c, d) = choose|c: int, d: int|
        #![trigger left.subrange(c, d)]
        0 <= c <= d <= left.len() && text::trimmed(left) == left.subrange(c, d) && (forall|i: int|
            0 <= i < c ==> text::is_space(#[trigger] left[i])) && (forall|i: int|
            d <= i < left.len() ==> text::is_space(#[trigger] left[i]));
    let u = left.subrange(c, d);
    text::lemma_find_char_from(u, '/', 0);
    if text::find_char_from(u, '/', 0) is Some {
        let i = text::find_char_from(u, '/', 0)->0;
        assert(u[i] == left[c + i]);
    }
}

} // verus!
