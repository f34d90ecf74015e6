//! Walking the pages of projects and schedules.
//!
//! The API has no filter by time and the order of its answers is not documented, so a schedule
//! is read page by page to its end, or to the page cap, or until the provider's page budget is
//! spent. What stops early is reported as incomplete.
//!
//! A walk is asked for its next step and handed the page that the step asked for, until it
//! stops.

use vstd::prelude::*;
use super::client;
use super::client::{
    ApiRequest, BasecampClient, Method, Page, Project, ScheduleEntry, ScheduleEntryPayload,
};
use super::ical;
use super::ical::{
    entry_id_from_synthetic_uid, entry_payload_from_ics, is_past_calendar, synth_vcalendar,
    uid_marker_matches,
};
use super::{calendar_id, split_calendar_id, BasecampProvider, MAX_ENTRY_PAGES, MAX_PROJECT_PAGES};
use crate::decimal;
use crate::decimal::i64_text;
use crate::error::{Error, Failure};
use crate::providers::{CalendarView, EventSnapshot, RawEvent, RemoteCalendar};
use crate::text;
use crate::text::as_text;
use crate::time;
use crate::time::{is_before, parse_rfc3339, CivilDate, UtcDateTime};
use crate::utils;

verus! {

// ---------------------------------------------------------------------------
// Pages
// ---------------------------------------------------------------------------

/// Why a walk stops.
#[derive(Debug, Clone, Copy, PartialEq, Eq, Structural)]
pub enum Stop {
    /// The last page was read.
    Finished,
    /// The page cap was reached before the last page.
    PageCap,
    /// The provider's page budget was spent before the last page.
    Budget,
}

/// What a walk does next.
#[derive(Debug, Clone, Copy, PartialEq, Eq, Structural)]
pub enum Step {
    /// Fetch the page of that number.
    Fetch(u32),
    /// Fetch no more.
    Stop(Stop),
}

/// How far a walk has come.
#[derive(Debug)]
pub struct PageWalk {
    asked: u32,
    cap: u32,
    pending: bool,
    finished: bool,
}

/// How far a walk has come, as contracts speak of it.
pub struct WalkView {
    /// The pages that were asked for.
    pub asked: nat,
    /// The most pages that may be asked for.
    pub cap: nat,
    /// Was a page asked for that is not read yet?
    pub pending: bool,
    /// Was the last page read?
    pub finished: bool,
}

impl View for PageWalk {
    type V = WalkView;

    closed spec fn view(&self) -> WalkView {
        WalkView {
            asked: self.asked as nat,
            cap: self.cap as nat,
            pending: self.pending,
            finished: self.finished,
        }
    }
}

/// What a walk does next: the page after those it asked for, while the last page is not read and
/// cap and budget allow.
pub open spec fn step_of(w: WalkView, budget: nat) -> Step {
    if w.finished {
        Step::Stop(Stop::Finished)
    } else if w.asked >= w.cap {
        Step::Stop(Stop::PageCap)
    } else if budget == 0 {
        Step::Stop(Stop::Budget)
    } else {
        Step::Fetch((w.asked + 1) as u32)
    }
}

/// A walk after its next step.
pub open spec fn stepped(w: WalkView, budget: nat) -> WalkView {
    if step_of(w, budget) is Fetch {
        WalkView { asked: w.asked + 1, pending: true, ..w }
    } else {
        w
    }
}

/// The budget after a walk's next step: a page that is asked for costs one, a stop costs nothing.
pub open spec fn budget_after(w: WalkView, budget: nat) -> nat {
    if step_of(w, budget) is Fetch {
        (budget - 1) as nat
    } else {
        budget
    }
}

/// A walk that has asked for nothing yet.
pub open spec fn fresh(cap: u32) -> WalkView {
    WalkView { asked: 0, cap: cap as nat, pending: false, finished: false }
}

/// A walk after a page was read.
pub open spec fn page_read(w: WalkView, has_next: bool) -> WalkView {
    WalkView { pending: false, finished: w.finished || !has_next, ..w }
}

impl PageWalk {
    /// A walk that has asked for nothing yet.
    pub fn new(cap: u32) -> (r: PageWalk)
        ensures
            r@ == fresh(cap),
    {
        PageWalk { asked: 0, cap, pending: false, finished: false }
    }

    /// Decide the next step, claiming a page of the provider's budget where one is to be fetched.
    pub fn next(&mut self, provider: &mut BasecampProvider) -> (r: Step)
        requires
            !old(self)@.pending,
        ensures
            r == step_of(old(self)@, old(provider).budget()),
            final(self)@ == stepped(old(self)@, old(provider).budget()),
            final(provider).budget() == budget_after(old(self)@, old(provider).budget()),
            final(provider).account_client() == old(provider).account_client(),
    {
        if self.finished {
            Step::Stop(Stop::Finished)
        } else if self.asked >= self.cap {
            Step::Stop(Stop::PageCap)
        } else if !provider.take_page() {
            Step::Stop(Stop::Budget)
        } else {
            self.asked = self.asked + 1;
            self.pending = true;
            Step::Fetch(self.asked)
        }
    }

    /// Take note of the page that was asked for.
    pub fn read(&mut self, has_next: bool)
        requires
            old(self)@.pending,
        ensures
            final(self)@ == page_read(old(self)@, has_next),
    {
        self.pending = false;
        if !has_next {
            self.finished = true;
        }
    }

    /// Was the last page read?
    pub fn is_finished(&self) -> (r: bool)
        ensures
            r == self@.finished,
    {
        self.finished
    }
}

/// Where a walk stops, if `has_next` tells of each page number whether there is a page after it.
pub open spec fn stop_of(w: WalkView, budget: nat, has_next: spec_fn(nat) -> bool) -> Stop
    decreases w.cap - w.asked,
{
    match step_of(w, budget) {
        Step::Stop(stop) => stop,
        Step::Fetch(_) => stop_of(
            page_read(stepped(w, budget), has_next(w.asked + 1)),
            budget_after(w, budget),
            has_next,
        ),
    }
}

/// How many more pages a walk fetches until it stops.
pub open spec fn pages_of(w: WalkView, budget: nat, has_next: spec_fn(nat) -> bool) -> nat
    decreases w.cap - w.asked,
{
    match step_of(w, budget) {
        Step::Stop(_) => 0,
        Step::Fetch(_) => 1 + pages_of(
            page_read(stepped(w, budget), has_next(w.asked + 1)),
            budget_after(w, budget),
            has_next,
        ),
    }
}

/// A walk fetches no more pages than its cap and the budget allow, whatever the server answers.
pub proof fn law_walk_is_bounded(w: WalkView, budget: nat, has_next: spec_fn(nat) -> bool)
    requires
        w.asked <= w.cap,
    ensures
        pages_of(w, budget, has_next) <= budget,
        pages_of(w, budget, has_next) <= w.cap - w.asked,
    decreases w.cap - w.asked,
{
    if step_of(w, budget) is Fetch {
        law_walk_is_bounded(
            page_read(stepped(w, budget), has_next(w.asked + 1)),
            budget_after(w, budget),
            has_next,
        );
    }
}

/// Can a walk reach the page of number `p`?
pub open spec fn in_reach(w: WalkView, budget: nat, p: nat) -> bool {
    w.asked < p <= w.cap && p <= w.asked + budget
}

/// A walk finishes exactly where one of the pages within its cap and the budget is the last one.
/// In particular a walk that is stopped by the cap or the budget never counts as finished.
pub proof fn law_walk_finishes_at_last_page(
    w: WalkView,
    budget: nat,
    has_next: spec_fn(nat) -> bool,
)
    requires
        !w.finished,
    ensures
        stop_of(w, budget, has_next) == Stop::Finished <==> exists|p: nat|
            #[trigger] in_reach(w, budget, p) && !has_next(p),
    decreases w.cap - w.asked,
{
    reveal_with_fuel(stop_of, 2);
    if step_of(w, budget) is Fetch {
        let page = w.asked + 1;
        let after = page_read(stepped(w, budget), has_next(page));
        let left = budget_after(w, budget);
        assert(in_reach(w, budget, page));
        if has_next(page) {
            law_walk_finishes_at_last_page(after, left, has_next);
            assert forall|p: nat| #[trigger] in_reach(w, budget, p) && !has_next(p) implies in_reach(
                after,
                left,
                p,
            ) by {}
            assert forall|p: nat| #[trigger] in_reach(after, left, p) implies in_reach(
                w,
                budget,
                p,
            ) by {}
            if stop_of(w, budget, has_next) == Stop::Finished {
                let p = choose|p: nat| #[trigger] in_reach(after, left, p) && !has_next(p);
                assert(in_reach(w, budget, p) && !has_next(p));
            }
            if exists|p: nat| #[trigger] in_reach(w, budget, p) && !has_next(p) {
                let p = choose|p: nat| #[trigger] in_reach(w, budget, p) && !has_next(p);
                assert(in_reach(after, left, p) && !has_next(p));
            }
        } else {
            assert(step_of(after, left) == Step::Stop(Stop::Finished));
            assert(in_reach(w, budget, page) && !has_next(page));
        }
    } else {
        assert forall|p: nat| !(#[trigger] in_reach(w, budget, p)) by {}
    }
}

// ---------------------------------------------------------------------------
// Listing calendars
// ---------------------------------------------------------------------------

/// The calendar of a project with a schedule.
pub open spec fn calendar_of(project: Project, schedule: i64) -> CalendarView {
    CalendarView {
        id: super::calendar_id_text(project.id as int, schedule as int),
        display_name: Some(project.name@),
        color: None,
        change_marker: text::opt_string_view(project.updated_at),
        sync_state: None,
    }
}

/// The calendars of projects: one for each project whose schedule is enabled, in order.
pub open spec fn calendars_of(projects: Seq<Project>) -> Seq<CalendarView>
    decreases projects.len(),
{
    if projects.len() == 0 {
        Seq::empty()
    } else {
        let before = calendars_of(projects.drop_last());
        match client::schedule_of(projects.last()) {
            Some(schedule) => before.push(calendar_of(projects.last(), schedule)),
            None => before,
        }
    }
}

/// The views of calendars.
pub open spec fn calendar_views(v: Seq<RemoteCalendar>) -> Seq<CalendarView> {
    v.map_values(|c: RemoteCalendar| c@)
}

/// Listing the calendars of an account.
pub struct CalendarListing {
    walk: PageWalk,
    calendars: Vec<RemoteCalendar>,
    seen: Ghost<Seq<Project>>,
}

fn copied(o: &Option<String>) -> (r: Option<String>)
    ensures
        text::opt_string_view(r) == text::opt_string_view(*o),
{
    match o {
        Some(s) => Some(s.clone()),
        None => None,
    }
}

impl CalendarListing {
    /// How far the walk has come.
    pub closed spec fn progress(&self) -> WalkView {
        self.walk@
    }

    /// The projects that were read.
    pub closed spec fn projects(&self) -> Seq<Project> {
        self.seen@
    }

    /// The calendars so far are those of the projects that were read.
    pub closed spec fn inv(&self) -> bool {
        calendar_views(self.calendars@) == calendars_of(self.seen@)
    }

    /// A listing that has read nothing yet.
    pub fn new() -> (r: CalendarListing)
        ensures
            r.inv(),
            r.progress() == fresh(MAX_PROJECT_PAGES),
            r.projects() == Seq::<Project>::empty(),
    {
        let calendars: Vec<RemoteCalendar> = Vec::new();
        assert(calendar_views(calendars@) =~= Seq::<CalendarView>::empty());
        CalendarListing {
            walk: PageWalk::new(MAX_PROJECT_PAGES),
            calendars,
            seen: Ghost(Seq::empty()),
        }
    }

    /// Decide the next step.
    pub fn next(&mut self, provider: &mut BasecampProvider) -> (r: Step)
        requires
            old(self).inv(),
            !old(self).progress().pending,
        ensures
            final(self).inv(),
            r == step_of(old(self).progress(), old(provider).budget()),
            final(self).progress() == stepped(old(self).progress(), old(provider).budget()),
            final(self).projects() == old(self).projects(),
            final(provider).budget() == budget_after(
                old(self).progress(),
                old(provider).budget(),
            ),
            final(provider).account_client() == old(provider).account_client(),
    {
        self.walk.next(provider)
    }

    /// Read the page that was asked for.
    pub fn accept(&mut self, page: &Page<Project>)
        requires
            old(self).inv(),
            old(self).progress().pending,
        ensures
            final(self).inv(),
            final(self).progress() == page_read(old(self).progress(), page.has_next),
            final(self).projects() == old(self).projects() + page.items@,
    {
        let ghost before = self.seen@;
        let mut i: usize = 0;
        assert(before + page.items@.take(0) =~= before);
        while i < page.items.len()
            invariant
                i <= page.items@.len(),
                calendar_views(self.calendars@) == calendars_of(
                    before + page.items@.take(i as int),
                ),
                self.walk@ == old(self).walk@,
            decreases page.items@.len() - i,
        {
            let project = &page.items[i];
            let ghost shown = calendar_views(self.calendars@);
            proof {
                let more = before + page.items@.take(i + 1);
                assert(more.drop_last() =~= before + page.items@.take(i as int));
                assert(more.last() == *project);
            }
            match project.schedule_dock_id() {
                Some(schedule) => {
                    let calendar = RemoteCalendar {
                        id: calendar_id(project.id, schedule),
                        display_name: Some(project.name.clone()),
                        color: None,
                        change_marker: copied(&project.updated_at),
                        sync_state: None,
                    };
                    self.calendars.push(calendar);
                    assert(calendar_views(self.calendars@) =~= shown.push(
                        calendar_of(*project, schedule),
                    ));
                },
                None => {},
            }
            i = i + 1;
        }
        assert(page.items@.take(page.items@.len() as int) =~= page.items@);
        self.seen = Ghost(before + page.items@);
        self.walk.read(page.has_next);
    }

    /// The calendars of the projects that were read.
    pub fn finish(self) -> (r: Vec<RemoteCalendar>)
        requires
            self.inv(),
        ensures
            calendar_views(r@) == calendars_of(self.projects()),
    {
        self.calendars
    }
}

// ---------------------------------------------------------------------------
// Reading events
// ---------------------------------------------------------------------------

/// Does an entry not start before the window? One whose start cannot be read is in it.
pub open spec fn in_window(entry: ScheduleEntry, since: Option<UtcDateTime>) -> bool {
    match since {
        None => true,
        Some(cutoff) => match client::entry_start(entry) {
            Some(start) => !start.precedes(cutoff),
            None => true,
        },
    }
}

/// Does an entry become an event?
pub open spec fn is_kept(entry: ScheduleEntry, since: Option<UtcDateTime>) -> bool {
    in_window(entry, since) && ical::event_times(entry) is Some
}

/// The entries that become events, in order.
pub open spec fn kept(entries: Seq<ScheduleEntry>, since: Option<UtcDateTime>) -> Seq<ScheduleEntry>
    decreases entries.len(),
{
    if entries.len() == 0 {
        Seq::empty()
    } else {
        let before = kept(entries.drop_last(), since);
        if is_kept(entries.last(), since) {
            before.push(entries.last())
        } else {
            before
        }
    }
}

/// Is `event` the event of `entry`?
pub open spec fn is_event_of(event: RawEvent, entry: ScheduleEntry) -> bool {
    event.remote_id@ == decimal::int_text(entry.id as int) && ical::is_vcalendar_of(
        entry,
        Some(event.ical@),
    )
}

/// Are `events` the events of the entries that are kept, one for each, in order?
pub open spec fn are_events_of(
    events: Seq<RawEvent>,
    entries: Seq<ScheduleEntry>,
    since: Option<UtcDateTime>,
) -> bool {
    &&& events.len() == kept(entries, since).len()
    &&& forall|i: int|
        0 <= i < events.len() ==> is_event_of(#[trigger] events[i], kept(entries, since)[i])
}

/// An entry in the window that ends on the last day that can be represented has no event.
pub open spec fn is_untranslatable(entry: ScheduleEntry, since: Option<UtcDateTime>) -> bool {
    in_window(entry, since) && ical::ends_past_calendar(entry)
}

/// Can every one of these entries be translated, or passed over?
pub open spec fn all_translatable(
    entries: Seq<ScheduleEntry>,
    since: Option<UtcDateTime>,
) -> bool {
    forall|i: int| 0 <= i < entries.len() ==> !is_untranslatable(#[trigger] entries[i], since)
}

/// Did the walk come to the last page, so that nothing was left out?
pub open spec fn is_complete(w: WalkView) -> bool {
    w.finished
}

/// Reading the events of a schedule.
pub struct EntryFetch {
    walk: PageWalk,
    project: i64,
    schedule: i64,
    since: Option<UtcDateTime>,
    events: Vec<RawEvent>,
    seen: Ghost<Seq<ScheduleEntry>>,
}

/// Where the start text of an entry is one that Basecamp writes, a timestamp or a bare date, is
/// the entry in the window exactly when that time, or the midnight of that date, is not before the
/// window's start?
pub open spec fn goes_by_told_start(entry: ScheduleEntry, since: Option<UtcDateTime>) -> bool {
    match (since, entry.starts_at) {
        (Some(cutoff), Some(raw)) => {
            &&& forall|t: UtcDateTime| #[trigger]
                time::is_told_stamp(raw@, t) ==> in_window(entry, since) == !t.precedes(cutoff)
            &&& forall|d: CivilDate| #[trigger]
                time::is_told_date(raw@, d) ==> in_window(entry, since) == !(UtcDateTime {
                    date: d,
                    hour: 0,
                    minute: 0,
                    second: 0,
                    nanos: 0,
                }).precedes(cutoff)
        },
        _ => in_window(entry, since),
    }
}

/// Does an entry not start before the window?
fn is_in_window(entry: &ScheduleEntry, since: &Option<UtcDateTime>) -> (r: bool)
    requires
        since matches Some(cutoff) ==> cutoff.valid(),
    ensures
        r == in_window(*entry, *since),
        goes_by_told_start(*entry, *since),
{
    match since {
        None => true,
        Some(cutoff) => match entry.starts_at_utc() {
            Some(start) => !is_before(&start, cutoff),
            None => true,
        },
    }
}

/// Where a window that is told in RFC 3339 starts. A text that cannot be read sets no window.
pub open spec fn window_start(since_utc: Option<Seq<char>>) -> Option<UtcDateTime> {
    match since_utc {
        Some(s) => time::rfc3339_utc(s),
        None => None,
    }
}

impl EntryFetch {
    /// How far the walk has come.
    pub closed spec fn progress(&self) -> WalkView {
        self.walk@
    }

    /// The project and its schedule.
    pub closed spec fn ids(&self) -> (i64, i64) {
        (self.project, self.schedule)
    }

    /// Where the window starts.
    pub closed spec fn window(&self) -> Option<UtcDateTime> {
        self.since
    }

    /// The entries that were read.
    pub closed spec fn entries(&self) -> Seq<ScheduleEntry> {
        self.seen@
    }

    /// The events so far are those of the entries that were read.
    pub closed spec fn inv(&self) -> bool {
        &&& self.since matches Some(cutoff) ==> cutoff.valid()
        &&& are_events_of(self.events@, self.seen@, self.since)
    }

    /// Start reading a calendar, from `since_utc` on where that is given.
    pub fn start(calendar_id: &str, since_utc: Option<&str>) -> (r: Result<EntryFetch, Error>)
        ensures
            match super::ids_of(calendar_id@) {
                Ok(ids) => {
                    &&& r matches Ok(f)
                    &&& f.inv()
                    &&& f.ids() == ids
                    &&& f.window() == window_start(text::opt_view(since_utc))
                    &&& since_utc matches Some(s) ==> {
                        &&& forall|t: UtcDateTime| #[trigger]
                            time::is_told_stamp(s@, t) ==> f.window() == Some(t)
                        &&& forall|t: UtcDateTime|
                            t.valid() && t.date.four_digit_year() && s@
                                == #[trigger] time::rfc3339_text(t) ==> f.window() == Some(t)
                        &&& s@.len() < 19 ==> f.window() is None
                    }
                    &&& f.entries() == Seq::<ScheduleEntry>::empty()
                    &&& f.progress() == fresh(MAX_ENTRY_PAGES)
                },
                Err(failure) => r matches Err(e) && e@ == failure,
            },
    {
        let (project, schedule) = match split_calendar_id(calendar_id) {
            Ok(ids) => ids,
            Err(e) => {
                return Err(e);
            },
        };
        let since = match since_utc {
            Some(s) => parse_rfc3339(s),
            None => None,
        };
        Ok(
            EntryFetch {
                walk: PageWalk::new(MAX_ENTRY_PAGES),
                project,
                schedule,
                since,
                events: Vec::new(),
                seen: Ghost(Seq::empty()),
            },
        )
    }

    /// The request for a page of this schedule.
    pub fn page_request(&self, client: &BasecampClient, page: u32) -> (r: ApiRequest)
        ensures
            client::request_view(r) == client::entries_request(
                *client,
                self.ids().0 as int,
                self.ids().1 as int,
                page as int,
            ),
            r.method == Method::Get,
            r.url@ == client.url_text(
                client::entries_path(self.ids().0 as int, self.ids().1 as int),
            ) + "?page="@ + decimal::int_text(page as int),
    {
        client.get_schedule_entries_page(self.project, self.schedule, page)
    }

    /// Decide the next step.
    pub fn next(&mut self, provider: &mut BasecampProvider) -> (r: Step)
        requires
            old(self).inv(),
            !old(self).progress().pending,
        ensures
            final(self).inv(),
            r == step_of(old(self).progress(), old(provider).budget()),
            final(self).progress() == stepped(old(self).progress(), old(provider).budget()),
            final(self).ids() == old(self).ids(),
            final(self).window() == old(self).window(),
            final(self).entries() == old(self).entries(),
            final(provider).budget() == budget_after(
                old(self).progress(),
                old(provider).budget(),
            ),
            final(provider).account_client() == old(provider).account_client(),
    {
        self.walk.next(provider)
    }

    /// Read the page that was asked for. `false`, with nothing read, where an entry in the window
    /// ends on the last day that can be represented.
    pub fn accept(&mut self, page: &Page<ScheduleEntry>) -> (r: bool)
        requires
            old(self).inv(),
            old(self).progress().pending,
        ensures
            final(self).inv(),
            r == all_translatable(page.items@, old(self).window()),
            !r ==> *final(self) == *old(self),
            r ==> {
                &&& forall|i: int|
                    0 <= i < page.items@.len() ==> goes_by_told_start(
                        #[trigger] page.items@[i],
                        old(self).window(),
                    )
                &&& final(self).progress() == page_read(old(self).progress(), page.has_next)
                &&& final(self).ids() == old(self).ids()
                &&& final(self).window() == old(self).window()
                &&& final(self).entries() == old(self).entries() + page.items@
            },
    {
        let mut i: usize = 0;
        while i < page.items.len()
            invariant
                i <= page.items@.len(),
                *self == *old(self),
                self.inv(),
                forall|j: int|
                    0 <= j < i ==> !is_untranslatable(#[trigger] page.items@[j], self.since),
                forall|j: int|
                    0 <= j < i ==> goes_by_told_start(#[trigger] page.items@[j], self.since),
            decreases page.items@.len() - i,
        {
            let entry = &page.items[i];
            if is_in_window(entry, &self.since) && is_past_calendar(entry) {
                assert(is_untranslatable(page.items@[i as int], self.since));
                return false;
            }
            i = i + 1;
        }
        let ghost before = self.seen@;
        let mut k: usize = 0;
        assert(before + page.items@.take(0) =~= before);
        while k < page.items.len()
            invariant
                k <= page.items@.len(),
                self.since == old(self).since,
                self.since matches Some(cutoff) ==> cutoff.valid(),
                self.walk@ == old(self).walk@,
                self.project == old(self).project,
                self.schedule == old(self).schedule,
                all_translatable(page.items@, self.since),
                forall|j: int|
                    0 <= j < page.items@.len() ==> goes_by_told_start(
                        #[trigger] page.items@[j],
                        self.since,
                    ),
                are_events_of(self.events@, before + page.items@.take(k as int), self.since),
            decreases page.items@.len() - k,
        {
            let entry = &page.items[k];
            proof {
                let more = before + page.items@.take(k + 1);
                assert(more.drop_last() =~= before + page.items@.take(k as int));
                assert(more.last() == *entry);
                assert(!is_untranslatable(page.items@[k as int], self.since));
            }
            if is_in_window(entry, &self.since) {
                let made = synth_vcalendar(entry);
                match made {
                    Some(ics) => {
                        let ghost earlier = self.events@;
                        let event = RawEvent { remote_id: i64_text(entry.id), ical: ics };
                        assert(is_event_of(event, *entry));
                        self.events.push(event);
                        assert(forall|j: int|
                            0 <= j < earlier.len() ==> self.events@[j] == earlier[j]);
                    },
                    None => {},
                }
            }
            k = k + 1;
        }
        assert(page.items@.take(page.items@.len() as int) =~= page.items@);
        self.seen = Ghost(before + page.items@);
        self.walk.read(page.has_next);
        true
    }

    /// The events that were read. They are complete where the last page was among those read.
    pub fn finish(self) -> (r: EventSnapshot)
        requires
            self.inv(),
        ensures
            r.complete == is_complete(self.progress()),
            are_events_of(r.events@, self.entries(), self.window()),
            r.complete == self.progress().finished,
    {
        let complete = self.walk.is_finished();
        EventSnapshot { events: self.events, complete }
    }
}

// ---------------------------------------------------------------------------
// Finding an entry
// ---------------------------------------------------------------------------

/// Does the entry's description carry the marker of the UID?
pub open spec fn is_marked(entry: ScheduleEntry, uid: Seq<char>) -> bool {
    match text::opt_string_view(entry.description) {
        Some(desc) => text::contains_text(desc, ical::marker_text(uid)),
        None => false,
    }
}

/// The id of the first marked entry, not before index `from`.
pub open spec fn marked_from(entries: Seq<ScheduleEntry>, uid: Seq<char>, from: int) -> Option<i64>
    decreases entries.len() - from,
{
    if from < 0 || from >= entries.len() {
        None
    } else if is_marked(entries[from], uid) {
        Some(entries[from].id)
    } else {
        marked_from(entries, uid, from + 1)
    }
}

/// The entry that a UID names: the one that a synthetic UID tells, or else the first whose
/// description carries the UID's marker.
pub open spec fn entry_named(uid: Seq<char>, entries: Seq<ScheduleEntry>) -> Option<i64> {
    match ical::synthetic_entry_id(uid) {
        Some(id) => Some(id),
        None => marked_from(entries, uid, 0),
    }
}

/// What a lookup does next.
#[derive(Debug, Clone, Copy, PartialEq, Eq, Structural)]
pub enum LookupStep {
    /// The UID names this entry.
    Found(i64),
    /// Fetch the page of that number.
    Fetch(u32),
    /// None of the entries that were read has the UID.
    NotFound(Stop),
}

/// What a lookup does next: nothing more once the entry is found.
pub open spec fn lookup_step(found: Option<i64>, w: WalkView, budget: nat) -> LookupStep {
    match found {
        Some(id) => LookupStep::Found(id),
        None => match step_of(w, budget) {
            Step::Fetch(page) => LookupStep::Fetch(page),
            Step::Stop(stop) => LookupStep::NotFound(stop),
        },
    }
}

/// Resolving a UID to a schedule entry.
///
/// Two shapes of UID come here: one of a booking, found by the marker in the entry's
/// description, and a synthetic one of an entry that came from Basecamp, which tells the entry
/// without any listing.
pub struct EntryLookup {
    walk: PageWalk,
    project: i64,
    schedule: i64,
    uid: String,
    found: Option<i64>,
    ended: bool,
    seen: Ghost<Seq<ScheduleEntry>>,
}

proof fn lemma_marked_in_longer(
    entries: Seq<ScheduleEntry>,
    more: Seq<ScheduleEntry>,
    uid: Seq<char>,
    from: int,
)
    requires
        0 <= from <= entries.len(),
    ensures
        marked_from(entries + more, uid, from) == match marked_from(entries, uid, from) {
            Some(id) => Some(id),
            None => marked_from(entries + more, uid, entries.len() as int),
        },
    decreases entries.len() - from,
{
    if from < entries.len() {
        assert((entries + more)[from] == entries[from]);
        lemma_marked_in_longer(entries, more, uid, from + 1);
    }
}

proof fn lemma_marked_in_suffix(
    entries: Seq<ScheduleEntry>,
    more: Seq<ScheduleEntry>,
    uid: Seq<char>,
    from: int,
)
    requires
        0 <= from <= more.len(),
    ensures
        marked_from(entries + more, uid, entries.len() + from) == marked_from(more, uid, from),
    decreases more.len() - from,
{
    if from < more.len() {
        assert((entries + more)[entries.len() + from] == more[from]);
        lemma_marked_in_suffix(entries, more, uid, from + 1);
    }
}

impl EntryLookup {
    /// How far the walk has come.
    pub closed spec fn progress(&self) -> WalkView {
        self.walk@
    }

    /// The project and its schedule.
    pub closed spec fn ids(&self) -> (i64, i64) {
        (self.project, self.schedule)
    }

    /// The UID that is looked for.
    pub closed spec fn wanted(&self) -> Seq<char> {
        self.uid@
    }

    /// The entries that were read.
    pub closed spec fn entries(&self) -> Seq<ScheduleEntry> {
        self.seen@
    }

    /// Has the lookup said that it goes no further?
    pub closed spec fn has_ended(&self) -> bool {
        self.ended
    }

    /// What is found so far is what the UID names among the entries that were read, and a lookup
    /// that has ended waits for no page.
    pub closed spec fn inv(&self) -> bool {
        &&& self.found == entry_named(self.uid@, self.seen@)
        &&& self.ended ==> !self.walk@.pending
    }

    /// Start looking for a UID in a schedule.
    pub fn start(project: i64, schedule: i64, uid: &str) -> (r: EntryLookup)
        ensures
            r.inv(),
            r.ids() == (project, schedule),
            r.wanted() == uid@,
            r.entries() == Seq::<ScheduleEntry>::empty(),
            !r.has_ended(),
            r.progress() == fresh(MAX_ENTRY_PAGES),
    {
        EntryLookup {
            walk: PageWalk::new(MAX_ENTRY_PAGES),
            project,
            schedule,
            uid: uid.to_owned(),
            found: entry_id_from_synthetic_uid(uid),
            ended: false,
            seen: Ghost(Seq::empty()),
        }
    }

    /// The request for a page of this schedule.
    pub fn page_request(&self, client: &BasecampClient, page: u32) -> (r: ApiRequest)
        ensures
            client::request_view(r) == client::entries_request(
                *client,
                self.ids().0 as int,
                self.ids().1 as int,
                page as int,
            ),
            r.method == Method::Get,
            r.url@ == client.url_text(
                client::entries_path(self.ids().0 as int, self.ids().1 as int),
            ) + "?page="@ + decimal::int_text(page as int),
    {
        client.get_schedule_entries_page(self.project, self.schedule, page)
    }

    /// Decide the next step. A UID that names its entry costs no page.
    pub fn next(&mut self, provider: &mut BasecampProvider) -> (r: LookupStep)
        requires
            old(self).inv(),
            !old(self).progress().pending,
        ensures
            final(self).inv(),
            final(self).has_ended() == !(r is Fetch),
            r == lookup_step(
                entry_named(old(self).wanted(), old(self).entries()),
                old(self).progress(),
                old(provider).budget(),
            ),
            final(self).progress() == if r is Fetch {
                stepped(old(self).progress(), old(provider).budget())
            } else {
                old(self).progress()
            },
            final(self).ids() == old(self).ids(),
            final(self).wanted() == old(self).wanted(),
            final(self).entries() == old(self).entries(),
            final(provider).budget() == if r is Fetch {
                budget_after(old(self).progress(), old(provider).budget())
            } else {
                old(provider).budget()
            },
            final(provider).account_client() == old(provider).account_client(),
    {
        match self.found {
            Some(id) => {
                self.ended = true;
                LookupStep::Found(id)
            },
            None => match self.walk.next(provider) {
                Step::Fetch(page) => {
                    self.ended = false;
                    LookupStep::Fetch(page)
                },
                Step::Stop(stop) => {
                    self.ended = true;
                    LookupStep::NotFound(stop)
                },
            },
        }
    }

    /// Read the page that was asked for.
    pub fn accept(&mut self, page: &Page<ScheduleEntry>)
        requires
            old(self).inv(),
            old(self).progress().pending,
        ensures
            final(self).inv(),
            !final(self).has_ended(),
            final(self).progress() == page_read(old(self).progress(), page.has_next),
            final(self).ids() == old(self).ids(),
            final(self).wanted() == old(self).wanted(),
            final(self).entries() == old(self).entries() + page.items@,
    {
        let ghost before = self.seen@;
        let ghost items = page.items@;
        proof {
            lemma_marked_in_longer(before, items, self.uid@, 0);
            lemma_marked_in_suffix(before, items, self.uid@, 0);
        }
        let mut i: usize = 0;
        while i < page.items.len() && self.found.is_none()
            invariant
                i <= page.items@.len(),
                items == page.items@,
                self.walk@ == old(self).walk@,
                self.project == old(self).project,
                self.schedule == old(self).schedule,
                self.uid == old(self).uid,
                self.walk@.pending,
                self.seen@ == before,
                match self.found {
                    Some(id) => Some(id) == entry_named(self.uid@, before + items),
                    None => entry_named(self.uid@, before + items) == marked_from(
                        items,
                        self.uid@,
                        i as int,
                    ),
                },
            decreases page.items@.len() - i,
        {
            let entry = &page.items[i];
            if uid_marker_matches(as_text(&entry.description), self.uid.as_str()) {
                assert(is_marked(items[i as int], self.uid@));
                self.found = Some(entry.id);
            }
            i = i + 1;
        }
        self.seen = Ghost(before + items);
        self.ended = false;
        self.walk.read(page.has_next);
    }
}

// ---------------------------------------------------------------------------
// Writing and removing
// ---------------------------------------------------------------------------

/// Prepare to write a booking: look for its entry, and hold the payload ready.
pub fn prepare_put(calendar_id: &str, uid: &str, ics: &str) -> (r: Result<
    (EntryLookup, ScheduleEntryPayload),
    Error,
>)
    ensures
        match super::ids_of(calendar_id@) {
            Err(failure) => r matches Err(e) && e@ == failure,
            Ok(ids) => match ical::booking_payload(uid@, ics@) {
                Err(failure) => r matches Err(e) && e@ == failure,
                Ok(payload) => {
                    &&& r matches Ok((lookup, made))
                    &&& made@ == payload
                    &&& lookup.inv()
                    &&& lookup.ids() == ids
                    &&& lookup.wanted() == uid@
                    &&& lookup.entries() == Seq::<ScheduleEntry>::empty()
                    &&& !lookup.has_ended()
                    &&& lookup.progress() == fresh(MAX_ENTRY_PAGES)
                },
            },
        },
{
    let (project, schedule) = match split_calendar_id(calendar_id) {
        Ok(ids) => ids,
        Err(e) => {
            return Err(e);
        },
    };
    match entry_payload_from_ics(uid, ics) {
        Ok(payload) => Ok((EntryLookup::start(project, schedule, uid), payload)),
        Err(e) => Err(e),
    }
}

/// Prepare to remove a booking: look for its entry.
pub fn prepare_delete(calendar_id: &str, uid: &str) -> (r: Result<EntryLookup, Error>)
    ensures
        match super::ids_of(calendar_id@) {
            Err(failure) => r matches Err(e) && e@ == failure,
            Ok(ids) => {
                &&& r matches Ok(lookup)
                &&& lookup.inv()
                &&& lookup.ids() == ids
                &&& lookup.wanted() == uid@
                &&& lookup.entries() == Seq::<ScheduleEntry>::empty()
                &&& !lookup.has_ended()
                &&& lookup.progress() == fresh(MAX_ENTRY_PAGES)
            },
        },
{
    match split_calendar_id(calendar_id) {
        Ok((project, schedule)) => Ok(EntryLookup::start(project, schedule, uid)),
        Err(e) => Err(e),
    }
}

/// The URL that writes a booking: that of the entry that was found, which is updated in place, or
/// else that of the schedule's entries, where a new one is made.
pub open spec fn put_url(client: BasecampClient, ids: (i64, i64), found: Option<i64>) -> Seq<char> {
    match found {
        Some(entry_id) => client.url_text(
            "buckets/"@ + decimal::int_text(ids.0 as int) + "/schedule_entries/"@
                + decimal::int_text(entry_id as int) + ".json"@,
        ),
        None => client.url_text(client::entries_path(ids.0 as int, ids.1 as int)),
    }
}

/// The request that writes a booking: an update of the entry that was found, or else the creation
/// of one.
pub open spec fn put_of(client: BasecampClient, ids: (i64, i64), found: Option<i64>) -> (
    Method,
    Seq<char>,
) {
    match found {
        Some(entry_id) => client::update_request(client, ids.0 as int, entry_id as int),
        None => client::creation_request(client, ids.0 as int, ids.1 as int),
    }
}

/// The request that removes a booking: the trashing of the entry that was found.
pub open spec fn delete_of(client: BasecampClient, ids: (i64, i64), found: Option<i64>) -> Option<
    (Method, Seq<char>),
> {
    match found {
        Some(entry_id) => Some(client::trash_request(client, ids.0 as int, entry_id as int)),
        None => None,
    }
}

/// The view of a request that may not be needed.
pub open spec fn opt_request_view(r: Option<ApiRequest>) -> Option<(Method, Seq<char>)> {
    match r {
        Some(request) => Some(client::request_view(request)),
        None => None,
    }
}

impl EntryLookup {
    /// The request that writes the booking, once the lookup has ended. An entry that exists is
    /// updated in place, so that a reschedule keeps it, with its comments and notifications; else
    /// a new one is created. A lookup is good for one write.
    pub fn put_request(self, client: &BasecampClient) -> (r: ApiRequest)
        requires
            self.inv(),
            self.has_ended(),
        ensures
            client::request_view(r) == put_of(
                *client,
                self.ids(),
                entry_named(self.wanted(), self.entries()),
            ),
            r.method == (if entry_named(self.wanted(), self.entries()) is Some {
                Method::Put
            } else {
                Method::Post
            }),
            r.url@ == put_url(*client, self.ids(), entry_named(self.wanted(), self.entries())),
    {
        match self.found {
            Some(entry_id) => client.update_schedule_entry(self.project, entry_id),
            None => client.create_schedule_entry(self.project, self.schedule),
        }
    }

    /// The request that removes the booking, once the lookup has ended, or `None` where its entry
    /// is already gone. Basecamp does not delete entries; trashing takes one off the schedule.
    pub fn delete_request(self, client: &BasecampClient) -> (r: Option<ApiRequest>)
        requires
            self.inv(),
            self.has_ended(),
        ensures
            opt_request_view(r) == delete_of(
                *client,
                self.ids(),
                entry_named(self.wanted(), self.entries()),
            ),
            match entry_named(self.wanted(), self.entries()) {
                Some(entry_id) => {
                    &&& r matches Some(request)
                    &&& request.method == Method::Put
                    &&& request.url@ == client.url_text(
                        "buckets/"@ + decimal::int_text(self.ids().0 as int) + "/recordings/"@
                            + decimal::int_text(entry_id as int) + "/status/trashed.json"@,
                    )
                },
                None => r is None,
            },
    {
        match self.found {
            Some(entry_id) => Some(client.trash_recording(self.project, entry_id)),
            None => None,
        }
    }
}

// ---------------------------------------------------------------------------
// Laws
// ---------------------------------------------------------------------------

proof fn lemma_marked_from(entries: Seq<ScheduleEntry>, uid: Seq<char>, from: int)
    requires
        0 <= from,
    ensures
        match marked_from(entries, uid, from) {
            Some(id) => exists|j: int|
                #![trigger entries[j]]
                from <= j < entries.len() && is_marked(entries[j], uid) && entries[j].id == id,
            None => forall|j: int|
                from <= j < entries.len() ==> !is_marked(#[trigger] entries[j], uid),
        },
    decreases entries.len() - from,
{
    if from < entries.len() {
        if is_marked(entries[from], uid) {
            assert(entries[from].id == entries[from].id);
        } else {
            lemma_marked_from(entries, uid, from + 1);
        }
    }
}

/// For a UID that is not synthetic, a lookup finds an entry exactly when one of the entries that
/// were read is marked with it, and what it finds is a marked entry.
pub proof fn law_lookup_finds_marked_entries(uid: Seq<char>, entries: Seq<ScheduleEntry>)
    requires
        ical::synthetic_entry_id(uid) is None,
    ensures
        entry_named(uid, entries) is Some <==> exists|j: int|
            0 <= j < entries.len() && is_marked(#[trigger] entries[j], uid),
        entry_named(uid, entries) matches Some(id) ==> exists|j: int|
            #![trigger entries[j]]
            0 <= j < entries.len() && is_marked(entries[j], uid) && entries[j].id == id,
{
    lemma_marked_from(entries, uid, 0);
}

/// Writing a booking again updates the entry that the first write made: an entry with the
/// description of the booking's payload is found by the booking's UID, and it is that entry where
/// no other one is marked.
pub proof fn law_second_write_updates(
    uid: Seq<char>,
    ics: Seq<char>,
    entries: Seq<ScheduleEntry>,
    i: int,
)
    requires
        super::laws::is_plain(uid),
        0 <= i < entries.len(),
        ical::booking_payload(uid, ics) matches Ok(payload) && text::opt_string_view(
            entries[i].description,
        ) == payload.description,
    ensures
        is_marked(entries[i], uid),
        entry_named(uid, entries) is Some,
        ical::synthetic_entry_id(uid) is None && (forall|j: int|
            0 <= j < entries.len() && j != i ==> !is_marked(#[trigger] entries[j], uid))
            ==> entry_named(uid, entries) == Some(entries[i].id),
{
    super::laws::law_booking_carries_its_marker(uid, utils::vevents(ics)[0]);
    lemma_marked_from(entries, uid, 0);
    assert(is_marked(entries[i], uid));
}

/// Every calendar that is listed belongs to a project whose schedule is enabled, and its id leads
/// back to that project and schedule.
pub proof fn law_calendars_lead_back(projects: Seq<Project>)
    ensures
        forall|k: int|
            0 <= k < calendars_of(projects).len() ==> leads_back(
                projects,
                #[trigger] calendars_of(projects)[k],
            ),
    decreases projects.len(),
{
    if projects.len() > 0 {
        let shorter = projects.drop_last();
        law_calendars_lead_back(shorter);
        let all = calendars_of(projects);
        let before = calendars_of(shorter);
        assert forall|k: int| 0 <= k < all.len() implies leads_back(
            projects,
            #[trigger] all[k],
        ) by {
            if k < before.len() {
                assert(all[k] == before[k]);
                let i = choose|i: int|
                    #![trigger shorter[i]]
                    0 <= i < shorter.len() && is_calendar_of(shorter[i], before[k]);
                assert(projects[i] == shorter[i]);
            } else {
                let project = projects[projects.len() - 1];
                super::law_calendar_id_reads_back(
                    project.id,
                    client::schedule_of(project)->0,
                );
                assert(is_calendar_of(project, all[k]));
            }
        }
    }
}

/// Is this the calendar of the project's enabled schedule, with an id that leads back to it?
pub open spec fn is_calendar_of(project: Project, calendar: CalendarView) -> bool {
    match client::schedule_of(project) {
        Some(schedule) => calendar == calendar_of(project, schedule) && super::ids_of(calendar.id)
            == Ok::<(i64, i64), Failure<Seq<char>>>((project.id, schedule)),
        None => false,
    }
}

/// Is this the calendar of one of the projects?
pub open spec fn leads_back(projects: Seq<Project>, calendar: CalendarView) -> bool {
    exists|i: int|
        #![trigger projects[i]]
        0 <= i < projects.len() && is_calendar_of(projects[i], calendar)
}

/// Every project whose schedule is enabled is listed.
pub proof fn law_every_schedule_is_listed(projects: Seq<Project>, i: int)
    requires
        0 <= i < projects.len(),
        client::schedule_of(projects[i]) is Some,
    ensures
        calendars_of(projects).contains(
            calendar_of(projects[i], client::schedule_of(projects[i])->0),
        ),
    decreases projects.len(),
{
    let all = calendars_of(projects);
    let before = calendars_of(projects.drop_last());
    let wanted = calendar_of(projects[i], client::schedule_of(projects[i])->0);
    if i == projects.len() - 1 {
        assert(all[before.len() as int] == wanted);
    } else {
        law_every_schedule_is_listed(projects.drop_last(), i);
        let k = choose|k: int| 0 <= k < before.len() && before[k] == wanted;
        assert(all[k] == wanted);
    }
}

/// Every entry that can be placed on a timeline within the window becomes an event, and nothing
/// else does.
pub proof fn law_kept_entries_are_the_usable_ones(
    entries: Seq<ScheduleEntry>,
    since: Option<UtcDateTime>,
)
    ensures
        forall|i: int|
            0 <= i < entries.len() && is_kept(entries[i], since) ==> kept(entries, since).contains(
                #[trigger] entries[i],
            ),
        forall|k: int|
            0 <= k < kept(entries, since).len() ==> is_kept(#[trigger] kept(entries, since)[k], since)
                && entries.contains(kept(entries, since)[k]),
    decreases entries.len(),
{
    if entries.len() > 0 {
        let shorter = entries.drop_last();
        law_kept_entries_are_the_usable_ones(shorter, since);
        let all = kept(entries, since);
        let before = kept(shorter, since);
        assert forall|i: int|
            0 <= i < entries.len() && is_kept(entries[i], since) implies all.contains(
            #[trigger] entries[i],
        ) by {
            if i < shorter.len() {
                assert(shorter[i] == entries[i]);
                let k = choose|k: int| 0 <= k < before.len() && before[k] == shorter[i];
                assert(all[k] == before[k]);
            } else {
                assert(all[before.len() as int] == entries[i]);
            }
        }
        assert forall|k: int| 0 <= k < all.len() implies is_kept(#[trigger] all[k], since)
            && entries.contains(all[k]) by {
            if k < before.len() {
                assert(all[k] == before[k]);
                let i = choose|i: int| 0 <= i < shorter.len() && shorter[i] == before[k];
                assert(entries[i] == shorter[i]);
            } else {
                assert(entries[entries.len() - 1] == all[k]);
            }
        }
    }
}

/// The lookup of a UID that is not synthetic finds the first entry, in the order they were read,
/// whose description holds `[calrs-uid:`, that very UID and `]`, one after the other. It finds
/// none exactly where no description does.
pub proof fn law_lookup_finds_the_first_marked_entry(uid: Seq<char>, entries: Seq<ScheduleEntry>)
    requires
        forall|n: i64| uid != "bc-"@ + #[trigger] decimal::int_text(n as int) + "@basecamp"@,
    ensures
        match entry_named(uid, entries) {
            Some(id) => exists|i: int|
                #![trigger entries[i]]
                0 <= i < entries.len() && entries[i].id == id && holds_marker(entries[i], uid)
                    && forall|j: int| 0 <= j < i ==> !holds_marker(#[trigger] entries[j], uid),
            None => forall|j: int|
                0 <= j < entries.len() ==> !holds_marker(#[trigger] entries[j], uid),
        },
{
    if ical::is_synthetic(uid) {
        let n = choose|n: i64| uid == #[trigger] ical::synthetic_uid_text(n as int);
        assert(uid == "bc-"@ + decimal::int_text(n as int) + "@basecamp"@);
    }
    lemma_first_marked_from(entries, uid, 0);
}

/// Does the description of the entry hold the marker of the UID, character by character?
pub open spec fn holds_marker(entry: ScheduleEntry, uid: Seq<char>) -> bool {
    entry.description is Some && exists|before: Seq<char>, after: Seq<char>|
        entry.description->0@ == #[trigger] (before + ("[calrs-uid:"@ + uid + "]"@) + after)
}

proof fn lemma_holds_marker(entry: ScheduleEntry, uid: Seq<char>)
    ensures
        holds_marker(entry, uid) == is_marked(entry, uid),
{
    if entry.description is Some {
        text::law_containing_is_standing_between(
            entry.description->0@,
            "[calrs-uid:"@ + uid + "]"@,
        );
    }
}

proof fn lemma_first_marked_from(entries: Seq<ScheduleEntry>, uid: Seq<char>, from: int)
    requires
        0 <= from,
    ensures
        match marked_from(entries, uid, from) {
            Some(id) => exists|i: int|
                #![trigger entries[i]]
                from <= i < entries.len() && entries[i].id == id && holds_marker(entries[i], uid)
                    && forall|j: int| from <= j < i ==> !holds_marker(#[trigger] entries[j], uid),
            None => forall|j: int|
                from <= j < entries.len() ==> !holds_marker(#[trigger] entries[j], uid),
        },
    decreases entries.len() - from,
{
    if from < entries.len() {
        lemma_holds_marker(entries[from], uid);
        if is_marked(entries[from], uid) {
            assert(entries[from].id == entries[from].id);
        } else {
            lemma_first_marked_from(entries, uid, from + 1);
        }
    }
}

/// A synthetic UID names the entry whose id it tells, whatever entries were read.
pub proof fn law_synthetic_uid_names_its_entry(id: i64, entries: Seq<ScheduleEntry>)
    ensures
        entry_named("bc-"@ + decimal::int_text(id as int) + "@basecamp"@, entries) == Some(id),
{
    ical::law_synthetic_uid_reads_back(id);
}

/// The entry of another booking is never what a lookup finds: leaving it out makes no difference.
/// (Its description is that of the other booking's payload, whose UID, notes and location hold no
/// marker of their own.)
pub proof fn law_lookup_passes_over_other_bookings(
    uid: Seq<char>,
    other: Seq<char>,
    event: Seq<Seq<char>>,
    payload: super::client::PayloadView,
    entries: Seq<ScheduleEntry>,
    i: int,
)
    requires
        uid != other,
        super::laws::is_plain(other),
        forall|k: int| 0 <= k < other.len() ==> other[k] != ']',
        !text::contains_text(other, "[calrs-uid:"@),
        !text::contains_text(ical::notes_part(event), "[calrs-uid:"@),
        !text::contains_text(ical::location_part(event), "[calrs-uid:"@),
        ical::event_payload(other, event) == Ok::<
            super::client::PayloadView,
            Failure<Seq<char>>,
        >(payload),
        0 <= i < entries.len(),
        text::opt_string_view(entries[i].description) == payload.description,
    ensures
        !holds_marker(entries[i], uid),
        entry_named(uid, entries) == entry_named(uid, entries.remove(i)),
{
    lemma_holds_marker(entries[i], uid);
    if is_marked(entries[i], uid) {
        super::laws::law_marker_is_exact(other, uid, event);
    }
    lemma_unmarked_is_passed_over(uid, entries, i, 0);
}

proof fn lemma_unmarked_is_passed_over(
    uid: Seq<char>,
    entries: Seq<ScheduleEntry>,
    i: int,
    from: int,
)
    requires
        0 <= i < entries.len(),
        !is_marked(entries[i], uid),
        0 <= from <= entries.len(),
    ensures
        marked_from(entries, uid, from) == marked_from(
            entries.remove(i),
            uid,
            if from <= i {
                from
            } else {
                from - 1
            },
        ),
    decreases entries.len() - from,
{
    let fewer = entries.remove(i);
    if from < entries.len() {
        lemma_unmarked_is_passed_over(uid, entries, i, from + 1);
        if from < i {
            assert(fewer[from] == entries[from]);
        } else if from > i {
            assert(fewer[from - 1] == entries[from]);
        }
    }
}

/// A page is asked for exactly where the last page was not read, and cap and budget allow one
/// more; it is the page after the last one asked for, starting with the first. It costs one page
/// of the budget, and stopping costs none. A walk that read its last page says so; else the cap,
/// and only then the budget, is what stopped it.
pub proof fn law_pages_are_asked_for_in_order(w: WalkView, budget: nat)
    requires
        w.cap <= u32::MAX,
    ensures
        step_of(w, budget) is Fetch <==> !w.finished && w.asked < w.cap && budget > 0,
        step_of(w, budget) matches Step::Fetch(p) ==> {
            &&& p == w.asked + 1
            &&& stepped(w, budget).asked == p
            &&& stepped(w, budget).pending
            &&& !stepped(w, budget).finished
            &&& budget_after(w, budget) + 1 == budget
        },
        step_of(w, budget) matches Step::Stop(stop) ==> {
            &&& stepped(w, budget) == w
            &&& budget_after(w, budget) == budget
            &&& stop == Stop::Finished <==> w.finished
            &&& stop == Stop::PageCap <==> !w.finished && w.asked >= w.cap
            &&& stop == Stop::Budget <==> !w.finished && w.asked < w.cap
        },
        stepped(w, budget).cap == w.cap,
{
}

/// A walk starts with nothing asked for, and reading a page that has none after it, and nothing
/// else, finishes it.
pub proof fn law_only_the_last_page_finishes(w: WalkView, cap: u32, has_next: bool)
    ensures
        fresh(cap).asked == 0 && fresh(cap).cap == cap && !fresh(cap).pending && !fresh(
            cap,
        ).finished,
        page_read(w, has_next).finished <==> w.finished || !has_next,
        !page_read(w, has_next).pending,
        page_read(w, has_next).asked == w.asked,
        page_read(w, has_next).cap == w.cap,
{
}

/// A lookup that has found its entry asks for nothing more; one that has not goes on as its walk
/// does.
pub proof fn law_lookup_goes_on_until_found(found: Option<i64>, w: WalkView, budget: nat)
    ensures
        forall|id: i64| lookup_step(found, w, budget) == LookupStep::Found(id) <==> found == Some(id),
        found is None ==> {
            &&& forall|p: u32|
                lookup_step(found, w, budget) == LookupStep::Fetch(p) <==> step_of(w, budget)
                    == Step::Fetch(p)
            &&& forall|stop: Stop|
                lookup_step(found, w, budget) == LookupStep::NotFound(stop) <==> step_of(w, budget)
                    == Step::Stop(stop)
        },
{
}

/// A booking whose entry was found is written to that entry of that project; a new one is made
/// among the entries of the project's schedule.
pub proof fn law_bookings_are_written_to_their_entry(
    client: BasecampClient,
    ids: (i64, i64),
    entry_id: i64,
)
    ensures
        put_url(client, ids, Some(entry_id)) == client.base() + "/"@ + client.account()
            + "/buckets/"@ + decimal::int_text(ids.0 as int) + "/schedule_entries/"@
            + decimal::int_text(entry_id as int) + ".json"@,
        put_url(client, ids, None) == client.base() + "/"@ + client.account() + "/buckets/"@
            + decimal::int_text(ids.0 as int) + "/schedules/"@ + decimal::int_text(ids.1 as int)
            + "/entries.json"@,
{
    client::law_entries_are_addressed_by_project_and_schedule(client, ids.0, ids.1);
    let path = "buckets/"@ + decimal::int_text(ids.0 as int) + "/schedule_entries/"@
        + decimal::int_text(entry_id as int) + ".json"@;
    reveal_strlit("buckets/");
    reveal_strlit("/buckets/");
    reveal_strlit("/");
    assert("/buckets/"@ =~= "/"@ + "buckets/"@);
    assert(path[0] == 'b');
    client::law_urls_lie_below_the_account(client, path);
    assert(put_url(client, ids, Some(entry_id)) =~= client.base() + "/"@ + client.account()
        + "/buckets/"@ + decimal::int_text(ids.0 as int) + "/schedule_entries/"@
        + decimal::int_text(entry_id as int) + ".json"@);
}

/// Listing is project by project, in order: a project with an enabled schedule has one calendar,
/// whose id is the project's and the schedule's with a slash between, named as the project and
/// marked with its last change; another project has none.
pub proof fn law_calendars_are_listed_project_by_project(
    before: Seq<Project>,
    project: Project,
    after: Seq<Project>,
)
    ensures
        calendars_of(before + after) == calendars_of(before) + calendars_of(after),
        match client::schedule_of(project) {
            Some(schedule) => {
                &&& calendars_of(seq![project]).len() == 1
                &&& calendars_of(seq![project])[0] == (CalendarView {
                    id: decimal::int_text(project.id as int) + "/"@ + decimal::int_text(
                        schedule as int,
                    ),
                    display_name: Some(project.name@),
                    color: None,
                    change_marker: text::opt_string_view(project.updated_at),
                    sync_state: None,
                })
            },
            None => calendars_of(seq![project]).len() == 0,
        },
{
    lemma_calendars_add(before, after);
    assert(seq![project].drop_last() =~= Seq::<Project>::empty());
    assert(seq![project].last() == project);
    reveal_with_fuel(calendars_of, 2);
}

proof fn lemma_calendars_add(before: Seq<Project>, after: Seq<Project>)
    ensures
        calendars_of(before + after) == calendars_of(before) + calendars_of(after),
    decreases after.len(),
{
    let all = before + after;
    if after.len() == 0 {
        assert(all =~= before);
        assert(calendars_of(before) + calendars_of(after) =~= calendars_of(before));
    } else {
        assert(all.drop_last() =~= before + after.drop_last());
        assert(all.last() == after.last());
        lemma_calendars_add(before, after.drop_last());
        assert(calendars_of(all) =~= calendars_of(before) + calendars_of(after));
    }
}

/// Where the window lets an entry through. Nothing but the start decides: one whose start, the
/// timestamp or the UTC midnight of the bare date that its start text says, is at or after the
/// start of the window is let through, all-day or timed; one that starts earlier is not; one
/// whose start cannot be read is. Without a window every entry is.
pub proof fn law_window_goes_by_the_start(entry: ScheduleEntry, since: UtcDateTime)
    ensures
        in_window(entry, None),
        entry.starts_at is None ==> in_window(entry, Some(since)),
        entry.starts_at matches Some(raw) ==> match (
            time::rfc3339_utc(raw@),
            time::parsed_date(raw@, "%Y-%m-%d"@),
        ) {
            (Some(t), _) => in_window(entry, Some(since)) <==> !t.precedes(since),
            (None, Some(d)) => in_window(entry, Some(since)) <==> !(UtcDateTime {
                date: d,
                hour: 0,
                minute: 0,
                second: 0,
                nanos: 0,
            }).precedes(since),
            (None, None) => in_window(entry, Some(since)),
        },
{
}

/// Fetching is entry by entry, in order: one that the window lets through and that can be placed
/// on a timeline becomes one event, any other none.
pub proof fn law_entries_are_fetched_one_by_one(
    before: Seq<ScheduleEntry>,
    entry: ScheduleEntry,
    after: Seq<ScheduleEntry>,
    since: Option<UtcDateTime>,
)
    ensures
        kept(before + after, since) == kept(before, since) + kept(after, since),
        kept(seq![entry], since) == if in_window(entry, since) && ical::event_times(entry) is Some {
            seq![entry]
        } else {
            Seq::empty()
        },
{
    lemma_kept_adds(before, after, since);
    assert(seq![entry].drop_last() =~= Seq::<ScheduleEntry>::empty());
    assert(seq![entry].last() == entry);
    reveal_with_fuel(kept, 2);
    assert(Seq::<ScheduleEntry>::empty().push(entry) =~= seq![entry]);
}

proof fn lemma_kept_adds(
    before: Seq<ScheduleEntry>,
    after: Seq<ScheduleEntry>,
    since: Option<UtcDateTime>,
)
    ensures
        kept(before + after, since) == kept(before, since) + kept(after, since),
    decreases after.len(),
{
    let all = before + after;
    if after.len() == 0 {
        assert(all =~= before);
        assert(kept(before, since) + kept(after, since) =~= kept(before, since));
    } else {
        assert(all.drop_last() =~= before + after.drop_last());
        assert(all.last() == after.last());
        lemma_kept_adds(before, after.drop_last(), since);
        assert(kept(all, since) =~= kept(before, since) + kept(after, since));
    }
}

/// Is this the start that the text of an entry says: a timestamp, or else the UTC midnight of a
/// bare date?
pub open spec fn starts_at(entry: ScheduleEntry, start: UtcDateTime) -> bool {
    entry.starts_at matches Some(raw) && {
        ||| time::rfc3339_utc(raw@) == Some(start)
        ||| time::rfc3339_utc(raw@) is None && time::parsed_date(raw@, "%Y-%m-%d"@) == Some(
            start.date,
        ) && start.hour == 0 && start.minute == 0 && start.second == 0 && start.nanos == 0
    }
}

/// The events of a fetch since a time: every entry that can be placed on a timeline and starts at
/// that time or later is among them, under its own id and with the calendar text made of it,
/// whether it is all-day or timed, and no event is of an entry that starts earlier.
pub proof fn law_fetch_since_keeps_what_starts_later(
    events: Seq<RawEvent>,
    entries: Seq<ScheduleEntry>,
    since: UtcDateTime,
)
    requires
        are_events_of(events, entries, Some(since)),
    ensures
        forall|i: int, start: UtcDateTime|
            #![trigger starts_at(entries[i], start)]
            0 <= i < entries.len() && starts_at(entries[i], start) && !start.precedes(since)
                && ical::event_times(entries[i]) is Some ==> exists|k: int|
                #![trigger events[k]]
                0 <= k < events.len() && events[k].remote_id@ == decimal::int_text(
                    entries[i].id as int,
                ) && ical::is_vcalendar_of(entries[i], Some(events[k].ical@)),
        forall|k: int|
            #![trigger events[k]]
            0 <= k < events.len() ==> exists|i: int|
                #![trigger entries[i]]
                0 <= i < entries.len() && events[k].remote_id@ == decimal::int_text(
                    entries[i].id as int,
                ) && ical::is_vcalendar_of(entries[i], Some(events[k].ical@)) && forall|
                    start: UtcDateTime,
                | #[trigger]
                    starts_at(entries[i], start) ==> !start.precedes(since),
{
    let all = kept(entries, Some(since));
    law_kept_entries_are_the_usable_ones(entries, Some(since));
    assert forall|i: int, start: UtcDateTime|
        #![trigger starts_at(entries[i], start)]
        0 <= i < entries.len() && starts_at(entries[i], start) && !start.precedes(since)
            && ical::event_times(entries[i]) is Some implies exists|k: int|
        #![trigger events[k]]
        0 <= k < events.len() && events[k].remote_id@ == decimal::int_text(entries[i].id as int)
            && ical::is_vcalendar_of(entries[i], Some(events[k].ical@)) by {
        law_window_goes_by_the_start(entries[i], since);
        assert(client::entry_start(entries[i]) == Some(start));
        assert(is_kept(entries[i], Some(since)));
        let k = choose|k: int| 0 <= k < all.len() && all[k] == entries[i];
        assert(is_event_of(events[k], all[k]));
    }
    assert forall|k: int| #![trigger events[k]] 0 <= k < events.len() implies exists|i: int|
        #![trigger entries[i]]
        0 <= i < entries.len() && events[k].remote_id@ == decimal::int_text(entries[i].id as int)
            && ical::is_vcalendar_of(entries[i], Some(events[k].ical@)) && forall|
            start: UtcDateTime,
        | #[trigger]
            starts_at(entries[i], start) ==> !start.precedes(since) by {
        assert(is_event_of(events[k], all[k]));
        assert(is_kept(all[k], Some(since)));
        let i = choose|i: int| 0 <= i < entries.len() && entries[i] == all[k];
        assert forall|start: UtcDateTime| #[trigger] starts_at(entries[i], start) implies
            !start.precedes(since) by {
            assert(client::entry_start(entries[i]) == Some(start));
        }
        assert(entries[i] == all[k]);
    }
}

/// The events of a fetch without a window: there is one for every entry that can be placed on a
/// timeline, in order.
pub proof fn law_fetch_of_everything(
    events: Seq<RawEvent>,
    entries: Seq<ScheduleEntry>,
    i: int,
)
    requires
        are_events_of(events, entries, None),
        0 <= i < entries.len(),
        ical::event_times(entries[i]) is Some,
    ensures
        exists|k: int|
            #![trigger events[k]]
            0 <= k < events.len() && events[k].remote_id@ == decimal::int_text(
                entries[i].id as int,
            ) && ical::is_vcalendar_of(entries[i], Some(events[k].ical@)),
{
    let all = kept(entries, None);
    law_kept_entries_are_the_usable_ones(entries, None);
    assert(is_kept(entries[i], None));
    let k = choose|k: int| 0 <= k < all.len() && all[k] == entries[i];
    assert(is_event_of(events[k], all[k]));
}

/// A window starts at the time that its text says in RFC 3339; without a text, or with one that
/// says none, there is no window.
pub proof fn law_window_starts_as_told(since_utc: Option<Seq<char>>)
    ensures
        since_utc is None ==> window_start(since_utc) is None,
        since_utc matches Some(s) ==> window_start(since_utc) == time::rfc3339_utc(s),
{
}

/// A booking whose entry was found is written by updating that very entry, and removed by trashing
/// it, in the project that was asked for. Where none was found it is written by creating one in
/// the project's schedule, and there is nothing to remove.
pub proof fn law_writes_and_removals_meet_the_found_entry(
    client: BasecampClient,
    ids: (i64, i64),
    entry_id: i64,
)
    ensures
        ({
            let project = client.base() + "/"@ + client.account() + "/buckets/"@
                + decimal::int_text(ids.0 as int);
            &&& put_of(client, ids, Some(entry_id)) == (
                Method::Put,
                project + "/schedule_entries/"@ + decimal::int_text(entry_id as int) + ".json"@,
            )
            &&& put_of(client, ids, None) == (
                Method::Post,
                project + "/schedules/"@ + decimal::int_text(ids.1 as int) + "/entries.json"@,
            )
            &&& delete_of(client, ids, Some(entry_id)) == Some(
                (
                    Method::Put,
                    project + "/recordings/"@ + decimal::int_text(entry_id as int)
                        + "/status/trashed.json"@,
                ),
            )
            &&& delete_of(client, ids, None) is None
        }),
{
    client::law_requests_are_addressed_exactly(client, ids.0, ids.1, entry_id, 1);
}

/// A page is refused only for an all-day entry that the window lets through and that ends on the
/// last day that can be represented; every such entry, whose first day can be read, refuses it.
pub proof fn law_pages_are_refused_for_the_last_day_only(
    entry: ScheduleEntry,
    since: Option<UtcDateTime>,
)
    ensures
        is_untranslatable(entry, since) ==> in_window(entry, since) && entry.all_day
            && entry.ends_at is Some && super::calendar_laws::is_day_of(
            text::trimmed(entry.ends_at->0@),
            Some(CivilDate { year: 262142, month: 12, day: 31 }),
        ),
        in_window(entry, since) && ical::ends_past_calendar(entry) ==> is_untranslatable(
            entry,
            since,
        ),
{
    super::calendar_laws::law_only_the_last_day_is_past_the_calendar(entry);
}

/// Pages are all taken where each of their entries can be, and one that cannot be refuses them.
pub proof fn law_one_entry_refuses_a_page(
    entries: Seq<ScheduleEntry>,
    since: Option<UtcDateTime>,
    i: int,
)
    requires
        0 <= i < entries.len(),
    ensures
        is_untranslatable(entries[i], since) ==> !all_translatable(entries, since),
        all_translatable(entries, since) <==> forall|j: int|
            0 <= j < entries.len() ==> !(in_window(entries[j], since) && ical::ends_past_calendar(
                #[trigger] entries[j],
            )),
{
    if all_translatable(entries, since) {
        assert forall|j: int| 0 <= j < entries.len() implies !(in_window(entries[j], since)
            && ical::ends_past_calendar(#[trigger] entries[j])) by {
            assert(!is_untranslatable(entries[j], since));
        }
    }
}

/// Listing projects takes at most forty pages, and reading or searching a schedule at most
/// twenty, whatever the server answers.
pub proof fn law_pages_are_capped(budget: nat, has_next: spec_fn(nat) -> bool)
    ensures
        pages_of(fresh(MAX_PROJECT_PAGES), budget, has_next) <= 40,
        pages_of(fresh(MAX_ENTRY_PAGES), budget, has_next) <= 20,
        fresh(MAX_PROJECT_PAGES).cap == 40,
        fresh(MAX_ENTRY_PAGES).cap == 20,
{
    law_walk_is_bounded(fresh(MAX_PROJECT_PAGES), budget, has_next);
    law_walk_is_bounded(fresh(MAX_ENTRY_PAGES), budget, has_next);
}

/// A snapshot is complete exactly where its walk stops because the last page was read: not where
/// the page cap or the budget stops it, and not before any page is read.
pub proof fn law_snapshots_are_complete_at_the_last_page(w: WalkView, budget: nat, cap: u32)
    ensures
        is_complete(w) <==> step_of(w, budget) == Step::Stop(Stop::Finished),
        step_of(w, budget) == Step::Stop(Stop::PageCap) || step_of(w, budget) == Step::Stop(
            Stop::Budget,
        ) ==> !is_complete(w),
        !is_complete(fresh(cap)),
        is_complete(page_read(w, false)),
        is_complete(page_read(w, true)) <==> is_complete(w),
{
}

} // verus!
