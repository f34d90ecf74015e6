use calrs::basecamp::client::{DockTool, Method, Page, Project, ScheduleEntry};
use calrs::basecamp::sync::{
    prepare_delete, prepare_put, CalendarListing, EntryFetch, EntryLookup, LookupStep, PageWalk,
    Step, Stop,
};
use calrs::basecamp::{BasecampProvider, DEFAULT_PAGE_BUDGET, MAX_ENTRY_PAGES, MAX_PROJECT_PAGES};

fn provider() -> BasecampProvider {
    BasecampProvider::new("https://3.basecampapi.com/1", "tok").unwrap()
}

fn project(id: i64, schedule: Option<i64>) -> Project {
    Project {
        id,
        name: format!("Project {}", id),
        updated_at: Some("2022-11-22T17:56:27.363Z".to_string()),
        dock: schedule
            .map(|s| vec![DockTool { id: s, name: "schedule".to_string(), enabled: true }])
            .unwrap_or_default(),
    }
}

fn entry(id: i64, starts_at: &str, description: Option<&str>) -> ScheduleEntry {
    ScheduleEntry {
        id,
        summary: None,
        description: description.map(|d| d.to_string()),
        starts_at: Some(starts_at.to_string()),
        ends_at: Some("2026-03-10T14:00:00Z".to_string()),
        all_day: false,
        status: None,
        app_url: None,
    }
}

#[test]
fn walks_stop_at_the_cap() {
    let mut p = provider();
    let mut walk = PageWalk::new(3);
    for page in 1..=3 {
        assert_eq!(walk.next(&mut p), Step::Fetch(page));
        walk.read(true);
    }
    assert_eq!(walk.next(&mut p), Step::Stop(Stop::PageCap));
    assert!(!walk.is_finished());
}

#[test]
fn walks_stop_at_the_last_page() {
    let mut p = provider();
    let mut walk = PageWalk::new(3);
    assert_eq!(walk.next(&mut p), Step::Fetch(1));
    walk.read(false);
    assert_eq!(walk.next(&mut p), Step::Stop(Stop::Finished));
    assert!(walk.is_finished());
}

#[test]
fn walks_share_the_budget() {
    let mut p = provider();
    let mut fetched = 0;
    for _ in 0..4 {
        let mut walk = PageWalk::new(MAX_ENTRY_PAGES);
        loop {
            match walk.next(&mut p) {
                Step::Fetch(_) => {
                    fetched += 1;
                    walk.read(true);
                }
                Step::Stop(_) => break,
            }
        }
    }
    assert_eq!(fetched, DEFAULT_PAGE_BUDGET);
    let mut last = PageWalk::new(1);
    assert_eq!(last.next(&mut p), Step::Stop(Stop::Budget));
    let mut none = PageWalk::new(0);
    assert_eq!(none.next(&mut p), Step::Stop(Stop::PageCap));
}

#[test]
fn calendars_are_enabled_schedules() {
    let mut p = provider();
    let mut listing = CalendarListing::new();
    assert_eq!(listing.next(&mut p), Step::Fetch(1));
    listing.accept(&Page {
        items: vec![project(1, Some(10)), project(2, None)],
        has_next: true,
    });
    assert_eq!(listing.next(&mut p), Step::Fetch(2));
    listing.accept(&Page { items: vec![project(3, Some(30))], has_next: false });
    assert_eq!(listing.next(&mut p), Step::Stop(Stop::Finished));
    let calendars = listing.finish();
    assert_eq!(calendars.len(), 2);
    assert_eq!(calendars[0].id, "1/10");
    assert_eq!(calendars[0].display_name.as_deref(), Some("Project 1"));
    assert_eq!(calendars[0].color, None);
    assert_eq!(calendars[0].change_marker.as_deref(), Some("2022-11-22T17:56:27.363Z"));
    assert_eq!(calendars[0].sync_state, None);
    assert_eq!(calendars[1].id, "3/30");
}

#[test]
fn calendar_listing_is_capped() {
    let mut p = provider();
    let mut listing = CalendarListing::new();
    let mut pages = 0;
    while let Step::Fetch(_) = listing.next(&mut p) {
        pages += 1;
        listing.accept(&Page { items: vec![project(1, Some(10))], has_next: true });
    }
    assert_eq!(pages, MAX_PROJECT_PAGES);
    assert_eq!(listing.finish().len(), 40);
}

#[test]
fn events_are_read_within_the_window() {
    let mut p = provider();
    let mut fetch = EntryFetch::start("5/6", Some("2026-03-01T00:00:00Z")).unwrap();
    assert_eq!(fetch.next(&mut p), Step::Fetch(1));
    let request = fetch.page_request(p.client(), 1);
    assert_eq!(request.method, Method::Get);
    assert_eq!(
        request.url,
        "https://3.basecampapi.com/1/buckets/5/schedules/6/entries.json?page=1"
    );
    assert!(fetch.accept(&Page {
        items: vec![
            entry(1, "2026-02-28T23:59:59Z", None),
            entry(2, "2026-03-01T00:00:00Z", None),
            entry(3, "not a time", None),
            entry(4, "2026-03-10T13:00:00Z", Some("[calrs-uid:u@calrs]")),
        ],
        has_next: false,
    }));
    let snapshot = fetch.finish();
    assert!(snapshot.complete);
    let ids: Vec<&str> = snapshot.events.iter().map(|e| e.remote_id.as_str()).collect();
    assert_eq!(ids, ["2", "4"]);
    assert!(snapshot.events[0].ical.contains("UID:bc-2@basecamp\r\n"));
    assert!(snapshot.events[1].ical.contains("UID:u@calrs\r\n"));
}

#[test]
fn events_without_a_window_are_all_read() {
    for since in [None, Some("garbage")] {
        let mut p = provider();
        let mut fetch = EntryFetch::start("5/6", since).unwrap();
        assert_eq!(fetch.next(&mut p), Step::Fetch(1));
        assert!(fetch.accept(&Page {
            items: vec![entry(1, "1999-02-28T23:59:59Z", None)],
            has_next: true,
        }));
        let snapshot = fetch.finish();
        assert_eq!(snapshot.events.len(), 1);
        assert!(!snapshot.complete);
    }
    assert!(EntryFetch::start("5", None).is_err());
}

#[test]
fn a_capped_snapshot_is_incomplete() {
    let mut p = provider();
    let mut fetch = EntryFetch::start("5/6", None).unwrap();
    let mut pages = 0;
    while let Step::Fetch(_) = fetch.next(&mut p) {
        pages += 1;
        assert!(fetch.accept(&Page { items: Vec::new(), has_next: true }));
    }
    assert_eq!(pages, MAX_ENTRY_PAGES);
    assert!(!fetch.finish().complete);
}

#[test]
fn a_page_past_the_calendar_is_refused_whole() {
    let mut p = provider();
    let mut fetch = EntryFetch::start("5/6", None).unwrap();
    assert_eq!(fetch.next(&mut p), Step::Fetch(1));
    let mut last = entry(2, "2026-03-01", None);
    last.all_day = true;
    last.ends_at = Some("+262142-12-31".to_string());
    assert!(!fetch.accept(&Page {
        items: vec![entry(1, "2026-03-01T00:00:00Z", None), last],
        has_next: false,
    }));
    let snapshot = fetch.finish();
    assert!(snapshot.events.is_empty());
    assert!(!snapshot.complete);
}

#[test]
fn synthetic_uids_are_resolved_without_a_page() {
    let mut p = provider();
    let mut lookup = EntryLookup::start(5, 6, "bc-42@basecamp");
    assert_eq!(lookup.next(&mut p), LookupStep::Found(42));
    for _ in 0..DEFAULT_PAGE_BUDGET {
        assert!(p.take_page());
    }
    assert_eq!(lookup.next(&mut p), LookupStep::Found(42));
    let mut other = EntryLookup::start(5, 6, "u@calrs");
    assert_eq!(other.next(&mut p), LookupStep::NotFound(Stop::Budget));
}

const ICS: &str = "BEGIN:VEVENT\r\nDTSTART:20260310T130000Z\r\nDTEND:20260310T133000Z\r\n\
    SUMMARY:Intro\r\nEND:VEVENT\r\n";

#[test]
fn a_second_write_updates_the_entry_of_the_first() {
    let mut p = provider();
    let (mut lookup, payload) = prepare_put("5/6", "u@calrs", ICS).ok().unwrap();
    assert_eq!(lookup.next(&mut p), LookupStep::Fetch(1));
    lookup.accept(&Page { items: vec![entry(1, "2026-03-10T13:00:00Z", None)], has_next: false });
    assert_eq!(lookup.next(&mut p), LookupStep::NotFound(Stop::Finished));
    let create = lookup.put_request(p.client());
    assert_eq!(create.method, Method::Post);
    assert_eq!(create.url, "https://3.basecampapi.com/1/buckets/5/schedules/6/entries.json");

    let (mut again, _) = prepare_put("5/6", "u@calrs", ICS).ok().unwrap();
    assert_eq!(again.next(&mut p), LookupStep::Fetch(1));
    again.accept(&Page {
        items: vec![
            entry(1, "2026-03-10T13:00:00Z", None),
            entry(7, &payload.starts_at, payload.description.as_deref()),
            entry(8, &payload.starts_at, payload.description.as_deref()),
        ],
        has_next: true,
    });
    assert_eq!(again.next(&mut p), LookupStep::Found(7));
    let update = again.put_request(p.client());
    assert_eq!(update.method, Method::Put);
    assert_eq!(update.url, "https://3.basecampapi.com/1/buckets/5/schedule_entries/7.json");
}

#[test]
fn removal_trashes_what_is_found() {
    let mut p = provider();
    let mut lookup = prepare_delete("5/6", "u@calrs").ok().unwrap();
    assert_eq!(lookup.next(&mut p), LookupStep::Fetch(1));
    assert_eq!(
        lookup.page_request(p.client(), 1).url,
        "https://3.basecampapi.com/1/buckets/5/schedules/6/entries.json?page=1"
    );
    lookup.accept(&Page {
        items: vec![entry(9, "x", Some("<div>[calrs-uid:u@calrs]</div>"))],
        has_next: true,
    });
    assert_eq!(lookup.next(&mut p), LookupStep::Found(9));
    let trash = lookup.delete_request(p.client()).unwrap();
    assert_eq!(trash.method, Method::Put);
    assert_eq!(
        trash.url,
        "https://3.basecampapi.com/1/buckets/5/recordings/9/status/trashed.json"
    );

    let mut gone = prepare_delete("5/6", "u@calrs").ok().unwrap();
    assert_eq!(gone.next(&mut p), LookupStep::Fetch(1));
    gone.accept(&Page { items: Vec::new(), has_next: false });
    assert_eq!(gone.next(&mut p), LookupStep::NotFound(Stop::Finished));
    assert!(gone.delete_request(p.client()).is_none());
}

#[test]
fn writes_fail_before_any_request() {
    let message = |calendar: &str, ics: &str| {
        prepare_put(calendar, "u", ics).err().unwrap().message()
    };
    assert_eq!(message("5", ""), "Malformed Basecamp calendar id '5'");
    assert_eq!(
        message("5/6", ""),
        "No VEVENT in the ICS handed to the Basecamp provider"
    );
    assert_eq!(
        prepare_delete("x/6", "u").err().unwrap().message(),
        "Malformed Basecamp project id in 'x/6'"
    );
}

#[test]
fn lookups_give_up_at_the_cap() {
    let mut p = provider();
    let mut lookup = EntryLookup::start(5, 6, "u@calrs");
    let mut pages = 0;
    loop {
        match lookup.next(&mut p) {
            LookupStep::Fetch(_) => {
                pages += 1;
                lookup.accept(&Page { items: Vec::new(), has_next: true });
            }
            step => {
                assert_eq!(step, LookupStep::NotFound(Stop::PageCap));
                break;
            }
        }
    }
    assert_eq!(pages, MAX_ENTRY_PAGES);
}
