use calrs::basecamp::client::{
    check_answer, check_trash_answer, react, request_headers, retry_after_secs, truncate,
    unreadable_body, user_agent, Attempt, BasecampClient, DockTool, Method, Page, Project,
    Reaction, ScheduleEntry, PER_PAGE_HINT,
};
use calrs::time::UtcDateTime;

fn value_text(v: &serde_json::Value, name: &str) -> Option<String> {
    v.get(name).and_then(|x| x.as_str()).map(|s| s.to_string())
}

fn project_from(json: &str) -> Project {
    let v: serde_json::Value = serde_json::from_str(json).unwrap();
    let dock = v
        .get("dock")
        .and_then(|d| d.as_array())
        .map(|tools| {
            tools
                .iter()
                .map(|t| DockTool {
                    id: t.get("id").unwrap().as_i64().unwrap(),
                    name: value_text(t, "name").unwrap(),
                    enabled: t.get("enabled").and_then(|e| e.as_bool()).unwrap_or(false),
                })
                .collect()
        })
        .unwrap_or_default();
    Project {
        id: v.get("id").unwrap().as_i64().unwrap(),
        name: value_text(&v, "name").unwrap_or_default(),
        updated_at: value_text(&v, "updated_at"),
        dock,
    }
}

fn entry_from(json: &str) -> ScheduleEntry {
    let v: serde_json::Value = serde_json::from_str(json).unwrap();
    ScheduleEntry {
        id: v.get("id").unwrap().as_i64().unwrap(),
        summary: value_text(&v, "summary"),
        description: value_text(&v, "description"),
        starts_at: value_text(&v, "starts_at"),
        ends_at: value_text(&v, "ends_at"),
        all_day: v.get("all_day").and_then(|b| b.as_bool()).unwrap_or(false),
        status: value_text(&v, "status"),
        app_url: value_text(&v, "app_url"),
    }
}

fn chrono_of(t: UtcDateTime) -> chrono::DateTime<chrono::Utc> {
    chrono::NaiveDate::from_ymd_opt(t.date.year, t.date.month, t.date.day)
        .unwrap()
        .and_hms_nano_opt(t.hour, t.minute, t.second, t.nanos)
        .unwrap()
        .and_utc()
}

#[test]
fn user_agent_carries_name_and_contact() {
    let ua = user_agent(None);
    assert!(ua.starts_with("calrs/"), "ua: {}", ua);
    // Basecamp rejects a User-Agent without a contact; the parenthesised part is it.
    assert!(ua.contains('(') && ua.contains(')'), "ua: {}", ua);
}

#[test]
fn user_agent_prefers_the_public_url() {
    assert_eq!(
        user_agent(Some("https://cal.example.com")),
        "calrs/0.1.0 (https://cal.example.com)"
    );
    assert_eq!(user_agent(Some("")), user_agent(None));
    assert_eq!(
        user_agent(None),
        "calrs/0.1.0 (https://github.com/joelgombin/calrs)"
    );
}

#[test]
fn urls_are_account_scoped() {
    let c = BasecampClient::new("https://3.basecampapi.com/", "1234567", "tok");
    assert_eq!(
        c.url("projects.json"),
        "https://3.basecampapi.com/1234567/projects.json"
    );
    assert_eq!(
        c.url("/buckets/1/schedules/2/entries.json"),
        "https://3.basecampapi.com/1234567/buckets/1/schedules/2/entries.json"
    );
}

#[test]
fn client_keeps_account_and_token() {
    let c = BasecampClient::new("https://x.test///", "7", "tok");
    assert_eq!(c.account_id(), "7");
    assert_eq!(c.access_token(), "tok");
    assert_eq!(c.url("//a"), "https://x.test/7/a");
}

#[test]
fn requests_address_the_documented_routes() {
    let c = BasecampClient::new("https://3.basecampapi.com", "99", "tok");
    let list = c.get_projects_page(3);
    assert_eq!(list.method, Method::Get);
    assert_eq!(list.url, "https://3.basecampapi.com/99/projects.json?page=3");
    let entries = c.get_schedule_entries_page(1, 2, 20);
    assert_eq!(entries.method, Method::Get);
    assert_eq!(
        entries.url,
        "https://3.basecampapi.com/99/buckets/1/schedules/2/entries.json?page=20"
    );
    let create = c.create_schedule_entry(1, 2);
    assert_eq!(create.method, Method::Post);
    assert_eq!(
        create.url,
        "https://3.basecampapi.com/99/buckets/1/schedules/2/entries.json"
    );
    let update = c.update_schedule_entry(1, 5);
    assert_eq!(update.method, Method::Put);
    assert_eq!(
        update.url,
        "https://3.basecampapi.com/99/buckets/1/schedule_entries/5.json"
    );
    let trash = c.trash_recording(1, 5);
    assert_eq!(trash.method, Method::Put);
    assert_eq!(
        trash.url,
        "https://3.basecampapi.com/99/buckets/1/recordings/5/status/trashed.json"
    );
}

#[test]
fn headers_always_name_the_agent() {
    let bare = request_headers(None, false);
    assert_eq!(bare.len(), 2);
    assert_eq!(bare[0].0, "User-Agent");
    assert_eq!(bare[0].1, user_agent(None));
    assert_eq!((bare[1].0, bare[1].1.as_str()), ("Accept", "application/json"));
    let full = request_headers(Some("https://cal.example.com"), true);
    assert_eq!(full.len(), 3);
    assert_eq!(full[0].1, "calrs/0.1.0 (https://cal.example.com)");
    assert_eq!((full[2].0, full[2].1.as_str()), ("Content-Type", "application/json"));
}

#[test]
fn project_finds_enabled_schedule_dock() {
    let json = r#"{
        "id": 2085958499,
        "name": "The Leto Laptop",
        "updated_at": "2022-11-22T17:56:27.363Z",
        "dock": [
            {"id": 1, "name": "message_board", "enabled": true},
            {"id": 1069479342, "name": "schedule", "enabled": true}
        ]
    }"#;
    let p = project_from(json);
    assert_eq!(p.schedule_dock_id(), Some(1069479342));
}

#[test]
fn project_skips_disabled_schedule() {
    let json = r#"{
        "id": 1,
        "name": "No calendar here",
        "dock": [{"id": 9, "name": "schedule", "enabled": false}]
    }"#;
    let p = project_from(json);
    assert_eq!(p.schedule_dock_id(), None);
}

#[test]
fn project_without_a_dock_has_no_schedule() {
    assert_eq!(project_from(r#"{"id": 1}"#).schedule_dock_id(), None);
}

#[test]
fn schedule_entry_parses_timed_and_all_day_starts() {
    let timed = entry_from(
        r#"{"id": 1, "starts_at": "2022-11-01T10:00:00.000Z", "ends_at": "2022-11-01T11:00:00.000Z", "all_day": false}"#,
    );
    assert_eq!(
        chrono_of(timed.starts_at_utc().unwrap()).to_rfc3339(),
        "2022-11-01T10:00:00+00:00"
    );

    let all_day = entry_from(
        r#"{"id": 2, "starts_at": "2026-06-08", "ends_at": "2026-06-08", "all_day": true}"#,
    );
    assert_eq!(
        chrono_of(all_day.starts_at_utc().unwrap()).to_rfc3339(),
        "2026-06-08T00:00:00+00:00"
    );
}

#[test]
fn starts_are_moved_to_utc() {
    let e = entry_from(r#"{"id": 1, "starts_at": "2022-11-01T00:30:00+02:00"}"#);
    assert_eq!(
        chrono_of(e.starts_at_utc().unwrap()).to_rfc3339(),
        "2022-10-31T22:30:00+00:00"
    );
    assert!(entry_from(r#"{"id": 1, "starts_at": "soon"}"#).starts_at_utc().is_none());
    assert!(entry_from(r#"{"id": 1}"#).starts_at_utc().is_none());
}

#[test]
fn schedule_entry_tolerates_missing_optional_fields() {
    // Listings omit `description`; a stricter reading would fail the whole page.
    let e = entry_from(r#"{"id": 3}"#);
    assert!(e.description.is_none());
    assert!(!e.all_day);
}

#[test]
fn retry_after_parses_delay_seconds() {
    let mut h = reqwest::header::HeaderMap::new();
    h.insert(reqwest::header::RETRY_AFTER, "3".parse().unwrap());
    let told = |h: &reqwest::header::HeaderMap| {
        retry_after_secs(
            h.get(reqwest::header::RETRY_AFTER).and_then(|v| v.to_str().ok()),
        )
    };
    assert_eq!(told(&h), Some(3));
    // HTTP-date form is not a delay; treated as absent so we fall back to 1s.
    h.insert(
        reqwest::header::RETRY_AFTER,
        "Wed, 21 Oct 2026 07:28:00 GMT".parse().unwrap(),
    );
    assert_eq!(told(&h), None);
}

#[test]
fn retry_after_trims_and_refuses_what_does_not_fit() {
    assert_eq!(retry_after_secs(Some("  7 ")), Some(7));
    assert_eq!(retry_after_secs(Some("+7")), Some(7));
    assert_eq!(retry_after_secs(Some("-7")), None);
    assert_eq!(retry_after_secs(Some("")), None);
    assert_eq!(
        retry_after_secs(Some("18446744073709551615")),
        Some(18446744073709551615)
    );
    assert_eq!(retry_after_secs(Some("18446744073709551616")), None);
    assert_eq!(retry_after_secs(None), None);
}

#[test]
fn throttled_requests_are_retried_once() {
    assert!(matches!(react(Attempt::First, 200, None), Reaction::Deliver));
    assert!(matches!(react(Attempt::First, 500, Some("3")), Reaction::Deliver));
    assert!(matches!(react(Attempt::First, 429, None), Reaction::RetryAfter(1)));
    assert!(matches!(react(Attempt::First, 429, Some("5")), Reaction::RetryAfter(5)));
    assert!(matches!(react(Attempt::Second, 429, Some("1")), Reaction::Deliver));
    match react(Attempt::First, 429, Some("6")) {
        Reaction::Fail(e) => assert_eq!(
            e.message(),
            "Basecamp rate limit hit; retry after 6s (too long to wait inline)"
        ),
        other => panic!("{:?}", other),
    }
}

#[test]
fn error_answers_quote_status_and_body() {
    assert!(check_answer(200, "200 OK", "").is_ok());
    assert!(check_answer(299, "299", "").is_ok());
    assert_eq!(
        check_answer(404, "404 Not Found", "gone").unwrap_err().message(),
        "Basecamp API returned HTTP 404 Not Found: gone"
    );
    assert!(check_trash_answer(204, "204 No Content", "").is_ok());
    assert_eq!(
        check_trash_answer(403, "403 Forbidden", "no").unwrap_err().message(),
        "Basecamp trash failed: HTTP 403 Forbidden no"
    );
    assert_eq!(
        unreadable_body("expected value", "<html>").message(),
        "Could not parse Basecamp response: expected value (body: <html>)"
    );
    assert!(check_answer(300, "300", "").is_err());
    assert!(check_answer(199, "199", "").is_err());
}

#[test]
fn truncate_keeps_short_bodies_and_bounds_long_ones() {
    assert_eq!(truncate("short"), "short");
    let long = "x".repeat(1000);
    assert!(truncate(&long).len() < 320);
}

#[test]
fn truncate_does_not_split_multibyte_characters() {
    // A 300-byte boundary landing mid-codepoint must not cut it.
    let long = "é".repeat(400);
    let out = truncate(&long);
    assert!(out.ends_with('…'));
}

#[test]
fn truncate_cuts_at_the_last_whole_character() {
    let exact = "x".repeat(300);
    assert_eq!(truncate(&exact), exact);
    assert_eq!(truncate(&"x".repeat(301)), format!("{}…", exact));
    let odd = format!("{}é{}", "x".repeat(299), "y".repeat(10));
    assert_eq!(truncate(&odd), format!("{}…", "x".repeat(299)));
    let wide = "😀".repeat(100);
    assert_eq!(truncate(&wide), format!("{}…", "😀".repeat(75)));
}

#[test]
fn short_pages_are_the_last_ones() {
    assert!(!Page::of(Vec::<u8>::new()).has_next);
    assert!(!Page::of(vec![0u8; PER_PAGE_HINT - 1]).has_next);
    assert!(Page::of(vec![0u8; PER_PAGE_HINT]).has_next);
    assert_eq!(Page::of(vec![1u8, 2]).items, vec![1u8, 2]);
}
