use calrs::basecamp::client::ScheduleEntry;
use calrs::basecamp::ical::{
    compact_date, compact_datetime, entry_id_from_synthetic_uid, entry_payload_from_ics,
    escape_ical_text, html_paragraph, is_date_only, iso_date, iso_date_minus_one, iso_datetime,
    render_vcalendar, synth_vcalendar, synthetic_uid, try_synth_vcalendar, uid_from_description,
    uid_marker, uid_marker_matches, unescape_ical_text,
};

fn entry(starts: &str, ends: &str, all_day: bool) -> ScheduleEntry {
    ScheduleEntry {
        id: 1069479400,
        summary: Some("Project Kickoff, phase 1".to_string()),
        description: Some("<div>Discuss project goals.</div>".to_string()),
        starts_at: Some(starts.to_string()),
        ends_at: Some(ends.to_string()),
        all_day,
        status: Some("active".to_string()),
        app_url: Some("https://3.basecamp.com/1/buckets/2/schedule_entries/3".to_string()),
    }
}

#[test]
fn synth_timed_entry() {
    let ics = synth_vcalendar(&entry(
        "2022-11-01T10:00:00.000Z",
        "2022-11-01T11:00:00.000Z",
        false,
    ))
    .unwrap();
    assert!(ics.contains("UID:bc-1069479400@basecamp"), "{}", ics);
    assert!(ics.contains("DTSTART:20221101T100000Z"), "{}", ics);
    assert!(ics.contains("DTEND:20221101T110000Z"), "{}", ics);
    assert!(
        ics.contains("SUMMARY:Project Kickoff\\, phase 1"),
        "{}",
        ics
    );
    assert!(ics.contains("STATUS:CONFIRMED"));
    assert!(ics.contains("TRANSP:OPAQUE"));
}

#[test]
fn synth_all_day_entry_ends_exclusive() {
    // Basecamp's inclusive last day (08) must become iCal's exclusive 09,
    // or the day would be treated as zero-length and block nothing.
    let ics = synth_vcalendar(&entry("2026-06-08", "2026-06-08", true)).unwrap();
    assert!(ics.contains("DTSTART;VALUE=DATE:20260608"), "{}", ics);
    assert!(ics.contains("DTEND;VALUE=DATE:20260609"), "{}", ics);
}

#[test]
fn synth_marks_trashed_entry_cancelled() {
    let mut e = entry(
        "2022-11-01T10:00:00.000Z",
        "2022-11-01T11:00:00.000Z",
        false,
    );
    e.status = Some("trashed".to_string());
    let ics = synth_vcalendar(&e).unwrap();
    assert!(ics.contains("STATUS:CANCELLED"));
}

#[test]
fn synth_marks_archived_entry_cancelled_and_others_confirmed() {
    let mut e = entry("2026-06-08", "2026-06-08", true);
    e.status = Some("archived".to_string());
    assert!(synth_vcalendar(&e).unwrap().contains("STATUS:CANCELLED"));
    e.status = None;
    assert!(synth_vcalendar(&e).unwrap().contains("STATUS:CONFIRMED"));
    e.status = Some("drafted".to_string());
    assert!(synth_vcalendar(&e).unwrap().contains("STATUS:CONFIRMED"));
}

#[test]
fn synth_skips_entry_without_times() {
    let mut e = entry(
        "2022-11-01T10:00:00.000Z",
        "2022-11-01T11:00:00.000Z",
        false,
    );
    e.starts_at = None;
    assert!(synth_vcalendar(&e).is_none());
}

#[test]
fn synth_skips_entries_that_cannot_be_placed() {
    assert!(synth_vcalendar(&entry(" ", "2026-06-08", true)).is_none());
    assert!(synth_vcalendar(&entry("2026-06-08", "", true)).is_none());
    assert!(synth_vcalendar(&entry("2026-06-08", "2026-06-08", false)).is_none());
    assert!(synth_vcalendar(&entry("tomorrow", "2026-06-08", true)).is_none());
    assert!(synth_vcalendar(&entry("2026-06-08", "2026-02-30", true)).is_none());
}

#[test]
fn synth_reads_all_day_timestamps_as_utc_dates() {
    let e = entry("2026-06-08T00:00:00+02:00", " 2026-12-31 ", true);
    let ics = synth_vcalendar(&e).unwrap();
    assert!(ics.contains("DTSTART;VALUE=DATE:20260607"), "{}", ics);
    assert!(ics.contains("DTEND;VALUE=DATE:20270101"), "{}", ics);
}

#[test]
fn synth_refuses_to_go_past_the_calendar() {
    let e = entry("2026-06-08", "+262142-12-31", true);
    assert!(try_synth_vcalendar(&e).is_none());
    let ok = entry("2026-06-08", "2026-06-08", true);
    assert!(try_synth_vcalendar(&ok).unwrap().is_some());
    let unusable = entry("", "+262142-12-31", true);
    assert!(try_synth_vcalendar(&unusable).unwrap().is_none());
}

#[test]
fn rendered_text_is_line_by_line() {
    let mut e = entry("2026-06-08", "2026-06-08", true);
    assert_eq!(
        render_vcalendar(&e, ";VALUE=DATE:20260608", ";VALUE=DATE:20260609", "20260101T000000Z"),
        "BEGIN:VCALENDAR\r\nVERSION:2.0\r\nPRODID:-//calrs//basecamp-bridge//EN\r\n\
         BEGIN:VEVENT\r\nUID:bc-1069479400@basecamp\r\nDTSTAMP:20260101T000000Z\r\n\
         DTSTART;VALUE=DATE:20260608\r\nDTEND;VALUE=DATE:20260609\r\n\
         SUMMARY:Project Kickoff\\, phase 1\r\n\
         URL:https://3.basecamp.com/1/buckets/2/schedule_entries/3\r\n\
         TRANSP:OPAQUE\r\nSTATUS:CONFIRMED\r\nEND:VEVENT\r\nEND:VCALENDAR\r\n"
    );
    e.summary = None;
    e.app_url = Some(String::new());
    let bare = render_vcalendar(&e, ":a", ":b", "c");
    assert!(!bare.contains("SUMMARY"), "{}", bare);
    assert!(!bare.contains("URL:"), "{}", bare);
    assert!(bare.contains("DTSTART:a\r\nDTEND:b\r\nTRANSP:OPAQUE\r\n"), "{}", bare);
}

#[test]
fn synth_reuses_calrs_uid_from_marker() {
    // A booking calrs pushed must come back with its own UID, not a
    // synthetic one — otherwise sync would store it as a second event and
    // the write-back would lose track of it.
    let mut e = entry("2026-03-10T13:00:00Z", "2026-03-10T13:30:00Z", false);
    e.description = Some("<div>Notes</div><div>[calrs-uid:abc-123@calrs]</div>".to_string());
    let ics = synth_vcalendar(&e).unwrap();
    assert!(ics.contains("UID:abc-123@calrs"), "{}", ics);
}

#[test]
fn synthetic_uid_round_trips() {
    let uid = synthetic_uid(42);
    assert_eq!(entry_id_from_synthetic_uid(&uid), Some(42));
    assert_eq!(entry_id_from_synthetic_uid("abc-123@calrs"), None);
    assert_eq!(entry_id_from_synthetic_uid("bc-notanumber@basecamp"), None);
}

#[test]
fn synthetic_uids_cover_every_id() {
    for id in [0, 1, -1, 9, 10, 1069479400, i64::MAX, i64::MIN] {
        assert_eq!(synthetic_uid(id), format!("bc-{}@basecamp", id));
        assert_eq!(entry_id_from_synthetic_uid(&synthetic_uid(id)), Some(id));
    }
    assert_eq!(entry_id_from_synthetic_uid("bc-9223372036854775808@basecamp"), None);
    assert_eq!(entry_id_from_synthetic_uid("bc-@basecamp"), None);
    assert_eq!(entry_id_from_synthetic_uid("bc-basecamp"), None);
    // Only what `synthetic_uid` writes names an entry.
    for other in ["bc-+7@basecamp", "bc-007@basecamp", "bc--0@basecamp", "bc- 7@basecamp"] {
        assert_eq!(entry_id_from_synthetic_uid(other), None, "{}", other);
    }
}

#[test]
fn marker_matching_is_uid_exact() {
    let desc = Some("<div>[calrs-uid:uid-1@calrs]</div>");
    assert!(uid_marker_matches(desc, "uid-1@calrs"));
    assert!(!uid_marker_matches(desc, "uid-2@calrs"));
    assert!(!uid_marker_matches(None, "uid-1@calrs"));
}

#[test]
fn marker_matching_is_no_prefix_matching() {
    let desc = Some("<div>[calrs-uid:uid-12@calrs]</div>");
    assert!(!uid_marker_matches(desc, "uid-1"));
    assert!(!uid_marker_matches(desc, "uid-12@calrs]"));
    assert_eq!(uid_marker("u"), "[calrs-uid:u]");
}

#[test]
fn uid_extraction_ignores_empty_marker() {
    assert_eq!(uid_from_description(Some("<div>[calrs-uid:]</div>")), None);
    assert_eq!(uid_from_description(Some("no marker")), None);
}

#[test]
fn uid_extraction_takes_the_first_marker_trimmed() {
    assert_eq!(
        uid_from_description(Some("[calrs-uid: a b ] [calrs-uid:c]")),
        Some("a b".to_string())
    );
    assert_eq!(uid_from_description(Some("[calrs-uid:open")), None);
    assert_eq!(uid_from_description(Some("[calrs-uid:  ][calrs-uid:c]")), None);
    assert_eq!(uid_from_description(None), None);
}

const BOOKING_ICS: &str = "BEGIN:VCALENDAR\r\nVERSION:2.0\r\nBEGIN:VEVENT\r\n\
    UID:abc-123@calrs\r\nDTSTAMP:20260301T090000Z\r\nDTSTART:20260310T130000Z\r\n\
    DTEND:20260310T133000Z\r\nSUMMARY:Intro Call \\u2014 Jane & Alice\r\n\
    DESCRIPTION:Wants to discuss pricing\\nand timelines\r\n\
    LOCATION:https://meet.example.com/abc\r\nEND:VEVENT\r\nEND:VCALENDAR\r\n";

#[test]
fn payload_from_booking_ics() {
    let p = entry_payload_from_ics("abc-123@calrs", BOOKING_ICS).unwrap();
    assert_eq!(p.starts_at, "2026-03-10T13:00:00Z");
    assert_eq!(p.ends_at, "2026-03-10T13:30:00Z");
    assert!(!p.all_day);
    assert!(
        !p.notify,
        "calrs sends its own emails; Basecamp must not double-notify"
    );
    let desc = p.description.unwrap();
    // Notes, location and the marker all land in the description, and the
    // guest's `&` is HTML-escaped rather than breaking Basecamp's rich text.
    assert!(
        desc.contains("Wants to discuss pricing<br>and timelines"),
        "{}",
        desc
    );
    assert!(
        desc.contains("Location: https://meet.example.com/abc"),
        "{}",
        desc
    );
    assert!(desc.contains("[calrs-uid:abc-123@calrs]"), "{}", desc);
}

#[test]
fn payload_description_is_in_order() {
    let p = entry_payload_from_ics("abc-123@calrs", BOOKING_ICS).unwrap();
    assert_eq!(
        p.description.as_deref(),
        Some(
            "<div>Wants to discuss pricing<br>and timelines</div>\
             <div>Location: https://meet.example.com/abc</div>\
             <div>[calrs-uid:abc-123@calrs]</div>"
        )
    );
    assert_eq!(p.summary, "Intro Call u2014 Jane & Alice");
}

#[test]
fn payload_escapes_html_in_notes() {
    let ics = BOOKING_ICS.replace(
        "Wants to discuss pricing\\nand timelines",
        "<script>alert(1)</script>",
    );
    let p = entry_payload_from_ics("abc-123@calrs", &ics).unwrap();
    let desc = p.description.unwrap();
    assert!(!desc.contains("<script>"), "{}", desc);
    assert!(desc.contains("&lt;script&gt;"), "{}", desc);
}

#[test]
fn payload_unescapes_ical_summary() {
    // The ICS escapes commas and semicolons; Basecamp wants plain text.
    let ics = BOOKING_ICS.replace(
        "SUMMARY:Intro Call \\u2014 Jane & Alice",
        "SUMMARY:Intro Call\\, phase 1",
    );
    let p = entry_payload_from_ics("abc-123@calrs", &ics).unwrap();
    assert_eq!(p.summary, "Intro Call, phase 1");
}

#[test]
fn payload_from_all_day_ics_uses_inclusive_end() {
    let ics = "BEGIN:VCALENDAR\r\nBEGIN:VEVENT\r\nUID:u@calrs\r\n\
        DTSTART;VALUE=DATE:20260608\r\nDTEND;VALUE=DATE:20260609\r\n\
        SUMMARY:Day off\r\nEND:VEVENT\r\nEND:VCALENDAR\r\n";
    let p = entry_payload_from_ics("u@calrs", ics).unwrap();
    assert!(p.all_day);
    assert_eq!(p.starts_at, "2026-06-08");
    assert_eq!(p.ends_at, "2026-06-08");
}

#[test]
fn payload_rejects_ics_without_times() {
    let ics = "BEGIN:VCALENDAR\r\nBEGIN:VEVENT\r\nUID:u@calrs\r\nSUMMARY:x\r\nEND:VEVENT\r\nEND:VCALENDAR\r\n";
    assert!(entry_payload_from_ics("u@calrs", ics).is_err());
}

#[test]
fn payload_failures_name_what_is_wrong() {
    let message = |ics: &str| entry_payload_from_ics("u", ics).unwrap_err().message();
    assert_eq!(
        message("BEGIN:VCALENDAR\r\nEND:VCALENDAR\r\n"),
        "No VEVENT in the ICS handed to the Basecamp provider"
    );
    assert_eq!(
        message("BEGIN:VEVENT\r\nEND:VEVENT\r\n"),
        "ICS has no DTSTART"
    );
    assert_eq!(
        message("BEGIN:VEVENT\r\nDTSTART:20260608\r\nEND:VEVENT\r\n"),
        "ICS has no DTEND"
    );
    assert_eq!(
        message("BEGIN:VEVENT\r\nDTSTART:soon\r\nDTEND:20260608\r\nEND:VEVENT\r\n"),
        "Unparseable iCal datetime 'soon'"
    );
    assert_eq!(
        message("BEGIN:VEVENT\r\nDTSTART:20260608\r\nDTEND:later\r\nEND:VEVENT\r\n"),
        "Unparseable iCal date 'later'"
    );
}

#[test]
fn payload_falls_back_to_a_summary() {
    let ics = "BEGIN:VEVENT\r\nDTSTART:20260310T130000Z\r\nDTEND:20260310T133000Z\r\n\
        SUMMARY: \\n\r\nDESCRIPTION:  \r\nEND:VEVENT\r\n";
    let p = entry_payload_from_ics("u@calrs", ics).unwrap();
    assert_eq!(p.summary, "Booking");
    assert_eq!(p.description.as_deref(), Some("<div>[calrs-uid:u@calrs]</div>"));
}

#[test]
fn ical_text_escape_round_trips() {
    let original = "a, b; c\\d\ne";
    assert_eq!(unescape_ical_text(&escape_ical_text(original)), original);
}

#[test]
fn ical_text_is_escaped_exactly() {
    assert_eq!(escape_ical_text("a, b; c\\d\r\ne"), "a\\, b\\; c\\\\d\\ne");
    assert_eq!(unescape_ical_text("a\\Nb\\xc\\"), "a\nbxc\\");
    assert_eq!(unescape_ical_text(""), "");
}

#[test]
fn paragraphs_are_inert() {
    assert_eq!(
        html_paragraph("a & <b> \"c\"\r\nd"),
        "<div>a &amp; &lt;b&gt; &quot;c&quot;<br>d</div>"
    );
    assert_eq!(html_paragraph(""), "<div></div>");
}

#[test]
fn dates_change_form() {
    assert_eq!(
        compact_datetime("2022-11-01T10:00:00.000Z").as_deref(),
        Some("20221101T100000Z")
    );
    assert_eq!(
        compact_datetime("2022-11-01T00:30:00+02:00").as_deref(),
        Some("20221031T223000Z")
    );
    assert_eq!(compact_datetime("2022-11-01"), None);
    assert_eq!(
        compact_datetime("2016-12-31T23:59:60Z").as_deref(),
        Some("20161231T235960Z")
    );
    assert_eq!(
        compact_datetime("0000-01-01T00:00:00+23:59").as_deref(),
        Some("-00011231T000100Z")
    );
    assert_eq!(
        compact_datetime("9999-12-31T23:59:59-00:01").as_deref(),
        Some("+100000101T000059Z")
    );
    assert_eq!(compact_date("+123456-06-08").as_deref(), Some("+1234560608"));
    assert_eq!(compact_date("-12345-06-08").as_deref(), Some("-123450608"));
    assert_eq!(iso_date_minus_one("00000101").unwrap(), "-0001-12-31");
    assert_eq!(compact_date(" 2026-06-08 ").as_deref(), Some("20260608"));
    assert_eq!(compact_date("June"), None);
    assert_eq!(iso_datetime("20260310T130000Z").unwrap(), "2026-03-10T13:00:00Z");
    assert_eq!(iso_datetime("20260310T130000").unwrap(), "2026-03-10T13:00:00Z");
    assert_eq!(iso_date("20260608").unwrap(), "2026-06-08");
    assert_eq!(iso_date_minus_one("20260301").unwrap(), "2026-02-28");
    assert_eq!(iso_date_minus_one("20240301").unwrap(), "2024-02-29");
    assert_eq!(iso_date_minus_one("20260101").unwrap(), "2025-12-31");
    assert!(iso_datetime("20260230").is_err());
    assert!(is_date_only(" 20260608 "));
    assert!(!is_date_only("20260608T000000Z"));
    assert!(!is_date_only("2026060a"));
}

#[test]
fn bookings_come_back_as_they_were_written() {
    let p = entry_payload_from_ics("abc-123@calrs", BOOKING_ICS).unwrap();
    let mut e = entry(&p.starts_at, &p.ends_at, p.all_day);
    e.description = p.description;
    let ics = synth_vcalendar(&e).unwrap();
    assert!(ics.contains("UID:abc-123@calrs\r\n"), "{}", ics);
    assert!(ics.contains("DTSTART:20260310T130000Z\r\n"), "{}", ics);
    assert!(ics.contains("DTEND:20260310T133000Z\r\n"), "{}", ics);
    assert!(uid_marker_matches(e.description.as_deref(), "abc-123@calrs"));
}

#[test]
fn all_day_entries_come_back_as_they_were_read() {
    let ics = synth_vcalendar(&entry("2024-02-28", "2024-02-29", true)).unwrap();
    assert!(ics.contains("DTEND;VALUE=DATE:20240301"), "{}", ics);
    let p = entry_payload_from_ics("u", &ics).unwrap();
    assert!(p.all_day);
    assert_eq!(p.starts_at, "2024-02-28");
    assert_eq!(p.ends_at, "2024-02-29");
    assert_eq!(p.summary, "Project Kickoff, phase 1");
}
