//! Between Basecamp schedule entries and iCalendar text.
//!
//! Reading, a schedule entry becomes a calendar text with one event. Writing, the calendar text
//! of a booking becomes the payload of a schedule entry.
//!
//! Basecamp entries have no UID field. Two shapes of UID bridge that gap:
//!
//! - Entries that come from Basecamp get the synthetic UID `bc-{entry_id}@basecamp`, from which
//!   the entry id can be read back.
//! - Entries made for a booking keep the booking's own UID, recorded in the entry's description
//!   as `[calrs-uid:…]`.

use vstd::prelude::*;
use super::client::{PayloadView, ScheduleEntry, ScheduleEntryPayload};
use crate::decimal;
use crate::decimal::{append_i64, only_digits, parse_i64};
use crate::error;
use crate::error::{Error, Failure};
use crate::text;
use crate::text::{
    as_text, chars_of, contains, find, find_char, same, string_of, strip_prefix, strip_suffix,
    trim,
};
use crate::time;
use crate::time::{
    day_after, day_before, format_date, format_utc, parse_date_by, parse_rfc3339, to_zulu,
    utc_now, CivilDate, UtcDateTime, COMPACT_DATE, COMPACT_UTC, ISO_DATE,
};
use crate::utils;
use crate::utils::{extract_vevent_field, parse_ical_datetime, split_vevents};

verus! {

/// Prefix of the synthetic UID given to entries that came from Basecamp.
pub const SYNTHETIC_UID_PREFIX: &'static str = "bc-";

/// Suffix of the synthetic UID, making it a valid RFC 5545 UID.
pub const SYNTHETIC_UID_SUFFIX: &'static str = "@basecamp";

/// What the description marker starts with.
pub const UID_MARKER_PREFIX: &'static str = "[calrs-uid:";

// ---------------------------------------------------------------------------
// UIDs
// ---------------------------------------------------------------------------

/// The description marker of a UID.
pub open spec fn marker_text(uid: Seq<char>) -> Seq<char> {
    UID_MARKER_PREFIX@ + uid + "]"@
}

/// The UID that a description carries: what stands, trimmed, between the first marker prefix and
/// the next closing bracket, where that is not empty.
pub open spec fn carried_uid(description: Option<Seq<char>>) -> Option<Seq<char>> {
    match description {
        None => None,
        Some(desc) => match text::find_text(desc, UID_MARKER_PREFIX@) {
            None => None,
            Some(i) => {
                let start = i + UID_MARKER_PREFIX@.len();
                match text::find_char_from(desc, ']', start) {
                    None => None,
                    Some(end) => {
                        let uid = text::trimmed(desc.subrange(start, end));
                        if uid.len() == 0 {
                            None
                        } else {
                            Some(uid)
                        }
                    },
                }
            },
        },
    }
}

/// The synthetic UID of an entry.
pub open spec fn synthetic_uid_text(entry_id: int) -> Seq<char> {
    SYNTHETIC_UID_PREFIX@ + decimal::int_text(entry_id) + SYNTHETIC_UID_SUFFIX@
}

/// Is this UID the synthetic one of some entry?
pub open spec fn is_synthetic(uid: Seq<char>) -> bool {
    exists|n: i64| uid == #[trigger] synthetic_uid_text(n as int)
}

/// The entry id of a synthetic UID; `None` for any other UID.
pub open spec fn synthetic_entry_id(uid: Seq<char>) -> Option<i64> {
    if is_synthetic(uid) {
        Some(choose|n: i64| uid == #[trigger] synthetic_uid_text(n as int))
    } else {
        None
    }
}

/// The number between the prefix and the suffix of a synthetic UID.
spec fn number_inside(uid: Seq<char>) -> Option<i64> {
    match text::after_prefix(uid, SYNTHETIC_UID_PREFIX@) {
        None => None,
        Some(rest) => match text::before_suffix(rest, SYNTHETIC_UID_SUFFIX@) {
            None => None,
            Some(id) => decimal::i64_of(id),
        },
    }
}

/// The number inside the synthetic UID of an entry is the entry's id.
proof fn lemma_number_inside(entry_id: i64)
    ensures
        number_inside(synthetic_uid_text(entry_id as int)) == Some(entry_id),
{
    let prefix = SYNTHETIC_UID_PREFIX@;
    let suffix = SYNTHETIC_UID_SUFFIX@;
    let number = decimal::int_text(entry_id as int);
    let uid = synthetic_uid_text(entry_id as int);
    assert(uid.subrange(0, prefix.len() as int) =~= prefix);
    let rest = uid.skip(prefix.len() as int);
    assert(rest =~= number + suffix);
    assert(rest.subrange(rest.len() - suffix.len(), rest.len() as int) =~= suffix);
    assert(rest.take(rest.len() - suffix.len()) =~= number);
    decimal::law_i64_text_reads_back(entry_id);
}

/// The synthetic UID of an entry tells the entry's id.
pub proof fn law_synthetic_uid_reads_back(entry_id: i64)
    ensures
        synthetic_entry_id(synthetic_uid_text(entry_id as int)) == Some(entry_id),
{
    let uid = synthetic_uid_text(entry_id as int);
    let told = choose|n: i64| uid == #[trigger] synthetic_uid_text(n as int);
    assert(is_synthetic(uid));
    lemma_number_inside(entry_id);
    lemma_number_inside(told);
}

/// Render the description marker that carries a UID into Basecamp.
pub fn uid_marker(uid: &str) -> (r: String)
    ensures
        r@ == marker_text(uid@),
{
    let mut out = String::new();
    out.append(UID_MARKER_PREFIX);
    out.append(uid);
    out.append("]");
    assert(out@ =~= marker_text(uid@));
    out
}

/// Does this entry description carry the marker for `uid`?
pub fn uid_marker_matches(description: Option<&str>, uid: &str) -> (r: bool)
    ensures
        r == match description {
            Some(desc) => text::contains_text(desc@, marker_text(uid@)),
            None => false,
        },
{
    match description {
        Some(desc) => {
            let marker = uid_marker(uid);
            contains(desc, marker.as_str())
        },
        None => false,
    }
}

/// Extract the UID that a description carries, if any.
pub fn uid_from_description(description: Option<&str>) -> (r: Option<String>)
    ensures
        text::opt_string_view(r) == carried_uid(text::opt_view(description)),
{
    let desc = match description {
        Some(desc) => desc,
        None => {
            return None;
        },
    };
    let cs = chars_of(desc);
    let ps = chars_of(UID_MARKER_PREFIX);
    proof {
        crate::text::lemma_find_from(cs@, ps@, 0);
    }
    let start: usize = match find(&cs, &ps) {
        Some(i) => i + ps.len(),
        None => {
            return None;
        },
    };
    match find_char(&cs, ']', start) {
        None => None,
        Some(end) => {
            let raw = string_of(&cs, start, end);
            let uid = trim(raw.as_str());
            if uid.as_str().is_empty() {
                None
            } else {
                Some(uid)
            }
        },
    }
}

/// Build the synthetic UID for an entry that came from Basecamp.
pub fn synthetic_uid(entry_id: i64) -> (r: String)
    ensures
        r@ == synthetic_uid_text(entry_id as int),
{
    let mut out = String::new();
    out.append(SYNTHETIC_UID_PREFIX);
    append_i64(&mut out, entry_id);
    out.append(SYNTHETIC_UID_SUFFIX);
    assert(out@ =~= synthetic_uid_text(entry_id as int));
    out
}

/// Recover the entry id from a synthetic UID, or `None` for any other UID.
pub fn entry_id_from_synthetic_uid(uid: &str) -> (r: Option<i64>)
    ensures
        r == synthetic_entry_id(uid@),
        match r {
            Some(n) => uid@ == synthetic_uid_text(n as int),
            None => forall|n: i64| uid@ != #[trigger] synthetic_uid_text(n as int),
        },
{
    let inside: Option<i64> = match strip_prefix(uid, SYNTHETIC_UID_PREFIX) {
        None => None,
        Some(rest) => match strip_suffix(rest.as_str(), SYNTHETIC_UID_SUFFIX) {
            None => None,
            Some(id) => parse_i64(id.as_str()),
        },
    };
    proof {
        assert forall|n: i64| uid@ == #[trigger] synthetic_uid_text(n as int) implies inside == Some(
            n,
        ) by {
            lemma_number_inside(n);
        }
    }
    match inside {
        None => None,
        Some(n) => {
            // A numeral can be written in other ways than a synthetic UID writes it.
            let written = synthetic_uid(n);
            if same(uid, written.as_str()) {
                Some(n)
            } else {
                None
            }
        },
    }
}

// ---------------------------------------------------------------------------
// Texts
// ---------------------------------------------------------------------------

/// One character of an iCalendar TEXT value, escaped.
pub open spec fn escaped_char(c: char) -> Seq<char> {
    if c == '\\' {
        seq!['\\', '\\']
    } else if c == ',' {
        seq!['\\', ',']
    } else if c == ';' {
        seq!['\\', ';']
    } else if c == '\n' {
        seq!['\\', 'n']
    } else if c == '\r' {
        Seq::empty()
    } else {
        seq![c]
    }
}

/// A text escaped for an iCalendar TEXT value. Carriage returns are dropped.
pub open spec fn escaped(s: Seq<char>) -> Seq<char>
    decreases s.len(),
{
    if s.len() == 0 {
        Seq::empty()
    } else {
        escaped_char(s[0]) + escaped(s.skip(1))
    }
}

/// What an iCalendar TEXT value says: a backslash and `n` or `N` is a line feed, a backslash and
/// another character is that character, a closing backslash is itself.
pub open spec fn unescaped(s: Seq<char>) -> Seq<char>
    decreases s.len(),
{
    if s.len() == 0 {
        Seq::empty()
    } else if s[0] != '\\' {
        seq![s[0]] + unescaped(s.skip(1))
    } else if s.len() == 1 {
        seq!['\\']
    } else if s[1] == 'n' || s[1] == 'N' {
        seq!['\n'] + unescaped(s.skip(2))
    } else {
        seq![s[1]] + unescaped(s.skip(2))
    }
}

/// One character of Basecamp rich text, HTML-escaped.
pub open spec fn html_char(c: char) -> Seq<char> {
    if c == '&' {
        "&amp;"@
    } else if c == '<' {
        "&lt;"@
    } else if c == '>' {
        "&gt;"@
    } else if c == '"' {
        "&quot;"@
    } else if c == '\n' {
        "<br>"@
    } else if c == '\r' {
        Seq::empty()
    } else {
        seq![c]
    }
}

/// A text HTML-escaped for Basecamp rich text. Carriage returns are dropped.
pub open spec fn html_escaped(s: Seq<char>) -> Seq<char>
    decreases s.len(),
{
    if s.len() == 0 {
        Seq::empty()
    } else {
        html_char(s[0]) + html_escaped(s.skip(1))
    }
}

/// A text as a paragraph of Basecamp rich text.
pub open spec fn paragraph_text(s: Seq<char>) -> Seq<char> {
    "<div>"@ + html_escaped(s) + "</div>"@
}

/// Wrap text in a Basecamp rich-text paragraph, HTML-escaped.
pub fn html_paragraph(text: &str) -> (r: String)
    ensures
        r@ == paragraph_text(text@),
{
    let cs = chars_of(text);
    let mut out = String::new();
    out.append("<div>");
    let mut i: usize = 0;
    assert(cs@.skip(0) =~= cs@);
    assert(out@ + html_escaped(cs@.skip(0)) =~= "<div>"@ + html_escaped(cs@));
    while i < cs.len()
        invariant
            i <= cs@.len(),
            out@ + html_escaped(cs@.skip(i as int)) == "<div>"@ + html_escaped(cs@),
        decreases cs@.len() - i,
    {
        let c: char = cs[i];
        let ghost before = out@;
        assert(cs@.skip(i as int).skip(1) =~= cs@.skip(i + 1));
        if c == '&' {
            out.append("&amp;");
        } else if c == '<' {
            out.append("&lt;");
        } else if c == '>' {
            out.append("&gt;");
        } else if c == '"' {
            out.append("&quot;");
        } else if c == '\n' {
            out.append("<br>");
        } else if c != '\r' {
            out.push(c);
        }
        assert(out@ =~= before + html_char(c));
        assert(out@ + html_escaped(cs@.skip(i + 1)) =~= before + html_escaped(cs@.skip(i as int)));
        i = i + 1;
    }
    assert(out@ =~= out@ + html_escaped(cs@.skip(cs@.len() as int)));
    out.append("</div>");
    out
}

/// Escape a string for an iCalendar TEXT property (RFC 5545).
pub fn escape_ical_text(value: &str) -> (r: String)
    ensures
        r@ == escaped(value@),
{
    let cs = chars_of(value);
    let mut out = String::new();
    let mut i: usize = 0;
    assert(cs@.skip(0) =~= cs@);
    assert(out@ + escaped(cs@.skip(0)) =~= escaped(cs@));
    while i < cs.len()
        invariant
            i <= cs@.len(),
            out@ + escaped(cs@.skip(i as int)) == escaped(cs@),
        decreases cs@.len() - i,
    {
        let c: char = cs[i];
        let ghost before = out@;
        assert(cs@.skip(i as int).skip(1) =~= cs@.skip(i + 1));
        if c == '\n' {
            out.push('\\');
            out.push('n');
        } else if c == '\\' || c == ',' || c == ';' {
            out.push('\\');
            out.push(c);
        } else if c != '\r' {
            out.push(c);
        }
        assert(out@ =~= before + escaped_char(c));
        assert(out@ + escaped(cs@.skip(i + 1)) =~= before + escaped(cs@.skip(i as int)));
        i = i + 1;
    }
    assert(out@ =~= out@ + escaped(cs@.skip(cs@.len() as int)));
    out
}

/// Reverse [`escape_ical_text`] so text written into Basecamp reads naturally.
pub fn unescape_ical_text(value: &str) -> (r: String)
    ensures
        r@ == unescaped(value@),
{
    let cs = chars_of(value);
    let n: usize = cs.len();
    let mut out = String::new();
    let mut i: usize = 0;
    assert(cs@.skip(0) =~= cs@);
    assert(out@ + unescaped(cs@.skip(0)) =~= unescaped(cs@));
    while i < n
        invariant
            n == cs@.len(),
            i <= n,
            out@ + unescaped(cs@.skip(i as int)) == unescaped(cs@),
        decreases n - i,
    {
        let c: char = cs[i];
        let ghost before = out@;
        let ghost rest = cs@.skip(i as int);
        assert(rest.skip(1) =~= cs@.skip(i + 1));
        if c != '\\' {
            out.push(c);
            assert(out@ + unescaped(cs@.skip(i + 1)) =~= before + unescaped(rest));
            i = i + 1;
        } else if i + 1 == n {
            out.push('\\');
            assert(unescaped(cs@.skip(n as int)) =~= Seq::<char>::empty());
            assert(out@ + unescaped(cs@.skip(n as int)) =~= before + unescaped(rest));
            i = n;
        } else {
            let d: char = cs[i + 1];
            assert(rest[1] == d);
            assert(rest.skip(2) =~= cs@.skip(i + 2));
            if d == 'n' || d == 'N' {
                out.push('\n');
            } else {
                out.push(d);
            }
            assert(out@ + unescaped(cs@.skip(i + 2)) =~= before + unescaped(rest));
            i = i + 2;
        }
    }
    assert(out@ =~= out@ + unescaped(cs@.skip(n as int)));
    out
}

// ---------------------------------------------------------------------------
// Dates
// ---------------------------------------------------------------------------

/// Is this iCalendar property value a DATE (all-day) rather than a DATE-TIME?
pub open spec fn date_only(value: Seq<char>) -> bool {
    let v = text::trimmed(value);
    v.len() == 8 && decimal::all_digits(v)
}

/// The date of an all-day boundary: a bare date, or the UTC date of a timestamp.
pub open spec fn boundary_date(value: Seq<char>) -> Option<CivilDate> {
    let v = text::trimmed(value);
    chosen_date(time::parsed_date(v, ISO_DATE@), time::rfc3339_utc(v))
}

/// A bare date, or else the date of a timestamp.
pub open spec fn chosen_date(bare: Option<CivilDate>, stamp: Option<UtcDateTime>) -> Option<
    CivilDate,
> {
    match bare {
        Some(d) => Some(d),
        None => match stamp {
            Some(t) => Some(t.date),
            None => None,
        },
    }
}

/// Is this iCalendar property value a DATE (all-day) rather than a DATE-TIME?
pub fn is_date_only(value: &str) -> (r: bool)
    ensures
        r == date_only(value@),
{
    let v = trim(value);
    let cs = chars_of(v.as_str());
    cs.len() == 8 && only_digits(v.as_str())
}

/// A bare date, or else the date of a timestamp.
pub fn choose_date(bare: Option<CivilDate>, stamp: Option<UtcDateTime>) -> (r: Option<CivilDate>)
    ensures
        r == chosen_date(bare, stamp),
{
    match bare {
        Some(d) => Some(d),
        None => match stamp {
            Some(t) => Some(t.date),
            None => None,
        },
    }
}

/// Parse a Basecamp all-day boundary, which is normally a bare date but comes back as a
/// timestamp on some entries.
pub fn parse_date(value: &str) -> (r: Option<CivilDate>)
    ensures
        r == boundary_date(value@),
        r matches Some(d) ==> d.valid(),
        forall|d: CivilDate| #[trigger] time::is_told_day(value@, d) ==> r == Some(d),
        text::trimmed(value@).len() == 0 ==> r is None,
{
    proof {
        assert forall|d: CivilDate| #[trigger] time::is_told_date(value@, d) implies text::trimmed(
            value@,
        ) == value@ by {
            time::lemma_told_date(value@, d);
        }
        assert forall|t: UtcDateTime| #[trigger] time::is_told_stamp(value@, t) implies
            text::trimmed(value@) == value@ && value@.len() > 10 && time::is_told_date(
            value@.take(10),
            t.date,
        ) by {
            time::lemma_told_stamp(value@, t);
        }
    }
    let v = trim(value);
    let bare = parse_date_by(v.as_str(), ISO_DATE);
    let stamp = parse_rfc3339(v.as_str());
    choose_date(bare, stamp)
}

/// `2022-11-01T10:00:00.000Z` becomes `20221101T100000Z`.
pub fn compact_datetime(value: &str) -> (r: Option<String>)
    ensures
        text::opt_string_view(r) == match time::rfc3339_utc(value@) {
            Some(t) => Some(time::compact_utc_text(t)),
            None => None,
        },
        forall|t: UtcDateTime| #[trigger]
            time::is_told_stamp(value@, t) ==> time::rfc3339_utc(value@) == Some(t),
        value@.len() < 19 ==> r is None,
{
    match parse_rfc3339(value) {
        Some(t) => Some(format_utc(t, COMPACT_UTC)),
        None => None,
    }
}

/// `2026-06-08` becomes `20260608`.
pub fn compact_date(value: &str) -> (r: Option<String>)
    ensures
        text::opt_string_view(r) == match boundary_date(value@) {
            Some(d) => Some(time::compact_date_text(d)),
            None => None,
        },
        forall|d: CivilDate| #[trigger]
            time::is_told_day(value@, d) ==> boundary_date(value@) == Some(d),
{
    match parse_date(value) {
        Some(d) => Some(format_date(d, COMPACT_DATE)),
        None => None,
    }
}

/// `2026-06-08` becomes `20260609`. There is no day after the last one that can be represented.
pub fn compact_date_plus_one(value: &str) -> (r: Option<String>)
    requires
        boundary_date(value@) matches Some(d) ==> !d.is_last(),
    ensures
        text::opt_string_view(r) == match boundary_date(value@) {
            Some(d) => Some(time::compact_date_text(time::next_day(d))),
            None => None,
        },
        forall|d: CivilDate| #[trigger]
            time::is_told_day(value@, d) ==> boundary_date(value@) == Some(d),
{
    match parse_date(value) {
        Some(d) => {
            proof {
                crate::time::law_next_day_undone(d);
            }
            Some(format_date(day_after(d), COMPACT_DATE))
        },
        None => None,
    }
}

/// What the iCalendar date-time says, in RFC 3339.
pub open spec fn iso_datetime_of(value: Seq<char>) -> Result<Seq<char>, Failure<Seq<char>>> {
    match utils::ical_datetime(value) {
        Some(t) => Ok(time::zulu_text(t)),
        None => Err(Failure::BadDatetime(value)),
    }
}

/// The ISO 8601 date of the iCalendar value.
pub open spec fn iso_date_of(value: Seq<char>) -> Result<Seq<char>, Failure<Seq<char>>> {
    match utils::ical_datetime(value) {
        Some(t) => Ok(time::iso_date_text(t.date)),
        None => Err(Failure::BadDate(value)),
    }
}

/// The ISO 8601 date before that of the iCalendar value.
pub open spec fn iso_date_before(value: Seq<char>) -> Result<Seq<char>, Failure<Seq<char>>> {
    match utils::ical_datetime(value) {
        Some(t) => Ok(time::iso_date_text(time::previous_day(t.date))),
        None => Err(Failure::BadDate(value)),
    }
}

/// `20260310T130000Z` becomes `2026-03-10T13:00:00Z`. A floating value (no `Z`) is read as UTC
/// and labelled as such.
pub fn iso_datetime(value: &str) -> (r: Result<String, Error>)
    ensures
        error::text_result_view(r) == iso_datetime_of(value@),
{
    match parse_ical_datetime(value) {
        Some(t) => Ok(to_zulu(t)),
        None => Err(Failure::BadDatetime(value.to_owned())),
    }
}

/// `20260608` becomes `2026-06-08`.
pub fn iso_date(value: &str) -> (r: Result<String, Error>)
    ensures
        error::text_result_view(r) == iso_date_of(value@),
{
    match parse_ical_datetime(value) {
        Some(t) => Ok(format_date(t.date, ISO_DATE)),
        None => Err(Failure::BadDate(value.to_owned())),
    }
}

/// `20260609` becomes `2026-06-08`.
pub fn iso_date_minus_one(value: &str) -> (r: Result<String, Error>)
    ensures
        error::text_result_view(r) == iso_date_before(value@),
{
    match parse_ical_datetime(value) {
        Some(t) => Ok(format_date(day_before(t.date), ISO_DATE)),
        None => Err(Failure::BadDate(value.to_owned())),
    }
}

// ---------------------------------------------------------------------------
// Reading: schedule entry to calendar text
// ---------------------------------------------------------------------------

/// A text that is not empty once trimmed.
pub open spec fn usable(raw: Option<Seq<char>>) -> Option<Seq<char>> {
    match raw {
        Some(s) => if text::trimmed(s).len() == 0 {
            None
        } else {
            Some(text::trimmed(s))
        },
        None => None,
    }
}

/// What follows `DTSTART` and `DTEND` in the event of an entry; `None` for an entry that cannot
/// be placed on a timeline.
///
/// Basecamp's all-day end is the inclusive last day. The end of an iCalendar event is exclusive,
/// so it is the day after.
pub open spec fn event_times(entry: ScheduleEntry) -> Option<(Seq<char>, Seq<char>)> {
    match (
        usable(text::opt_string_view(entry.starts_at)),
        usable(text::opt_string_view(entry.ends_at)),
    ) {
        (Some(starts), Some(ends)) => if entry.all_day {
            match (boundary_date(starts), boundary_date(ends)) {
                (Some(first), Some(last)) => Some(
                    (
                        ";VALUE=DATE:"@ + time::compact_date_text(first),
                        ";VALUE=DATE:"@ + time::compact_date_text(time::next_day(last)),
                    ),
                ),
                _ => None,
            }
        } else {
            match (time::rfc3339_utc(starts), time::rfc3339_utc(ends)) {
                (Some(from), Some(to)) => Some(
                    (":"@ + time::compact_utc_text(from), ":"@ + time::compact_utc_text(to)),
                ),
                _ => None,
            }
        },
        _ => None,
    }
}

/// Does an all-day entry end on the last day that can be represented, so that there is no day
/// after it?
pub open spec fn ends_past_calendar(entry: ScheduleEntry) -> bool {
    entry.all_day && match (
        usable(text::opt_string_view(entry.starts_at)),
        usable(text::opt_string_view(entry.ends_at)),
    ) {
        (Some(starts), Some(ends)) => boundary_date(starts) is Some && match boundary_date(ends) {
            Some(last) => last.is_last(),
            None => false,
        },
        _ => false,
    }
}

/// The event status of an entry: a trashed or archived one no longer occupies the calendar.
pub open spec fn event_status(entry: ScheduleEntry) -> Seq<char> {
    match text::opt_string_view(entry.status) {
        Some(s) => if s == "trashed"@ || s == "archived"@ {
            "CANCELLED"@
        } else {
            "CONFIRMED"@
        },
        None => "CONFIRMED"@,
    }
}

/// The UID of an entry's event: the one its description carries, or else the synthetic one.
pub open spec fn event_uid(entry: ScheduleEntry) -> Seq<char> {
    match carried_uid(text::opt_string_view(entry.description)) {
        Some(uid) => uid,
        None => synthetic_uid_text(entry.id as int),
    }
}

/// A content line of an escaped text, left out where the text is empty.
pub open spec fn optional_line(name: Seq<char>, value: Seq<char>) -> Seq<char> {
    if value.len() == 0 {
        Seq::empty()
    } else {
        name + value + "\r\n"@
    }
}

/// The escaped summary of an entry, empty where it has none.
pub open spec fn event_summary(entry: ScheduleEntry) -> Seq<char> {
    match text::opt_string_view(entry.summary) {
        Some(s) => escaped(s),
        None => Seq::empty(),
    }
}

/// The URL line of an entry's event, left out where the entry has no URL.
pub open spec fn url_line(entry: ScheduleEntry) -> Seq<char> {
    match text::opt_string_view(entry.app_url) {
        Some(url) => if url.len() == 0 {
            Seq::empty()
        } else {
            "URL:"@ + escaped(url) + "\r\n"@
        },
        None => Seq::empty(),
    }
}

/// The calendar text of an entry, given what follows `DTSTART` and `DTEND` and the time stamp.
pub open spec fn vcalendar_text(
    entry: ScheduleEntry,
    dtstart: Seq<char>,
    dtend: Seq<char>,
    dtstamp: Seq<char>,
) -> Seq<char> {
    "BEGIN:VCALENDAR\r\n"@ + "VERSION:2.0\r\n"@ + "PRODID:-//calrs//basecamp-bridge//EN\r\n"@
        + "BEGIN:VEVENT\r\n"@ + "UID:"@ + event_uid(entry) + "\r\n"@ + "DTSTAMP:"@ + dtstamp
        + "\r\n"@ + "DTSTART"@ + dtstart + "\r\n"@ + "DTEND"@ + dtend + "\r\n"@ + optional_line(
        "SUMMARY:"@,
        event_summary(entry),
    ) + url_line(entry) + "TRANSP:OPAQUE\r\n"@ + "STATUS:"@ + event_status(entry) + "\r\n"@
        + "END:VEVENT\r\n"@ + "END:VCALENDAR\r\n"@
}

/// Is `ics` the calendar text of the entry, stamped at some time since 1970 that is no leap
/// second? An entry that cannot be placed on a timeline has none.
pub open spec fn is_vcalendar_of(entry: ScheduleEntry, ics: Option<Seq<char>>) -> bool {
    match event_times(entry) {
        None => ics is None,
        Some((dtstart, dtend)) => exists|now: UtcDateTime|
            now.valid() && now.nanos < 1_000_000_000 && now.date.year >= 1970 && ics == Some(
                vcalendar_text(entry, dtstart, dtend, #[trigger] time::compact_utc_text(now)),
            ),
    }
}

/// Are start and end of a timed entry the texts of these timestamps?
pub open spec fn tells_stamps(entry: ScheduleEntry, from: UtcDateTime, to: UtcDateTime) -> bool {
    &&& !entry.all_day
    &&& entry.starts_at matches Some(s) && time::is_told_stamp(s@, from)
    &&& entry.ends_at matches Some(s) && time::is_told_stamp(s@, to)
}

/// Do start and end of an all-day entry tell these days?
pub open spec fn tells_days(entry: ScheduleEntry, first: CivilDate, last: CivilDate) -> bool {
    &&& entry.all_day
    &&& entry.starts_at matches Some(s) && time::is_told_day(s@, first)
    &&& entry.ends_at matches Some(s) && time::is_told_day(s@, last)
}

/// The text, trimmed, where that is not empty.
fn usable_text(raw: &Option<String>) -> (r: Option<String>)
    ensures
        text::opt_string_view(r) == usable(text::opt_string_view(*raw)),
{
    match raw {
        Some(s) => {
            let t = trim(s.as_str());
            if t.as_str().is_empty() {
                None
            } else {
                Some(t)
            }
        },
        None => None,
    }
}

fn status_of(entry: &ScheduleEntry) -> (r: &'static str)
    ensures
        r@ == event_status(*entry),
{
    match as_text(&entry.status) {
        Some(s) => if same(s, "trashed") || same(s, "archived") {
            "CANCELLED"
        } else {
            "CONFIRMED"
        },
        None => "CONFIRMED",
    }
}

/// The calendar text of an entry, given what follows `DTSTART` and `DTEND` and the time stamp.
pub fn render_vcalendar(entry: &ScheduleEntry, dtstart: &str, dtend: &str, dtstamp: &str) -> (r:
    String)
    ensures
        r@ == vcalendar_text(*entry, dtstart@, dtend@, dtstamp@),
{
    let uid = match uid_from_description(as_text(&entry.description)) {
        Some(uid) => uid,
        None => synthetic_uid(entry.id),
    };
    let summary = match as_text(&entry.summary) {
        Some(s) => escape_ical_text(s),
        None => String::new(),
    };
    let mut buf = String::new();
    buf.append("BEGIN:VCALENDAR\r\n");
    buf.append("VERSION:2.0\r\n");
    buf.append("PRODID:-//calrs//basecamp-bridge//EN\r\n");
    buf.append("BEGIN:VEVENT\r\n");
    buf.append("UID:");
    buf.append(uid.as_str());
    buf.append("\r\n");
    buf.append("DTSTAMP:");
    buf.append(dtstamp);
    buf.append("\r\n");
    buf.append("DTSTART");
    buf.append(dtstart);
    buf.append("\r\n");
    buf.append("DTEND");
    buf.append(dtend);
    buf.append("\r\n");
    let ghost times_done = buf@;
    if !summary.as_str().is_empty() {
        buf.append("SUMMARY:");
        buf.append(summary.as_str());
        buf.append("\r\n");
    }
    assert(buf@ =~= times_done + optional_line("SUMMARY:"@, event_summary(*entry)));
    let ghost summary_done = buf@;
    match as_text(&entry.app_url) {
        Some(url) => if !url.is_empty() {
            let escaped_url = escape_ical_text(url);
            buf.append("URL:");
            buf.append(escaped_url.as_str());
            buf.append("\r\n");
        },
        None => {},
    }
    assert(buf@ =~= summary_done + url_line(*entry));
    buf.append("TRANSP:OPAQUE\r\n");
    buf.append("STATUS:");
    buf.append(status_of(entry));
    buf.append("\r\n");
    buf.append("END:VEVENT\r\n");
    buf.append("END:VCALENDAR\r\n");
    assert(buf@ =~= vcalendar_text(*entry, dtstart@, dtend@, dtstamp@));
    buf
}

/// The text `prefix` and `value` in one.
fn prefixed(prefix: &str, value: &str) -> (r: String)
    ensures
        r@ == prefix@ + value@,
{
    let mut out = String::new();
    out.append(prefix);
    out.append(value);
    assert(out@ =~= prefix@ + value@);
    out
}

/// What follows `DTSTART` and `DTEND` in the event of an entry.
fn times_of(entry: &ScheduleEntry) -> (r: Option<(String, String)>)
    requires
        !ends_past_calendar(*entry),
    ensures
        match r {
            Some((dtstart, dtend)) => event_times(*entry) == Some((dtstart@, dtend@)),
            None => event_times(*entry) is None,
        },
        forall|from: UtcDateTime, to: UtcDateTime| #[trigger]
            tells_stamps(*entry, from, to) ==> event_times(*entry) == Some(
                (":"@ + time::compact_utc_text(from), ":"@ + time::compact_utc_text(to)),
            ),
        forall|first: CivilDate, last: CivilDate| #[trigger]
            tells_days(*entry, first, last) ==> event_times(*entry) == Some(
                (
                    ";VALUE=DATE:"@ + time::compact_date_text(first),
                    ";VALUE=DATE:"@ + time::compact_date_text(time::next_day(last)),
                ),
            ),
{
    proof {
        assert forall|s: Seq<char>, t: UtcDateTime| #[trigger] time::is_told_stamp(s, t) implies
            usable(Some(s)) == Some(s) by {
            time::lemma_told_stamp(s, t);
        }
        assert forall|s: Seq<char>, d: CivilDate| #[trigger] time::is_told_date(s, d) implies usable(
            Some(s),
        ) == Some(s) by {
            time::lemma_told_date(s, d);
        }
    }
    match (usable_text(&entry.starts_at), usable_text(&entry.ends_at)) {
        (Some(starts), Some(ends)) => if entry.all_day {
            match compact_date(starts.as_str()) {
                None => None,
                Some(first) => match compact_date_plus_one(ends.as_str()) {
                    None => None,
                    Some(after) => Some(
                        (
                            prefixed(";VALUE=DATE:", first.as_str()),
                            prefixed(";VALUE=DATE:", after.as_str()),
                        ),
                    ),
                },
            }
        } else {
            match compact_datetime(starts.as_str()) {
                None => None,
                Some(from) => match compact_datetime(ends.as_str()) {
                    None => None,
                    Some(to) => Some((prefixed(":", from.as_str()), prefixed(":", to.as_str()))),
                },
            }
        },
        _ => None,
    }
}

/// Synthesise the calendar text of a Basecamp schedule entry.
///
/// `None` for an entry with no usable start or end: an entry that cannot be placed on a timeline
/// must not become a busy interval. An entry whose times are told as a payload tells them gets
/// exactly these times.
pub fn synth_vcalendar(entry: &ScheduleEntry) -> (r: Option<String>)
    requires
        !ends_past_calendar(*entry),
    ensures
        is_vcalendar_of(*entry, text::opt_string_view(r)),
        forall|from: UtcDateTime, to: UtcDateTime| #[trigger]
            tells_stamps(*entry, from, to) ==> event_times(*entry) == Some(
                (":"@ + time::compact_utc_text(from), ":"@ + time::compact_utc_text(to)),
            ),
        forall|first: CivilDate, last: CivilDate| #[trigger]
            tells_days(*entry, first, last) ==> event_times(*entry) == Some(
                (
                    ";VALUE=DATE:"@ + time::compact_date_text(first),
                    ";VALUE=DATE:"@ + time::compact_date_text(time::next_day(last)),
                ),
            ),
{
    match times_of(entry) {
        None => None,
        Some((dtstart, dtend)) => {
            let now = utc_now();
            let dtstamp = format_utc(now, COMPACT_UTC);
            let ics = render_vcalendar(entry, dtstart.as_str(), dtend.as_str(), dtstamp.as_str());
            assert(dtstamp@ == time::compact_utc_text(now));
            Some(ics)
        },
    }
}

/// Does an all-day entry end on the last day that can be represented?
pub fn is_past_calendar(entry: &ScheduleEntry) -> (r: bool)
    ensures
        r == ends_past_calendar(*entry),
{
    if !entry.all_day {
        return false;
    }
    match (usable_text(&entry.starts_at), usable_text(&entry.ends_at)) {
        (Some(starts), Some(ends)) => match (
            parse_date(starts.as_str()),
            parse_date(ends.as_str()),
        ) {
            (Some(_), Some(last)) => last.year == 262142 && last.month == 12 && last.day == 31,
            _ => false,
        },
        _ => false,
    }
}

/// Synthesise the calendar text of a schedule entry, or `None` where the entry ends on the last
/// day that can be represented.
pub fn try_synth_vcalendar(entry: &ScheduleEntry) -> (r: Option<Option<String>>)
    ensures
        match r {
            None => ends_past_calendar(*entry),
            Some(ics) => !ends_past_calendar(*entry) && is_vcalendar_of(
                *entry,
                text::opt_string_view(ics),
            ),
        },
{
    if is_past_calendar(entry) {
        None
    } else {
        Some(synth_vcalendar(entry))
    }
}

// ---------------------------------------------------------------------------
// Writing: calendar text to schedule entry
// ---------------------------------------------------------------------------

/// The unescaped value of a property of an event, where that is not blank.
pub open spec fn told_field(event: Seq<Seq<char>>, name: Seq<char>) -> Option<Seq<char>> {
    match utils::field(event, name) {
        Some(raw) => if text::trimmed(unescaped(raw)).len() == 0 {
            None
        } else {
            Some(unescaped(raw))
        },
        None => None,
    }
}

/// The summary of a booking's event, `Booking` where it tells none.
pub open spec fn booking_summary(event: Seq<Seq<char>>) -> Seq<char> {
    match told_field(event, "SUMMARY"@) {
        Some(s) => s,
        None => "Booking"@,
    }
}

/// The paragraph of the booking notes, where there are any.
pub open spec fn notes_part(event: Seq<Seq<char>>) -> Seq<char> {
    match told_field(event, "DESCRIPTION"@) {
        Some(notes) => paragraph_text(notes),
        None => Seq::empty(),
    }
}

/// The paragraph of the location, where there is one.
pub open spec fn location_part(event: Seq<Seq<char>>) -> Seq<char> {
    match told_field(event, "LOCATION"@) {
        Some(location) => paragraph_text("Location: "@ + location),
        None => Seq::empty(),
    }
}

/// The description of a booking's entry: the notes, the location, and the UID marker that makes
/// the entry findable again.
pub open spec fn booking_description(uid: Seq<char>, event: Seq<Seq<char>>) -> Seq<char> {
    notes_part(event) + location_part(event) + paragraph_text(marker_text(uid))
}

/// The start and end of a booking's entry. An all-day event's exclusive end becomes Basecamp's
/// inclusive last day.
pub open spec fn booking_times(raw_start: Seq<char>, raw_end: Seq<char>) -> Result<
    (Seq<char>, Seq<char>),
    Failure<Seq<char>>,
> {
    let (start, end) = if date_only(raw_start) {
        (iso_date_of(raw_start), iso_date_before(raw_end))
    } else {
        (iso_datetime_of(raw_start), iso_datetime_of(raw_end))
    };
    match start {
        Err(e) => Err(e),
        Ok(s) => match end {
            Err(e) => Err(e),
            Ok(t) => Ok((s, t)),
        },
    }
}

/// The payload for a booking's event.
pub open spec fn event_payload(uid: Seq<char>, event: Seq<Seq<char>>) -> Result<
    PayloadView,
    Failure<Seq<char>>,
> {
    match utils::field(event, "DTSTART"@) {
        None => Err(Failure::NoStart),
        Some(raw_start) => match utils::field(event, "DTEND"@) {
            None => Err(Failure::NoEnd),
            Some(raw_end) => match booking_times(raw_start, raw_end) {
                Err(e) => Err(e),
                Ok((starts_at, ends_at)) => Ok(
                    PayloadView {
                        summary: booking_summary(event),
                        starts_at,
                        ends_at,
                        description: Some(booking_description(uid, event)),
                        all_day: date_only(raw_start),
                        notify: false,
                    },
                ),
            },
        },
    }
}

/// The payload for a booking, from the first event of its calendar text.
pub open spec fn booking_payload(uid: Seq<char>, ics: Seq<char>) -> Result<
    PayloadView,
    Failure<Seq<char>>,
> {
    if utils::vevents(ics).len() == 0 {
        Err(Failure::NoVevent)
    } else {
        event_payload(uid, utils::vevents(ics)[0])
    }
}

/// The view of a fallible payload.
pub open spec fn payload_result_view(r: Result<ScheduleEntryPayload, Error>) -> Result<
    PayloadView,
    Failure<Seq<char>>,
> {
    match r {
        Ok(p) => Ok(p@),
        Err(e) => Err(e@),
    }
}

/// The unescaped value of a property of an event, where that is not blank.
fn told(event: &Vec<String>, name: &str) -> (r: Option<String>)
    ensures
        text::opt_string_view(r) == told_field(utils::texts(event@), name@),
{
    match extract_vevent_field(event, name) {
        Some(raw) => {
            let value = unescape_ical_text(raw.as_str());
            let shown = trim(value.as_str());
            if shown.as_str().is_empty() {
                None
            } else {
                Some(value)
            }
        },
        None => None,
    }
}

/// The start and end of a booking's entry.
fn times_from(raw_start: &str, raw_end: &str) -> (r: Result<(String, String), Error>)
    ensures
        match r {
            Ok((s, t)) => booking_times(raw_start@, raw_end@) == Ok::<
                (Seq<char>, Seq<char>),
                Failure<Seq<char>>,
            >((s@, t@)),
            Err(e) => booking_times(raw_start@, raw_end@) == Err::<
                (Seq<char>, Seq<char>),
                Failure<Seq<char>>,
            >(e@),
        },
{
    let all_day = is_date_only(raw_start);
    let start = if all_day {
        iso_date(raw_start)
    } else {
        iso_datetime(raw_start)
    };
    let s = match start {
        Ok(s) => s,
        Err(e) => {
            return Err(e);
        },
    };
    let end = if all_day {
        iso_date_minus_one(raw_end)
    } else {
        iso_datetime(raw_end)
    };
    match end {
        Ok(t) => Ok((s, t)),
        Err(e) => Err(e),
    }
}

/// The description of a booking's entry.
fn describe(uid: &str, event: &Vec<String>) -> (r: String)
    ensures
        r@ == booking_description(uid@, utils::texts(event@)),
{
    let mut out = String::new();
    match told(event, "DESCRIPTION") {
        Some(notes) => {
            let part = html_paragraph(notes.as_str());
            out.append(part.as_str());
        },
        None => {},
    }
    assert(out@ =~= notes_part(utils::texts(event@)));
    match told(event, "LOCATION") {
        Some(location) => {
            let line = prefixed("Location: ", location.as_str());
            let part = html_paragraph(line.as_str());
            out.append(part.as_str());
        },
        None => {},
    }
    assert(out@ =~= notes_part(utils::texts(event@)) + location_part(utils::texts(event@)));
    let marker = uid_marker(uid);
    let part = html_paragraph(marker.as_str());
    out.append(part.as_str());
    out
}

/// Build the Basecamp payload for a booking, from the calendar text of the booking.
///
/// The description carries, in order: the booking notes, the location, and the UID marker that
/// makes the entry findable again.
pub fn entry_payload_from_ics(uid: &str, ics: &str) -> (r: Result<ScheduleEntryPayload, Error>)
    ensures
        payload_result_view(r) == booking_payload(uid@, ics@),
{
    let events = split_vevents(ics);
    if events.len() == 0 {
        return Err(Failure::NoVevent);
    }
    let event = &events[0];
    assert(utils::text_lists(events@)[0] == utils::texts(event@));
    let raw_start = match extract_vevent_field(event, "DTSTART") {
        Some(v) => v,
        None => {
            return Err(Failure::NoStart);
        },
    };
    let raw_end = match extract_vevent_field(event, "DTEND") {
        Some(v) => v,
        None => {
            return Err(Failure::NoEnd);
        },
    };
    let all_day = is_date_only(raw_start.as_str());
    match times_from(raw_start.as_str(), raw_end.as_str()) {
        Err(e) => Err(e),
        Ok((starts_at, ends_at)) => {
            let summary = match told(event, "SUMMARY") {
                Some(s) => s,
                None => "Booking".to_owned(),
            };
            let description = describe(uid, event);
            Ok(
                ScheduleEntryPayload {
                    summary,
                    starts_at,
                    ends_at,
                    description: Some(description),
                    all_day,
                    notify: false,
                },
            )
        },
    }
}

} // verus!
