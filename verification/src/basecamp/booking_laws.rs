//! What holds of a booking that is written as an entry, property by property.

use vstd::prelude::*;
use super::client::PayloadView;
use super::ical;
use super::laws;
use crate::decimal;
use crate::error::Failure;
use crate::text;
use crate::time;
use crate::time::UtcDateTime;
use crate::utils;

verus! {

// ---------------------------------------------------------------------------
// Texts
// ---------------------------------------------------------------------------

/// HTML-escaping goes character by character: the five that mean something in HTML become their
/// entities or a line break, a carriage return goes, and every other character stays.
pub proof fn law_html_is_escaped_by_character(before: Seq<char>, c: char, after: Seq<char>)
    ensures
        ical::html_escaped(before + after) == ical::html_escaped(before) + ical::html_escaped(after),
        ical::html_escaped(seq!['&']) == "&amp;"@,
        ical::html_escaped(seq!['<']) == "&lt;"@,
        ical::html_escaped(seq!['>']) == "&gt;"@,
        ical::html_escaped(seq!['"']) == "&quot;"@,
        ical::html_escaped(seq!['\n']) == "<br>"@,
        ical::html_escaped(seq!['\r']) == Seq::<char>::empty(),
        c != '&' && c != '<' && c != '>' && c != '"' && c != '\n' && c != '\r' ==> ical::html_escaped(
            seq![c],
        ) == seq![c],
{
    lemma_html_adds(before, after);
    assert forall|d: char| #[trigger] ical::html_escaped(seq![d]) == ical::html_char(d) by {
        reveal_with_fuel(ical::html_escaped, 2);
        assert(seq![d].skip(1) =~= Seq::<char>::empty());
        assert(ical::html_char(d) + Seq::<char>::empty() =~= ical::html_char(d));
    }
}

proof fn lemma_html_adds(before: Seq<char>, after: Seq<char>)
    ensures
        ical::html_escaped(before + after) == ical::html_escaped(before) + ical::html_escaped(after),
    decreases before.len(),
{
    if before.len() == 0 {
        assert(before + after =~= after);
        assert(ical::html_escaped(before) + ical::html_escaped(after) =~= ical::html_escaped(after));
    } else {
        assert((before + after).skip(1) =~= before.skip(1) + after);
        lemma_html_adds(before.skip(1), after);
        assert(ical::html_escaped(before + after) =~= ical::html_escaped(before)
            + ical::html_escaped(after));
    }
}

/// iCalendar escaping goes character by character: a backslash, a comma, a semicolon and a line
/// feed are written with a backslash, a carriage return goes, and every other character stays.
pub proof fn law_text_is_escaped_by_character(before: Seq<char>, c: char, after: Seq<char>)
    ensures
        ical::escaped(before + after) == ical::escaped(before) + ical::escaped(after),
        ical::escaped(seq!['\\']) == seq!['\\', '\\'],
        ical::escaped(seq![',']) == seq!['\\', ','],
        ical::escaped(seq![';']) == seq!['\\', ';'],
        ical::escaped(seq!['\n']) == seq!['\\', 'n'],
        ical::escaped(seq!['\r']) == Seq::<char>::empty(),
        c != '\\' && c != ',' && c != ';' && c != '\n' && c != '\r' ==> ical::escaped(seq![c])
            == seq![c],
{
    lemma_escaped_adds(before, after);
    assert forall|d: char| #[trigger] ical::escaped(seq![d]) == ical::escaped_char(d) by {
        reveal_with_fuel(ical::escaped, 2);
        assert(seq![d].skip(1) =~= Seq::<char>::empty());
        assert(ical::escaped_char(d) + Seq::<char>::empty() =~= ical::escaped_char(d));
    }
}

proof fn lemma_escaped_adds(before: Seq<char>, after: Seq<char>)
    ensures
        ical::escaped(before + after) == ical::escaped(before) + ical::escaped(after),
    decreases before.len(),
{
    if before.len() == 0 {
        assert(before + after =~= after);
        assert(ical::escaped(before) + ical::escaped(after) =~= ical::escaped(after));
    } else {
        assert((before + after).skip(1) =~= before.skip(1) + after);
        lemma_escaped_adds(before.skip(1), after);
        assert(ical::escaped(before + after) =~= ical::escaped(before) + ical::escaped(after));
    }
}

/// Unescaping reads a backslash and `n`, in either case, as a line feed, a backslash and any other
/// character as that character, and all else as it stands; a backslash with nothing after it is
/// itself.
pub proof fn law_escapes_are_read_one_by_one(c: char, rest: Seq<char>)
    ensures
        ical::unescaped(seq!['\\', 'n'] + rest) == seq!['\n'] + ical::unescaped(rest),
        ical::unescaped(seq!['\\', 'N'] + rest) == seq!['\n'] + ical::unescaped(rest),
        c != 'n' && c != 'N' ==> ical::unescaped(seq!['\\', c] + rest) == seq![c]
            + ical::unescaped(rest),
        c != '\\' ==> ical::unescaped(seq![c] + rest) == seq![c] + ical::unescaped(rest),
        ical::unescaped(seq!['\\']) == seq!['\\'],
        ical::unescaped(Seq::empty()) == Seq::<char>::empty(),
{
    assert((seq!['\\', 'n'] + rest).skip(2) =~= rest);
    assert((seq!['\\', 'N'] + rest).skip(2) =~= rest);
    assert((seq!['\\', c] + rest).skip(2) =~= rest);
    assert((seq![c] + rest).skip(1) =~= rest);
}

// ---------------------------------------------------------------------------
// What a booking's event says
// ---------------------------------------------------------------------------

/// A text of white space only.
pub open spec fn is_blank(s: Seq<char>) -> bool {
    forall|i: int| 0 <= i < s.len() ==> text::is_space(#[trigger] s[i])
}

/// Is `told` what the event says of itself under that name: the unescaped value, where there is
/// one that is not blank, and else nothing?
pub open spec fn says(event: Seq<Seq<char>>, name: Seq<char>, told: Option<Seq<char>>) -> bool {
    match (utils::field(event, name), told) {
        (None, told) => told is None,
        (Some(raw), None) => is_blank(ical::unescaped(raw)),
        (Some(raw), Some(s)) => s == ical::unescaped(raw) && !is_blank(s),
    }
}

proof fn lemma_says(event: Seq<Seq<char>>, name: Seq<char>, told: Option<Seq<char>>)
    requires
        says(event, name, told),
    ensures
        ical::told_field(event, name) == told,
{
    match utils::field(event, name) {
        Some(raw) => text::law_trimming_takes_white_space_only(ical::unescaped(raw)),
        None => {},
    }
}

/// The HTML paragraph of a text.
pub open spec fn paragraph(s: Seq<char>) -> Seq<char> {
    "<div>"@ + ical::html_escaped(s) + "</div>"@
}

/// A booking's description is the paragraph of the notes, where there are any, then that of the
/// location, where there is one, then that of the UID's marker. Each stands there whatever the
/// others are: notes that are not blank start the description, and a location that is not blank
/// stands in it, with the notes before it or without.
pub proof fn law_notes_and_location_are_written(
    uid: Seq<char>,
    event: Seq<Seq<char>>,
    payload: PayloadView,
    notes: Option<Seq<char>>,
    location: Option<Seq<char>>,
)
    requires
        ical::event_payload(uid, event) == Ok::<PayloadView, Failure<Seq<char>>>(payload),
        says(event, "DESCRIPTION"@, notes),
        says(event, "LOCATION"@, location),
    ensures
        payload.description is Some,
        ({
            let d = payload.description->0;
            let marker = "<div>[calrs-uid:"@ + ical::html_escaped(uid) + "]</div>"@;
            match (notes, location) {
                (Some(n), Some(l)) => d == paragraph(n) + paragraph("Location: "@ + l) + marker,
                (Some(n), None) => d == paragraph(n) + marker,
                (None, Some(l)) => d == paragraph("Location: "@ + l) + marker,
                (None, None) => d == marker,
            }
        }),
        notes matches Some(n) ==> exists|rest: Seq<char>|
            payload.description->0 == #[trigger] (paragraph(n) + rest),
        location matches Some(l) ==> exists|before: Seq<char>, after: Seq<char>|
            payload.description->0 == #[trigger] (before + paragraph("Location: "@ + l) + after),
{
    let d = payload.description->0;
    let marker = "<div>[calrs-uid:"@ + ical::html_escaped(uid) + "]</div>"@;
    lemma_parts(event, notes, location);
    lemma_marker_paragraph(uid);
    let n = ical::notes_part(event);
    let l = ical::location_part(event);
    assert(d == n + l + marker);
    lemma_around(n, l, marker);
}

/// The parts of a description are the paragraphs of what the event says.
proof fn lemma_parts(
    event: Seq<Seq<char>>,
    notes: Option<Seq<char>>,
    location: Option<Seq<char>>,
)
    requires
        says(event, "DESCRIPTION"@, notes),
        says(event, "LOCATION"@, location),
    ensures
        ical::notes_part(event) == match notes {
            Some(n) => paragraph(n),
            None => Seq::empty(),
        },
        ical::location_part(event) == match location {
            Some(l) => paragraph("Location: "@ + l),
            None => Seq::empty(),
        },
{
    lemma_says(event, "DESCRIPTION"@, notes);
    lemma_says(event, "LOCATION"@, location);
}

proof fn lemma_around(n: Seq<char>, l: Seq<char>, m: Seq<char>)
    ensures
        n + l + m == n + (l + m),
        n.len() == 0 ==> n + l + m == l + m,
        l.len() == 0 ==> n + l + m == n + m,
        n.len() == 0 && l.len() == 0 ==> n + l + m == m,
{
    assert(n + l + m =~= n + (l + m));
    if n.len() == 0 {
        assert(n + l + m =~= l + m);
    }
    if l.len() == 0 {
        assert(n + l + m =~= n + m);
    }
    if n.len() == 0 && l.len() == 0 {
        assert(n + l + m =~= m);
    }
}

proof fn lemma_marker_paragraph(uid: Seq<char>)
    ensures
        ical::paragraph_text(ical::marker_text(uid)) == "<div>[calrs-uid:"@ + ical::html_escaped(uid)
            + "]</div>"@,
{
    reveal_strlit("<div>");
    reveal_strlit("</div>");
    reveal_strlit("[calrs-uid:");
    reveal_strlit("]");
    reveal_strlit("<div>[calrs-uid:");
    reveal_strlit("]</div>");
    lemma_html_adds("[calrs-uid:"@ + uid, "]"@);
    lemma_html_adds("[calrs-uid:"@, uid);
    laws::lemma_plain_text_is_kept("[calrs-uid:"@);
    laws::lemma_plain_text_is_kept("]"@);
    let e = ical::html_escaped(uid);
    assert("<div>"@ + ("[calrs-uid:"@ + e + "]"@) + "</div>"@ =~= "<div>[calrs-uid:"@ + e
        + "]</div>"@);
}

/// A booking's entry is titled with the event's summary, unescaped, wherever that is not blank.
pub proof fn law_summary_is_written(
    uid: Seq<char>,
    event: Seq<Seq<char>>,
    payload: PayloadView,
    summary: Option<Seq<char>>,
)
    requires
        ical::event_payload(uid, event) == Ok::<PayloadView, Failure<Seq<char>>>(payload),
        says(event, "SUMMARY"@, summary),
    ensures
        payload.summary == match summary {
            Some(s) => s,
            None => "Booking"@,
        },
{
    lemma_says(event, "SUMMARY"@, summary);
}

/// Is a value eight digits, white space around it aside?
pub open spec fn is_eight_digits(value: Seq<char>) -> bool {
    let v = text::trimmed(value);
    v.len() == 8 && forall|i: int| 0 <= i < v.len() ==> '0' <= #[trigger] v[i] <= '9'
}

/// A booking is all-day exactly where its start is a bare date. A timed one is written with the
/// start and the end that its event says, to the second; an all-day one with the first day and
/// the day before the end that the event says.
pub proof fn law_times_are_written(
    uid: Seq<char>,
    event: Seq<Seq<char>>,
    raw_start: Seq<char>,
    raw_end: Seq<char>,
    start: UtcDateTime,
    end: UtcDateTime,
)
    requires
        utils::field(event, "DTSTART"@) == Some(raw_start),
        utils::field(event, "DTEND"@) == Some(raw_end),
        utils::ical_datetime(raw_start) == Some(start),
        utils::ical_datetime(raw_end) == Some(end),
    ensures
        ical::event_payload(uid, event) matches Ok(payload) && {
            &&& payload.all_day == is_eight_digits(raw_start)
            &&& !payload.notify
            &&& !payload.all_day ==> payload.starts_at == time::zulu_text(start) && payload.ends_at
                == time::zulu_text(end)
            &&& payload.all_day ==> payload.starts_at == time::iso_date_text(start.date)
                && payload.ends_at == time::iso_date_text(time::previous_day(end.date))
        },
{
    lemma_eight_digits(raw_start);
}

proof fn lemma_eight_digits(value: Seq<char>)
    ensures
        is_eight_digits(value) == ical::date_only(value),
{
    let v = text::trimmed(value);
    if is_eight_digits(value) {
        assert forall|i: int| 0 <= i < v.len() implies decimal::is_digit(#[trigger] v[i]) by {}
    }
    if ical::date_only(value) {
        assert forall|i: int| 0 <= i < v.len() implies '0' <= #[trigger] v[i] <= '9' by {
            assert(decimal::is_digit(v[i]));
        }
    }
}

/// A booking is refused exactly where its calendar text holds no event, its first event lacks a
/// start or an end, or one of these cannot be read; what is wrong first, in this order, is what
/// is said, with the value that could not be read. A later event makes no difference.
pub proof fn law_bookings_are_refused_for_their_times_only(uid: Seq<char>, ics: Seq<char>)
    ensures
        ({
            let refusal = match ical::booking_payload(uid, ics) {
                Ok(_) => None,
                Err(e) => Some(e),
            };
            if utils::vevents(ics).len() == 0 {
                refusal == Some(Failure::<Seq<char>>::NoVevent)
            } else {
                let event = utils::vevents(ics)[0];
                match (utils::field(event, "DTSTART"@), utils::field(event, "DTEND"@)) {
                    (None, _) => refusal == Some(Failure::<Seq<char>>::NoStart),
                    (Some(_), None) => refusal == Some(Failure::<Seq<char>>::NoEnd),
                    (Some(start), Some(end)) => {
                        let unread = if utils::ical_datetime(start) is None {
                            start
                        } else {
                            end
                        };
                        if utils::ical_datetime(unread) is Some {
                            refusal is None
                        } else if is_eight_digits(start) {
                            refusal == Some(Failure::BadDate(unread))
                        } else {
                            refusal == Some(Failure::BadDatetime(unread))
                        }
                    },
                }
            }
        }),
{
    if utils::vevents(ics).len() > 0 {
        let event = utils::vevents(ics)[0];
        match utils::field(event, "DTSTART"@) {
            Some(start) => lemma_eight_digits(start),
            None => {},
        }
    }
}

/// Dates and times are written as they are read: a date-time in RFC 3339 to the second, a date as
/// `YYYY-MM-DD`, and the date before it likewise; what cannot be read is refused and quoted.
pub proof fn law_values_are_written_in_iso_form(value: Seq<char>)
    ensures
        match utils::ical_datetime(value) {
            Some(t) => {
                &&& ical::iso_datetime_of(value) == Ok::<Seq<char>, Failure<Seq<char>>>(
                    time::zulu_text(t),
                )
                &&& ical::iso_date_of(value) == Ok::<Seq<char>, Failure<Seq<char>>>(
                    time::iso_date_text(t.date),
                )
                &&& ical::iso_date_before(value) == Ok::<Seq<char>, Failure<Seq<char>>>(
                    time::iso_date_text(time::previous_day(t.date)),
                )
            },
            None => {
                &&& ical::iso_datetime_of(value) == Err::<Seq<char>, Failure<Seq<char>>>(
                    Failure::BadDatetime(value),
                )
                &&& ical::iso_date_of(value) == Err::<Seq<char>, Failure<Seq<char>>>(
                    Failure::BadDate(value),
                )
                &&& ical::iso_date_before(value) == Err::<Seq<char>, Failure<Seq<char>>>(
                    Failure::BadDate(value),
                )
            },
        },
{
}

/// A booking is written as its calendar text's first event says, and nothing else of the text
/// matters: two texts with the same first event give the same entry.
pub proof fn law_booking_is_its_first_event(uid: Seq<char>, ics: Seq<char>, other: Seq<char>)
    requires
        utils::vevents(ics).len() > 0,
    ensures
        ical::booking_payload(uid, ics) == ical::event_payload(uid, utils::vevents(ics)[0]),
        utils::vevents(other).len() > 0 && utils::vevents(other)[0] == utils::vevents(ics)[0]
            ==> ical::booking_payload(uid, other) == ical::booking_payload(uid, ics),
{
}

} // verus!
