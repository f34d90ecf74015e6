//! What holds of UIDs, markers, texts and times across the functions that write and read them.

use vstd::prelude::*;
use super::client::{PayloadView, ScheduleEntry};
use super::ical;
use crate::decimal;
use crate::error::Failure;
use crate::text;
use crate::time;
use crate::time::{CivilDate, UtcDateTime};
use crate::utils;

verus! {

// ---------------------------------------------------------------------------
// Synthetic UIDs
// ---------------------------------------------------------------------------

/// The event of an entry that carries no UID of its own has a UID that names the entry, so that a
/// later write or removal needs no lookup.
pub proof fn law_foreign_event_names_its_entry(entry: ScheduleEntry)
    requires
        ical::carried_uid(text::opt_string_view(entry.description)) is None,
    ensures
        ical::synthetic_entry_id(ical::event_uid(entry)) == Some(entry.id),
{
    ical::law_synthetic_uid_reads_back(entry.id);
}

// ---------------------------------------------------------------------------
// Escaping
// ---------------------------------------------------------------------------

/// A text without its carriage returns.
pub open spec fn without_returns(s: Seq<char>) -> Seq<char>
    decreases s.len(),
{
    if s.len() == 0 {
        Seq::empty()
    } else if s[0] == '\r' {
        without_returns(s.skip(1))
    } else {
        seq![s[0]] + without_returns(s.skip(1))
    }
}

/// A text that holds no carriage return is left as it is.
proof fn lemma_nothing_to_drop(s: Seq<char>)
    requires
        forall|i: int| 0 <= i < s.len() ==> s[i] != '\r',
    ensures
        without_returns(s) == s,
    decreases s.len(),
{
    if s.len() > 0 {
        let tail = s.skip(1);
        assert forall|i: int| 0 <= i < tail.len() implies tail[i] != '\r' by {
            assert(tail[i] == s[i + 1]);
        }
        lemma_nothing_to_drop(tail);
        assert(s =~= seq![s[0]] + tail);
    }
}

/// Unescaping what was escaped gives the text back, without its carriage returns: a text that
/// holds none comes back as it was.
pub proof fn law_unescape_undoes_escape(s: Seq<char>)
    ensures
        ical::unescaped(ical::escaped(s)) == without_returns(s),
        (forall|i: int| 0 <= i < s.len() ==> s[i] != '\r') ==> ical::unescaped(ical::escaped(s))
            == s,
{
    lemma_unescape_undoes_escape(s);
    if forall|i: int| 0 <= i < s.len() ==> s[i] != '\r' {
        lemma_nothing_to_drop(s);
    }
}

proof fn lemma_unescape_undoes_escape(s: Seq<char>)
    ensures
        ical::unescaped(ical::escaped(s)) == without_returns(s),
    decreases s.len(),
{
    if s.len() > 0 {
        let e = ical::escaped(s);
        let k = ical::escaped_char(s[0]).len() as int;
        lemma_unescape_undoes_escape(s.skip(1));
        assert(e.skip(k) =~= ical::escaped(s.skip(1)));
        if s[0] == '\r' {
            assert(e =~= ical::escaped(s.skip(1)));
        }
    }
}

/// A text that HTML-escaping leaves alone.
pub open spec fn is_plain(s: Seq<char>) -> bool {
    forall|i: int|
        0 <= i < s.len() ==> {
            let c = #[trigger] s[i];
            c != '&' && c != '<' && c != '>' && c != '"' && c != '\n' && c != '\r'
        }
}

/// HTML-escaping leaves a plain text alone.
pub proof fn lemma_plain_text_is_kept(s: Seq<char>)
    requires
        is_plain(s),
    ensures
        ical::html_escaped(s) == s,
    decreases s.len(),
{
    if s.len() > 0 {
        let tail = s.skip(1);
        assert forall|i: int| 0 <= i < tail.len() implies {
            let c = #[trigger] tail[i];
            c != '&' && c != '<' && c != '>' && c != '"' && c != '\n' && c != '\r'
        } by {
            assert(tail[i] == s[i + 1]);
        }
        lemma_plain_text_is_kept(tail);
        assert(s =~= seq![s[0]] + tail);
        let c = s[0];
    }
}

/// Escaped text opens no element but line breaks: every `<` starts a `<br>`, every `>` ends one,
/// and there is no quotation mark.
pub proof fn law_escaped_html_is_inert(s: Seq<char>)
    ensures
        forall|i: int|
            0 <= i < ical::html_escaped(s).len() ==> {
                let c = #[trigger] ical::html_escaped(s)[i];
                &&& c == '<' ==> text::occurs_at(ical::html_escaped(s), "<br>"@, i)
                &&& c == '>' ==> text::occurs_at(ical::html_escaped(s), "<br>"@, i - 3)
                &&& c != '"'
            },
    decreases s.len(),
{
    if s.len() > 0 {
        let e = ical::html_escaped(s);
        let head = ical::html_char(s[0]);
        let tail = ical::html_escaped(s.skip(1));
        law_escaped_html_is_inert(s.skip(1));
        reveal_strlit("&amp;");
        reveal_strlit("&lt;");
        reveal_strlit("&gt;");
        reveal_strlit("&quot;");
        reveal_strlit("<br>");
        assert forall|i: int| 0 <= i < e.len() implies {
            let c = #[trigger] e[i];
            &&& c == '<' ==> text::occurs_at(e, "<br>"@, i)
            &&& c == '>' ==> text::occurs_at(e, "<br>"@, i - 3)
            &&& c != '"'
        } by {
            let c = e[i];
            let n = head.len() as int;
            if i < n {
                assert(c == head[i]);
                if s[0] == '\n' {
                    assert(e.subrange(0, 4) =~= "<br>"@);
                }
            } else {
                let j = i - n;
                assert(c == tail[j]);
                if c == '<' {
                    assert(tail.subrange(j, j + 4) =~= e.subrange(i, i + 4));
                }
                if c == '>' {
                    assert(tail.subrange(j - 3, j + 1) =~= e.subrange(i - 3, i + 1));
                }
            }
        }
    }
}

// ---------------------------------------------------------------------------
// The UID marker
// ---------------------------------------------------------------------------

/// A UID that a description can carry: not empty, without white space around it, without a
/// closing bracket, and left alone by HTML-escaping.
pub open spec fn is_carriable(uid: Seq<char>) -> bool {
    &&& uid.len() > 0
    &&& text::trimmed(uid) == uid
    &&& is_plain(uid)
    &&& forall|i: int| 0 <= i < uid.len() ==> uid[i] != ']'
}

proof fn lemma_marker_is_plain(uid: Seq<char>)
    requires
        is_plain(uid),
    ensures
        is_plain(ical::marker_text(uid)),
{
    reveal_strlit("[calrs-uid:");
    reveal_strlit("]");
    let m = ical::marker_text(uid);
    let n = ical::UID_MARKER_PREFIX@.len() as int;
    assert forall|i: int| 0 <= i < m.len() implies {
        let c = #[trigger] m[i];
        c != '&' && c != '<' && c != '>' && c != '"' && c != '\n' && c != '\r'
    } by {
        if n <= i < n + uid.len() {
            assert(m[i] == uid[i - n]);
        }
    }
}

/// The description of a booking holds the marker of the booking's UID, so that the booking's
/// entry is found again.
pub proof fn law_booking_carries_its_marker(uid: Seq<char>, event: Seq<Seq<char>>)
    requires
        is_plain(uid),
    ensures
        text::contains_text(ical::booking_description(uid, event), ical::marker_text(uid)),
{
    let d = ical::booking_description(uid, event);
    let before = ical::notes_part(event) + ical::location_part(event) + "<div>"@;
    let marker = ical::marker_text(uid);
    lemma_marker_is_plain(uid);
    lemma_plain_text_is_kept(marker);
    assert(d =~= before + marker + "</div>"@);
    let at = before.len() as int;
    assert(d.subrange(at, at + marker.len()) =~= marker);
    assert(text::occurs_at(d, marker, at));
}

/// In a booking's description the marker prefix stands first where the marker stands, unless the
/// notes or the location hold one.
proof fn lemma_first_marker(uid: Seq<char>, event: Seq<Seq<char>>)
    requires
        is_plain(uid),
        !text::contains_text(ical::notes_part(event), ical::UID_MARKER_PREFIX@),
        !text::contains_text(ical::location_part(event), ical::UID_MARKER_PREFIX@),
    ensures
        ({
            let before = ical::notes_part(event) + ical::location_part(event) + "<div>"@;
            let at = before.len() as int;
            let d = ical::booking_description(uid, event);
            &&& d == before + ical::marker_text(uid) + "</div>"@
            &&& text::occurs_at(d, ical::UID_MARKER_PREFIX@, at)
            &&& forall|j: int|
                0 <= j < at ==> !text::occurs_at(d, ical::UID_MARKER_PREFIX@, j)
        }),
{
    let prefix = ical::UID_MARKER_PREFIX@;
    let notes = ical::notes_part(event);
    let location = ical::location_part(event);
    let before = notes + location + "<div>"@;
    let at = before.len() as int;
    let marker = ical::marker_text(uid);
    let d = ical::booking_description(uid, event);
    lemma_marker_is_plain(uid);
    lemma_plain_text_is_kept(marker);
    assert(d =~= before + marker + "</div>"@);
    assert(d.subrange(at, at + prefix.len()) =~= prefix);
    reveal_strlit("[calrs-uid:");
    reveal_strlit("<div>");
    let n = prefix.len() as int;
    assert forall|j: int| 0 <= j < at implies !text::occurs_at(d, prefix, j) by {
        if text::occurs_at(d, prefix, j) {
            let w = d.subrange(j, j + n);
            assert(forall|k: int| 0 <= k < n ==> #[trigger] w[k] == d[j + k]);
            let l0 = notes.len() as int;
            let l1 = l0 + location.len();
            if j + n > at {
                assert(w[at - j] == d[at]);
                assert(d[at] == prefix[0]);
            } else if j + n > l1 {
                if j <= l1 {
                    assert(w[l1 - j] == d[l1]);
                    assert(d[l1] == "<div>"@[0]);
                } else {
                    assert(w[0] == d[j]);
                    assert(d[j] == "<div>"@[j - l1]);
                }
            } else if j >= l0 {
                assert(location.subrange(j - l0, j - l0 + n) =~= w);
                assert(text::occurs_at(location, prefix, j - l0));
            } else if j + n > l0 {
                assert(w[l0 - j] == d[l0]);
                assert(d[l0] == location[0]);
                assert(location[0] == "<div>"@[0]);
            } else {
                assert(notes.subrange(j, j + n) =~= w);
                assert(text::occurs_at(notes, prefix, j));
            }
        }
    }
}

/// A booking comes back with its own UID: the description written for it carries that UID,
/// unless the notes or the location hold a marker of their own.
pub proof fn law_booking_keeps_its_uid(uid: Seq<char>, event: Seq<Seq<char>>)
    requires
        is_carriable(uid),
        !text::contains_text(ical::notes_part(event), ical::UID_MARKER_PREFIX@),
        !text::contains_text(ical::location_part(event), ical::UID_MARKER_PREFIX@),
    ensures
        ical::carried_uid(Some(ical::booking_description(uid, event))) == Some(uid),
{
    let prefix = ical::UID_MARKER_PREFIX@;
    let d = ical::booking_description(uid, event);
    let before = ical::notes_part(event) + ical::location_part(event) + "<div>"@;
    let at = before.len() as int;
    lemma_first_marker(uid, event);
    text::lemma_find_text_is(d, prefix, at);
    reveal_strlit("]");
    let start = at + prefix.len();
    let end = start + uid.len();
    assert(d.subrange(start, end) =~= uid);
    assert forall|j: int| start <= j < end implies d[j] != ']' by {
        assert(d[j] == uid[j - start]);
    }
    text::lemma_find_char_is(d, ']', start, end);
}

/// In a marker and its closing tag the prefix stands only at the start.
proof fn lemma_only_prefix(uid: Seq<char>, j: int)
    requires
        !text::contains_text(uid, ical::UID_MARKER_PREFIX@),
        text::occurs_at(ical::marker_text(uid) + "</div>"@, ical::UID_MARKER_PREFIX@, j),
    ensures
        j == 0,
{
    let prefix = ical::UID_MARKER_PREFIX@;
    let n = prefix.len() as int;
    let s = ical::marker_text(uid) + "</div>"@;
    let p = s.subrange(j, j + n);
    let end = n + uid.len();
    reveal_strlit("]");
    reveal_strlit("[calrs-uid:");
    reveal_strlit("</div>");
    assert(forall|k: int| 0 <= k < n ==> #[trigger] p[k] == s[j + k]);
    assert(p[0] == '[');
    if 0 < j < n {
        assert(s[j] == prefix[j]);
    } else if n <= j && j + n <= end {
        assert(uid.subrange(j - n, j) =~= p);
        assert(text::occurs_at(uid, prefix, j - n));
    } else if n <= j < end {
        assert(s[end] == ']');
        assert(p[end - j] == ']');
    } else if j == end {
        assert(s[j] == ']');
    } else if j > end {
        assert(s[j] == "</div>"@[j - end - 1]);
    }
}

/// The marker of a UID without brackets starts with no other marker: the only bracket that can
/// close one is its own.
proof fn lemma_same_marker(uid: Seq<char>, other: Seq<char>)
    requires
        forall|i: int| 0 <= i < uid.len() ==> uid[i] != ']',
        text::occurs_at(ical::marker_text(uid) + "</div>"@, ical::marker_text(other), 0),
    ensures
        other == uid,
{
    let n = ical::UID_MARKER_PREFIX@.len() as int;
    let s = ical::marker_text(uid) + "</div>"@;
    let m = ical::marker_text(other);
    let w = s.subrange(0, m.len() as int);
    let end = n + uid.len();
    let closed_at = n + other.len();
    reveal_strlit("]");
    reveal_strlit("</div>");
    assert(w[closed_at] == s[closed_at]);
    assert(w[closed_at] == ']');
    if closed_at < end {
        assert(s[closed_at] == uid[closed_at - n]);
    } else if closed_at > end {
        assert(s[closed_at] == "</div>"@[closed_at - end - 1]);
    }
    assert forall|k: int| 0 <= k < uid.len() implies uid[k] == other[k] by {
        assert(w[n + k] == s[n + k]);
    }
    assert(uid =~= other);
}

/// The description of a booking holds the marker of no other UID, unless the notes, the location
/// or the UID itself hold a marker prefix of their own.
pub proof fn law_marker_is_exact(uid: Seq<char>, other: Seq<char>, event: Seq<Seq<char>>)
    requires
        is_plain(uid),
        forall|i: int| 0 <= i < uid.len() ==> uid[i] != ']',
        !text::contains_text(uid, ical::UID_MARKER_PREFIX@),
        !text::contains_text(ical::notes_part(event), ical::UID_MARKER_PREFIX@),
        !text::contains_text(ical::location_part(event), ical::UID_MARKER_PREFIX@),
        text::contains_text(ical::booking_description(uid, event), ical::marker_text(other)),
    ensures
        other == uid,
{
    let prefix = ical::UID_MARKER_PREFIX@;
    let n = prefix.len() as int;
    let d = ical::booking_description(uid, event);
    let before = ical::notes_part(event) + ical::location_part(event) + "<div>"@;
    let at = before.len() as int;
    let tail = ical::marker_text(uid) + "</div>"@;
    let m = ical::marker_text(other);
    lemma_first_marker(uid, event);
    assert(d =~= before + tail);
    let j = choose|j: int| text::occurs_at(d, m, j);
    assert(d.subrange(j, j + m.len()).take(n) =~= prefix);
    assert(d.subrange(j, j + n) =~= prefix);
    assert(text::occurs_at(d, prefix, j));
    assert(j >= at);
    assert(tail.subrange(j - at, j - at + n) =~= prefix);
    lemma_only_prefix(uid, j - at);
    assert(tail.subrange(0, m.len() as int) =~= d.subrange(j, j + m.len()));
    lemma_same_marker(uid, other);
}

// ---------------------------------------------------------------------------
// Times
// ---------------------------------------------------------------------------

proof fn lemma_two_digits(n: int)
    requires
        0 <= n < 100,
    ensures
        decimal::two_digits(n).len() == 2,
        decimal::is_digit(decimal::two_digits(n)[0]),
        decimal::is_digit(decimal::two_digits(n)[1]),
        decimal::digits_value(decimal::two_digits(n)) == n,
{
    let s = decimal::two_digits(n);
    reveal_with_fuel(decimal::digits_value, 3);
    assert(s.drop_last().drop_last() =~= Seq::<char>::empty());
    assert(s.drop_last().last() == s[0]);
}

/// The compact text of a date of a four-digit year, at the start of a text, is read as that date.
proof fn lemma_compact_date_at_start(d: CivilDate, tail: Seq<char>)
    requires
        d.valid(),
        d.four_digit_year(),
    ensures
        time::compact_date_text(d).len() == 8,
        decimal::all_digits(time::compact_date_text(d)),
        utils::date_at_start(time::compact_date_text(d) + tail) == Some(d),
{
    let year = d.year as int;
    let date = time::compact_date_text(d);
    let s = date + tail;
    lemma_two_digits(year / 100);
    lemma_two_digits(year % 100);
    lemma_two_digits(d.month as int);
    lemma_two_digits(d.day as int);
    assert(s.take(8) =~= date);
    assert(s.subrange(0, 2) =~= decimal::two_digits(year / 100));
    assert(s.subrange(2, 4) =~= decimal::two_digits(year % 100));
    assert(s.subrange(4, 6) =~= decimal::two_digits(d.month as int));
    assert(s.subrange(6, 8) =~= decimal::two_digits(d.day as int));
    utils::lemma_number_of_four(s, 0);
}

/// An all-day event's dates are read as all-day, and in Basecamp's form they are the dates
/// themselves: an entry that was read as an event, exclusive end and all, is written as it was.
pub proof fn law_all_day_dates_read_back(first: CivilDate, last: CivilDate)
    requires
        first.valid(),
        first.four_digit_year(),
        last.valid(),
        time::next_day(last).four_digit_year(),
        last.four_digit_year(),
    ensures
        ical::date_only(time::compact_date_text(first)),
        ical::booking_times(
            time::compact_date_text(first),
            time::compact_date_text(time::next_day(last)),
        ) == Ok::<(Seq<char>, Seq<char>), Failure<Seq<char>>>(
            (time::iso_date_text(first), time::iso_date_text(last)),
        ),
{
    let a = time::compact_date_text(first);
    let b = time::compact_date_text(time::next_day(last));
    time::law_next_day_undone(last);
    lemma_compact_date_at_start(first, Seq::empty());
    lemma_compact_date_at_start(time::next_day(last), Seq::empty());
    assert(a + Seq::<char>::empty() =~= a);
    assert(b + Seq::<char>::empty() =~= b);
    assert(decimal::is_digit(a[0]) && decimal::is_digit(a[7]));
    assert(decimal::is_digit(b[0]) && decimal::is_digit(b[7]));
    text::lemma_trimmed_keeps(a);
    text::lemma_trimmed_keeps(b);
}

/// A compact UTC timestamp is read as a timed one, and in Basecamp's form it is the same
/// timestamp to the second.
pub proof fn law_timestamps_read_back(from: UtcDateTime, to: UtcDateTime)
    requires
        from.valid(),
        from.date.four_digit_year(),
        from.nanos < 1_000_000_000,
        to.valid(),
        to.date.four_digit_year(),
        to.nanos < 1_000_000_000,
    ensures
        !ical::date_only(time::compact_utc_text(from)),
        ical::booking_times(time::compact_utc_text(from), time::compact_utc_text(to)) == Ok::<
            (Seq<char>, Seq<char>),
            Failure<Seq<char>>,
        >((time::zulu_text(from), time::zulu_text(to))),
{
    lemma_compact_utc(from);
    lemma_compact_utc(to);
}

proof fn lemma_compact_utc(t: UtcDateTime)
    requires
        t.valid(),
        t.date.four_digit_year(),
        t.nanos < 1_000_000_000,
    ensures
        !ical::date_only(time::compact_utc_text(t)),
        ical::iso_datetime_of(time::compact_utc_text(t)) == Ok::<Seq<char>, Failure<Seq<char>>>(
            time::zulu_text(t),
        ),
{
    let s = time::compact_utc_text(t);
    let date = time::compact_date_text(t.date);
    let tail = seq!['T'] + decimal::two_digits(t.hour as int) + decimal::two_digits(t.minute as int)
        + decimal::two_digits(t.shown_second()) + seq!['Z'];
    assert(t.shown_second() == t.second);
    lemma_compact_date_at_start(t.date, tail);
    lemma_two_digits(t.hour as int);
    lemma_two_digits(t.minute as int);
    lemma_two_digits(t.second as int);
    assert(s =~= date + tail);
    assert(decimal::is_digit(s[0]));
    text::lemma_trimmed_keeps(s);
    assert(s.subrange(9, 11) =~= decimal::two_digits(t.hour as int));
    assert(s.subrange(11, 13) =~= decimal::two_digits(t.minute as int));
    assert(s.subrange(13, 15) =~= decimal::two_digits(t.second as int));
    let clock = s.subrange(9, 15);
    assert forall|k: int| 0 <= k < clock.len() implies decimal::is_digit(#[trigger] clock[k]) by {
        assert(clock[k] == s[9 + k]);
    }
    let read = UtcDateTime { nanos: 0, ..t };
    assert(utils::ical_datetime(s) == Some(read));
    assert(time::zulu_text(read) =~= time::zulu_text(t));
}

proof fn lemma_number_bound(s: Seq<char>, from: int, to: int)
    requires
        0 <= from <= to <= s.len(),
        to - from == 2 || to - from == 4,
        decimal::all_digits(s.subrange(from, to)),
    ensures
        0 <= utils::number_at(s, from, to),
        to - from == 2 ==> utils::number_at(s, from, to) <= 99,
        to - from == 4 ==> utils::number_at(s, from, to) <= 9999,
{
    let d = s.subrange(from, to);
    reveal_with_fuel(decimal::digits_value, 5);
    assert forall|i: int| 0 <= i < d.len() implies 0 <= decimal::digit_value(#[trigger] d[i]) <= 9 by {
        assert(decimal::is_digit(d[i]));
    }
    assert(d.last() == d[d.len() - 1]);
    assert(d.drop_last().last() == d[d.len() - 2]);
    if to - from == 4 {
        assert(d.drop_last().drop_last().last() == d[1]);
        assert(d.drop_last().drop_last().drop_last().last() == d[0]);
    }
}

/// What an iCalendar value says is a whole-second timestamp of a four-digit year.
proof fn lemma_ical_datetime_is_valid(value: Seq<char>)
    ensures
        utils::ical_datetime(value) matches Some(t) ==> t.valid() && t.nanos == 0
            && t.date.four_digit_year(),
{
    let v = text::trimmed(value);
    if utils::ical_datetime(value) is Some {
        let head = v.take(8);
        assert forall|i: int| 0 <= i < 4 implies decimal::is_digit(#[trigger] v.subrange(0, 4)[i]) by {
            assert(decimal::is_digit(head[i]));
        }
        assert forall|i: int| 0 <= i < 2 implies decimal::is_digit(#[trigger] v.subrange(4, 6)[i]) by {
            assert(decimal::is_digit(head[i + 4]));
        }
        assert forall|i: int| 0 <= i < 2 implies decimal::is_digit(#[trigger] v.subrange(6, 8)[i]) by {
            assert(decimal::is_digit(head[i + 6]));
        }
        lemma_number_bound(v, 0, 4);
        lemma_number_bound(v, 4, 6);
        lemma_number_bound(v, 6, 8);
        if v.len() > 8 {
            let clock = v.subrange(9, 15);
            assert forall|i: int| 0 <= i < 2 implies decimal::is_digit(
                #[trigger] v.subrange(9, 11)[i],
            ) by {
                assert(decimal::is_digit(clock[i]));
            }
            assert forall|i: int| 0 <= i < 2 implies decimal::is_digit(
                #[trigger] v.subrange(11, 13)[i],
            ) by {
                assert(decimal::is_digit(clock[i + 2]));
            }
            assert forall|i: int| 0 <= i < 2 implies decimal::is_digit(
                #[trigger] v.subrange(13, 15)[i],
            ) by {
                assert(decimal::is_digit(clock[i + 4]));
            }
            lemma_number_bound(v, 9, 11);
            lemma_number_bound(v, 11, 13);
            lemma_number_bound(v, 13, 15);
        }
    }
}

/// An entry with the times of a booking's payload tells the times of the booking: a timed one the
/// start and the end of the booking's event, an all-day one the first day and the day before the
/// event's exclusive end. Read as an event again it has these times exactly, as the contract of
/// [`ical::synth_vcalendar`] says of an entry that tells them.
///
/// (The day before the first day of the year zero has no four-digit year, so the law leaves an
/// all-day event that ends there out.)
pub proof fn law_booking_keeps_its_times(
    uid: Seq<char>,
    event: Seq<Seq<char>>,
    payload: PayloadView,
    entry: ScheduleEntry,
)
    requires
        ical::event_payload(uid, event) == Ok::<PayloadView, Failure<Seq<char>>>(payload),
        text::opt_string_view(entry.starts_at) == Some(payload.starts_at),
        text::opt_string_view(entry.ends_at) == Some(payload.ends_at),
        entry.all_day == payload.all_day,
    ensures
        ({
            let start = utils::ical_datetime(utils::field(event, "DTSTART"@)->0);
            let end = utils::ical_datetime(utils::field(event, "DTEND"@)->0);
            &&& start is Some && end is Some
            &&& !payload.all_day ==> ical::tells_stamps(entry, start->0, end->0)
            &&& payload.all_day && !(end->0.date.year == 0 && end->0.date.month == 1
                && end->0.date.day == 1) ==> {
                let last = time::previous_day(end->0.date);
                &&& ical::tells_days(entry, start->0.date, last)
                &&& time::next_day(last) == end->0.date
            }
        }),
{
    let raw_start = utils::field(event, "DTSTART"@)->0;
    let raw_end = utils::field(event, "DTEND"@)->0;
    lemma_ical_datetime_is_valid(raw_start);
    lemma_ical_datetime_is_valid(raw_end);
}

/// A booking's entry never notifies its participants.
pub proof fn law_bookings_do_not_notify(uid: Seq<char>, ics: Seq<char>)
    ensures
        ical::booking_payload(uid, ics) matches Ok(payload) ==> !payload.notify,
{
}

/// A trashed or archived entry becomes a cancelled event, any other one a confirmed event.
pub proof fn law_removed_entries_are_cancelled(entry: ScheduleEntry)
    ensures
        text::opt_string_view(entry.status) == Some("trashed"@) || text::opt_string_view(
            entry.status,
        ) == Some("archived"@) ==> ical::event_status(entry) == "CANCELLED"@,
        text::opt_string_view(entry.status) != Some("trashed"@) && text::opt_string_view(
            entry.status,
        ) != Some("archived"@) ==> ical::event_status(entry) == "CONFIRMED"@,
{
}

} // verus!
