//! What holds of the calendar text of an entry: it is read back as it was written.

use vstd::prelude::*;
use super::client::{PayloadView, ScheduleEntry};
use super::ical;
use super::laws;
use crate::decimal;
use crate::error::Failure;
use crate::text;
use crate::time;
use crate::time::{CivilDate, UtcDateTime};
use crate::utils;

verus! {

// ---------------------------------------------------------------------------
// Lines
// ---------------------------------------------------------------------------

/// A text without line breaks.
pub open spec fn is_one_line(s: Seq<char>) -> bool {
    forall|i: int| 0 <= i < s.len() ==> #[trigger] s[i] != '\n' && s[i] != '\r'
}

/// Lines, each with its line break.
pub open spec fn broken(lines: Seq<Seq<char>>) -> Seq<char>
    decreases lines.len(),
{
    if lines.len() == 0 {
        Seq::empty()
    } else {
        lines[0] + "\r\n"@ + broken(lines.skip(1))
    }
}

proof fn lemma_broken_adds(a: Seq<Seq<char>>, b: Seq<Seq<char>>)
    ensures
        broken(a + b) == broken(a) + broken(b),
    decreases a.len(),
{
    if a.len() == 0 {
        assert(a + b =~= b);
        assert(broken(a) + broken(b) =~= broken(b));
    } else {
        assert((a + b).skip(1) =~= a.skip(1) + b);
        lemma_broken_adds(a.skip(1), b);
        assert(broken(a + b) =~= broken(a) + broken(b));
    }
}

/// Lines that were written are the lines that are read.
proof fn lemma_lines_read_back(before: Seq<char>, lines: Seq<Seq<char>>)
    requires
        forall|i: int| 0 <= i < lines.len() ==> is_one_line(#[trigger] lines[i]),
    ensures
        utils::lines_from(before + broken(lines), before.len() as int) == lines,
    decreases lines.len(),
{
    let s = before + broken(lines);
    let from = before.len() as int;
    if lines.len() == 0 {
        assert(s =~= before);
        assert(utils::lines_from(s, from) =~= lines);
    } else {
        reveal_strlit("\r\n");
        let line = lines[0];
        let next = before + line + "\r\n"@;
        let end = from + line.len() + 1;
        assert(is_one_line(lines[0]));
        assert(s =~= next + broken(lines.skip(1)));
        assert(s[end] == '\n');
        assert forall|j: int| from <= j < end implies s[j] != '\n' by {
            if j < end - 1 {
                assert(s[j] == line[j - from]);
            } else {
                assert(s[j] == '\r');
            }
        }
        text::lemma_find_char_is(s, '\n', from, end);
        assert(s.subrange(from, end) =~= line.push('\r'));
        assert(utils::without_cr(s.subrange(from, end)) =~= line);
        assert forall|i: int| 0 <= i < lines.skip(1).len() implies is_one_line(
            #[trigger] lines.skip(1)[i],
        ) by {
            assert(is_one_line(lines[i + 1]));
        }
        lemma_lines_read_back(next, lines.skip(1));
        assert(seq![line] + lines.skip(1) =~= lines);
    }
}

/// Lines none of which starts with white space are not joined.
proof fn lemma_nothing_to_unfold(lines: Seq<Seq<char>>)
    requires
        forall|i: int| 0 <= i < lines.len() ==> !utils::is_folded(#[trigger] lines[i]),
    ensures
        utils::unfolded(lines) == lines,
    decreases lines.len(),
{
    if lines.len() > 0 {
        let shorter = lines.drop_last();
        assert forall|i: int| 0 <= i < shorter.len() implies !utils::is_folded(
            #[trigger] shorter[i],
        ) by {
            assert(!utils::is_folded(lines[i]));
        }
        lemma_nothing_to_unfold(shorter);
        assert(!utils::is_folded(lines[lines.len() - 1]));
        assert(shorter.push(lines.last()) =~= lines);
    }
}

/// A line that starts with one of the letters of the property names below: it is neither folded
/// nor a delimiter.
spec fn is_property(line: Seq<char>) -> bool {
    line.len() > 0 && (line[0] == 'U' || line[0] == 'D' || line[0] == 'S' || line[0] == 'T')
}

proof fn lemma_property_is_no_delimiter(line: Seq<char>)
    requires
        is_property(line),
    ensures
        text::trimmed(line) != "BEGIN:VEVENT"@,
        text::trimmed(line) != "END:VEVENT"@,
        !utils::is_folded(line),
{
    reveal_strlit("BEGIN:VEVENT");
    reveal_strlit("END:VEVENT");
    text::lemma_trimmed_head(line);
}

/// The properties of an open event are collected.
proof fn lemma_properties_are_collected(
    lines: Seq<Seq<char>>,
    from: int,
    to: int,
    block: Seq<Seq<char>>,
)
    requires
        0 <= from <= to < lines.len(),
        forall|i: int| from <= i < to ==> is_property(#[trigger] lines[i]),
    ensures
        utils::vevents_from(lines, from, Some(block)) == utils::vevents_from(
            lines,
            to,
            Some(block + lines.subrange(from, to)),
        ),
    decreases to - from,
{
    if from == to {
        assert(block + lines.subrange(from, to) =~= block);
    } else {
        assert(is_property(lines[from]));
        lemma_property_is_no_delimiter(lines[from]);
        lemma_properties_are_collected(lines, from + 1, to, block.push(lines[from]));
        assert(block.push(lines[from]) + lines.subrange(from + 1, to) =~= block + lines.subrange(
            from,
            to,
        ));
    }
}

// ---------------------------------------------------------------------------
// The calendar text of an entry
// ---------------------------------------------------------------------------

/// The line of an entry's summary, where it has one.
pub open spec fn summary_lines(entry: ScheduleEntry) -> Seq<Seq<char>> {
    if ical::event_summary(entry).len() == 0 {
        Seq::empty()
    } else {
        seq!["SUMMARY:"@ + ical::event_summary(entry)]
    }
}

/// The line of an entry's URL, where it has one.
pub open spec fn url_lines(entry: ScheduleEntry) -> Seq<Seq<char>> {
    match text::opt_string_view(entry.app_url) {
        Some(url) => if url.len() == 0 {
            Seq::empty()
        } else {
            seq!["URL:"@ + ical::escaped(url)]
        },
        None => Seq::empty(),
    }
}

/// The properties of an entry's event, line by line.
pub open spec fn event_lines(
    entry: ScheduleEntry,
    dtstart: Seq<char>,
    dtend: Seq<char>,
    dtstamp: Seq<char>,
) -> Seq<Seq<char>> {
    seq![
        "UID:"@ + ical::event_uid(entry),
        "DTSTAMP:"@ + dtstamp,
        "DTSTART"@ + dtstart,
        "DTEND"@ + dtend,
    ] + summary_lines(entry) + url_lines(entry) + seq![
        "TRANSP:OPAQUE"@,
        "STATUS:"@ + ical::event_status(entry),
    ]
}

spec fn opening() -> Seq<Seq<char>> {
    seq![
        "BEGIN:VCALENDAR"@,
        "VERSION:2.0"@,
        "PRODID:-//calrs//basecamp-bridge//EN"@,
        "BEGIN:VEVENT"@,
    ]
}

spec fn closing() -> Seq<Seq<char>> {
    seq!["END:VEVENT"@, "END:VCALENDAR"@]
}

proof fn lemma_broken_four(a: Seq<char>, b: Seq<char>, c: Seq<char>, d: Seq<char>)
    ensures
        broken(seq![a, b, c, d]) == a + "\r\n"@ + b + "\r\n"@ + c + "\r\n"@ + d + "\r\n"@,
{
    reveal_with_fuel(broken, 5);
    let l = seq![a, b, c, d];
    assert(l.skip(1) =~= seq![b, c, d]);
    assert(seq![b, c, d].skip(1) =~= seq![c, d]);
    assert(seq![c, d].skip(1) =~= seq![d]);
    assert(seq![d].skip(1) =~= Seq::<Seq<char>>::empty());
    assert(broken(l) =~= a + "\r\n"@ + b + "\r\n"@ + c + "\r\n"@ + d + "\r\n"@);
}

proof fn lemma_broken_two(a: Seq<char>, b: Seq<char>)
    ensures
        broken(seq![a, b]) == a + "\r\n"@ + b + "\r\n"@,
{
    reveal_with_fuel(broken, 3);
    assert(seq![a, b].skip(1) =~= seq![b]);
    assert(seq![b].skip(1) =~= Seq::<Seq<char>>::empty());
    assert(broken(seq![a, b]) =~= a + "\r\n"@ + b + "\r\n"@);
}

proof fn lemma_broken_one(a: Seq<char>)
    ensures
        broken(seq![a]) == a + "\r\n"@,
{
    reveal_with_fuel(broken, 2);
    assert(seq![a].skip(1) =~= Seq::<Seq<char>>::empty());
    assert(broken(seq![a]) =~= a + "\r\n"@);
}

proof fn lemma_fixed_lines()
    ensures
        "BEGIN:VCALENDAR\r\n"@ == "BEGIN:VCALENDAR"@ + "\r\n"@,
        "VERSION:2.0\r\n"@ == "VERSION:2.0"@ + "\r\n"@,
        "PRODID:-//calrs//basecamp-bridge//EN\r\n"@ == "PRODID:-//calrs//basecamp-bridge//EN"@
            + "\r\n"@,
        "BEGIN:VEVENT\r\n"@ == "BEGIN:VEVENT"@ + "\r\n"@,
        "TRANSP:OPAQUE\r\n"@ == "TRANSP:OPAQUE"@ + "\r\n"@,
        "END:VEVENT\r\n"@ == "END:VEVENT"@ + "\r\n"@,
        "END:VCALENDAR\r\n"@ == "END:VCALENDAR"@ + "\r\n"@,
{
    reveal_strlit("\r\n");
    reveal_strlit("BEGIN:VCALENDAR\r\n");
    reveal_strlit("BEGIN:VCALENDAR");
    reveal_strlit("VERSION:2.0\r\n");
    reveal_strlit("VERSION:2.0");
    reveal_strlit("PRODID:-//calrs//basecamp-bridge//EN\r\n");
    reveal_strlit("PRODID:-//calrs//basecamp-bridge//EN");
    reveal_strlit("BEGIN:VEVENT\r\n");
    reveal_strlit("BEGIN:VEVENT");
    reveal_strlit("TRANSP:OPAQUE\r\n");
    reveal_strlit("TRANSP:OPAQUE");
    reveal_strlit("END:VEVENT\r\n");
    reveal_strlit("END:VEVENT");
    reveal_strlit("END:VCALENDAR\r\n");
    reveal_strlit("END:VCALENDAR");
    assert("BEGIN:VCALENDAR\r\n"@ =~= "BEGIN:VCALENDAR"@ + "\r\n"@);
    assert("VERSION:2.0\r\n"@ =~= "VERSION:2.0"@ + "\r\n"@);
    assert("PRODID:-//calrs//basecamp-bridge//EN\r\n"@ =~= "PRODID:-//calrs//basecamp-bridge//EN"@
        + "\r\n"@);
    assert("BEGIN:VEVENT\r\n"@ =~= "BEGIN:VEVENT"@ + "\r\n"@);
    assert("TRANSP:OPAQUE\r\n"@ =~= "TRANSP:OPAQUE"@ + "\r\n"@);
    assert("END:VEVENT\r\n"@ =~= "END:VEVENT"@ + "\r\n"@);
    assert("END:VCALENDAR\r\n"@ =~= "END:VCALENDAR"@ + "\r\n"@);
}

proof fn lemma_regroup(
    p: Seq<char>,
    t: Seq<char>,
    s: Seq<char>,
    u: Seq<char>,
    l: Seq<char>,
    c: Seq<char>,
)
    ensures
        p + (t + s + u + l) + c == p + t + s + u + l + c,
{
    assert(p + (t + s + u + l) + c =~= p + t + s + u + l + c);
}

proof fn lemma_regroup_times(
    p: Seq<char>,
    a: (Seq<char>, Seq<char>),
    b: (Seq<char>, Seq<char>),
    c: (Seq<char>, Seq<char>),
    d: (Seq<char>, Seq<char>),
    n: Seq<char>,
)
    ensures
        p + a.0 + a.1 + n + b.0 + b.1 + n + c.0 + c.1 + n + d.0 + d.1 + n == p + ((a.0 + a.1) + n
            + (b.0 + b.1) + n + (c.0 + c.1) + n + (d.0 + d.1) + n),
{
    let first = p + a.0 + a.1 + n;
    assert(first =~= p + ((a.0 + a.1) + n));
    let second = first + b.0 + b.1 + n;
    assert(second =~= p + ((a.0 + a.1) + n + (b.0 + b.1) + n));
    let third = second + c.0 + c.1 + n;
    assert(third =~= p + ((a.0 + a.1) + n + (b.0 + b.1) + n + (c.0 + c.1) + n));
    assert(third + d.0 + d.1 + n =~= p + ((a.0 + a.1) + n + (b.0 + b.1) + n + (c.0 + c.1) + n + (d.0
        + d.1) + n));
}

proof fn lemma_regroup_tail(
    p: Seq<char>,
    t: Seq<char>,
    s: (Seq<char>, Seq<char>),
    e: Seq<char>,
    c: Seq<char>,
    n: Seq<char>,
)
    ensures
        p + (t + n) + s.0 + s.1 + n + (e + n) + (c + n) == p + (t + n + (s.0 + s.1) + n) + (e + n
            + c + n),
{
    let first = p + (t + n) + s.0 + s.1 + n;
    assert(first =~= p + (t + n + (s.0 + s.1) + n));
    assert(first + (e + n) + (c + n) =~= first + (e + n + c + n));
}

/// The calendar text of an entry is its lines, each with its line break.
proof fn lemma_calendar_text_is_lines(
    entry: ScheduleEntry,
    dtstart: Seq<char>,
    dtend: Seq<char>,
    dtstamp: Seq<char>,
)
    ensures
        ical::vcalendar_text(entry, dtstart, dtend, dtstamp) == broken(
            opening() + event_lines(entry, dtstart, dtend, dtstamp) + closing(),
        ),
{
    let n = "\r\n"@;
    let uid = "UID:"@ + ical::event_uid(entry);
    let stamp = "DTSTAMP:"@ + dtstamp;
    let start = "DTSTART"@ + dtstart;
    let end = "DTEND"@ + dtend;
    let status = "STATUS:"@ + ical::event_status(entry);
    let times = seq![uid, stamp, start, end];
    let tail = seq!["TRANSP:OPAQUE"@, status];
    let inner = event_lines(entry, dtstart, dtend, dtstamp);
    let summary = ical::event_summary(entry);
    let head = "BEGIN:VCALENDAR\r\n"@ + "VERSION:2.0\r\n"@
        + "PRODID:-//calrs//basecamp-bridge//EN\r\n"@ + "BEGIN:VEVENT\r\n"@;
    lemma_fixed_lines();
    lemma_broken_four(
        "BEGIN:VCALENDAR"@,
        "VERSION:2.0"@,
        "PRODID:-//calrs//basecamp-bridge//EN"@,
        "BEGIN:VEVENT"@,
    );
    assert(head =~= broken(opening()));
    lemma_broken_four(uid, stamp, start, end);
    lemma_broken_two("TRANSP:OPAQUE"@, status);
    lemma_broken_two("END:VEVENT"@, "END:VCALENDAR"@);
    lemma_broken_adds(opening() + inner, closing());
    lemma_broken_adds(opening(), inner);
    lemma_broken_adds(times + summary_lines(entry) + url_lines(entry), tail);
    lemma_broken_adds(times + summary_lines(entry), url_lines(entry));
    lemma_broken_adds(times, summary_lines(entry));
    if summary.len() > 0 {
        lemma_broken_one("SUMMARY:"@ + summary);
    }
    assert(broken(summary_lines(entry)) == ical::optional_line("SUMMARY:"@, summary));
    if url_lines(entry).len() > 0 {
        lemma_broken_one(url_lines(entry)[0]);
        assert(url_lines(entry) =~= seq![url_lines(entry)[0]]);
    }
    assert(broken(url_lines(entry)) == ical::url_line(entry));
    lemma_regroup(
        head,
        broken(times),
        broken(summary_lines(entry)),
        broken(url_lines(entry)),
        broken(tail),
        broken(closing()),
    );
    lemma_regroup_times(
        head,
        ("UID:"@, ical::event_uid(entry)),
        ("DTSTAMP:"@, dtstamp),
        ("DTSTART"@, dtstart),
        ("DTEND"@, dtend),
        n,
    );
    lemma_regroup_tail(
        head + broken(times) + broken(summary_lines(entry)) + broken(url_lines(entry)),
        "TRANSP:OPAQUE"@,
        ("STATUS:"@, ical::event_status(entry)),
        "END:VEVENT"@,
        "END:VCALENDAR"@,
        n,
    );
}

proof fn lemma_escaped_is_one_line(s: Seq<char>)
    ensures
        is_one_line(ical::escaped(s)),
    decreases s.len(),
{
    if s.len() > 0 {
        let head = ical::escaped_char(s[0]);
        let tail = ical::escaped(s.skip(1));
        lemma_escaped_is_one_line(s.skip(1));
        assert forall|i: int| 0 <= i < ical::escaped(s).len() implies #[trigger] ical::escaped(s)[i]
            != '\n' && ical::escaped(s)[i] != '\r' by {
            if i < head.len() {
                assert(ical::escaped(s)[i] == head[i]);
            } else {
                assert(ical::escaped(s)[i] == tail[i - head.len()]);
            }
        }
    }
}

proof fn lemma_one_line_adds(a: Seq<char>, b: Seq<char>)
    requires
        is_one_line(a),
        is_one_line(b),
    ensures
        is_one_line(a + b),
{
    assert forall|i: int| 0 <= i < (a + b).len() implies #[trigger] (a + b)[i] != '\n' && (a + b)[i]
        != '\r' by {
        if i < a.len() {
            assert((a + b)[i] == a[i]);
        } else {
            assert((a + b)[i] == b[i - a.len()]);
        }
    }
}

/// Every property of an entry's event is one line that starts with its name.
proof fn lemma_event_lines(
    entry: ScheduleEntry,
    dtstart: Seq<char>,
    dtend: Seq<char>,
    dtstamp: Seq<char>,
)
    requires
        is_one_line(ical::event_uid(entry)),
        is_one_line(dtstart),
        is_one_line(dtend),
        is_one_line(dtstamp),
    ensures
        forall|i: int|
            0 <= i < event_lines(entry, dtstart, dtend, dtstamp).len() ==> is_one_line(
                #[trigger] event_lines(entry, dtstart, dtend, dtstamp)[i],
            ) && is_property(event_lines(entry, dtstart, dtend, dtstamp)[i]),
{
    reveal_strlit("UID:");
    reveal_strlit("DTSTAMP:");
    reveal_strlit("DTSTART");
    reveal_strlit("DTEND");
    reveal_strlit("SUMMARY:");
    reveal_strlit("URL:");
    reveal_strlit("TRANSP:OPAQUE");
    reveal_strlit("STATUS:");
    reveal_strlit("CANCELLED");
    reveal_strlit("CONFIRMED");
    lemma_one_line_adds("UID:"@, ical::event_uid(entry));
    lemma_one_line_adds("DTSTAMP:"@, dtstamp);
    lemma_one_line_adds("DTSTART"@, dtstart);
    lemma_one_line_adds("DTEND"@, dtend);
    lemma_one_line_adds("STATUS:"@, ical::event_status(entry));
    match text::opt_string_view(entry.summary) {
        Some(s) => {
            lemma_escaped_is_one_line(s);
            lemma_one_line_adds("SUMMARY:"@, ical::escaped(s));
        },
        None => {},
    }
    match text::opt_string_view(entry.app_url) {
        Some(s) => {
            lemma_escaped_is_one_line(s);
            lemma_one_line_adds("URL:"@, ical::escaped(s));
        },
        None => {},
    }
    let lines = event_lines(entry, dtstart, dtend, dtstamp);
    let n = summary_lines(entry).len() as int;
    let m = url_lines(entry).len() as int;
    assert forall|i: int| 0 <= i < lines.len() implies is_one_line(#[trigger] lines[i])
        && is_property(lines[i]) by {
        if i < 4 {
        } else if i < 4 + n {
            assert(lines[i] == summary_lines(entry)[i - 4]);
        } else if i < 4 + n + m {
            assert(lines[i] == url_lines(entry)[i - 4 - n]);
        } else {
        }
    }
}

/// The calendar text of an entry holds one event, and its lines are the properties that were
/// written.
pub proof fn law_calendar_text_reads_back(
    entry: ScheduleEntry,
    dtstart: Seq<char>,
    dtend: Seq<char>,
    dtstamp: Seq<char>,
)
    requires
        is_one_line(ical::event_uid(entry)),
        is_one_line(dtstart),
        is_one_line(dtend),
        is_one_line(dtstamp),
    ensures
        utils::vevents(ical::vcalendar_text(entry, dtstart, dtend, dtstamp)) == seq![
            event_lines(entry, dtstart, dtend, dtstamp),
        ],
{
    let inner = event_lines(entry, dtstart, dtend, dtstamp);
    let all = opening() + inner + closing();
    let s = ical::vcalendar_text(entry, dtstart, dtend, dtstamp);
    let n = inner.len() as int;
    lemma_event_lines(entry, dtstart, dtend, dtstamp);
    lemma_calendar_text_is_lines(entry, dtstart, dtend, dtstamp);
    lemma_delimiters();
    assert forall|i: int| 0 <= i < all.len() implies is_one_line(#[trigger] all[i])
        && !utils::is_folded(all[i]) by {
        if 4 <= i < 4 + n {
            assert(all[i] == inner[i - 4]);
            lemma_property_is_no_delimiter(inner[i - 4]);
        }
    }
    assert(Seq::<char>::empty() + s =~= s);
    lemma_lines_read_back(Seq::empty(), all);
    lemma_nothing_to_unfold(all);
    assert(utils::content_lines(s) == all);
    assert forall|i: int| 4 <= i < 4 + n implies is_property(#[trigger] all[i]) by {
        assert(all[i] == inner[i - 4]);
    }
    lemma_properties_are_collected(all, 4, 4 + n, Seq::empty());
    assert(Seq::<Seq<char>>::empty() + all.subrange(4, 4 + n) =~= inner);
    assert(all.take(4) =~= opening());
    assert(all.skip(4 + n) =~= closing());
    lemma_events_of_lines(all, n, inner);
}

proof fn lemma_delimiters()
    ensures
        forall|i: int| 0 <= i < 4 ==> is_one_line(#[trigger] opening()[i]) && !utils::is_folded(
            opening()[i],
        ),
        forall|i: int| 0 <= i < 2 ==> is_one_line(#[trigger] closing()[i]) && !utils::is_folded(
            closing()[i],
        ),
{
    reveal_strlit("BEGIN:VCALENDAR");
    reveal_strlit("VERSION:2.0");
    reveal_strlit("PRODID:-//calrs//basecamp-bridge//EN");
    reveal_strlit("BEGIN:VEVENT");
    reveal_strlit("END:VEVENT");
    reveal_strlit("END:VCALENDAR");
}

proof fn lemma_events_of_lines(all: Seq<Seq<char>>, n: int, inner: Seq<Seq<char>>)
    requires
        n >= 0,
        all.len() == n + 6,
        all.take(4) == opening(),
        all.skip(4 + n) == closing(),
        utils::vevents_from(all, 4, Some(Seq::empty())) == utils::vevents_from(
            all,
            4 + n,
            Some(inner),
        ),
    ensures
        utils::vevents_from(all, 0, None) == seq![inner],
{
    reveal_strlit("BEGIN:VCALENDAR");
    reveal_strlit("VERSION:2.0");
    reveal_strlit("PRODID:-//calrs//basecamp-bridge//EN");
    reveal_strlit("BEGIN:VEVENT");
    reveal_strlit("END:VEVENT");
    reveal_strlit("END:VCALENDAR");
    assert(all[0] == all.take(4)[0] && all[1] == all.take(4)[1] && all[2] == all.take(4)[2]
        && all[3] == all.take(4)[3]);
    assert(all[4 + n] == all.skip(4 + n)[0] && all[5 + n] == all.skip(4 + n)[1]);
    text::lemma_trimmed_keeps("BEGIN:VCALENDAR"@);
    text::lemma_trimmed_keeps("VERSION:2.0"@);
    text::lemma_trimmed_keeps("PRODID:-//calrs//basecamp-bridge//EN"@);
    text::lemma_trimmed_keeps("BEGIN:VEVENT"@);
    text::lemma_trimmed_keeps("END:VEVENT"@);
    text::lemma_trimmed_keeps("END:VCALENDAR"@);
    assert("BEGIN:VCALENDAR"@.len() == 15 && "VERSION:2.0"@.len() == 11 && "BEGIN:VEVENT"@.len()
        == 12 && "END:VEVENT"@.len() == 10 && "END:VCALENDAR"@.len() == 13
        && "PRODID:-//calrs//basecamp-bridge//EN"@.len() == 36);
    let none: Option<Seq<Seq<char>>> = None;
    assert(utils::vevents_from(all, 6 + n, none) =~= Seq::<Seq<Seq<char>>>::empty());
    assert(utils::vevents_from(all, 5 + n, none) == utils::vevents_from(all, 6 + n, none));
    assert(utils::vevents_from(all, 4 + n, Some(inner)) == seq![inner] + utils::vevents_from(
        all,
        5 + n,
        none,
    ));
    assert(utils::vevents_from(all, 4 + n, Some(inner)) =~= seq![inner]);
    assert(utils::vevents_from(all, 3, none) == utils::vevents_from(all, 4, Some(Seq::empty())));
    assert(utils::vevents_from(all, 2, none) == utils::vevents_from(all, 3, none));
    assert(utils::vevents_from(all, 1, none) == utils::vevents_from(all, 2, none));
    assert(utils::vevents_from(all, 0, none) == utils::vevents_from(all, 1, none));
}

// ---------------------------------------------------------------------------
// The payload of a calendar text
// ---------------------------------------------------------------------------

proof fn lemma_colon_is(line: Seq<char>, from: int, i: int)
    requires
        0 <= from <= i < line.len(),
        line[i] == ':',
        forall|j: int| from <= j < i ==> line[j] != ':' && line[j] != '"',
    ensures
        utils::colon_from(line, from, false) == Some(i),
    decreases i - from,
{
    if from < i {
        lemma_colon_is(line, from + 1, i);
    }
}

/// The first line of a property is the one whose value is found.
proof fn lemma_field_is(lines: Seq<Seq<char>>, name: Seq<char>, from: int, i: int)
    requires
        0 <= from <= i < lines.len(),
        utils::property_value(lines[i], name) is Some,
        forall|j: int| from <= j < i ==> utils::property_value(#[trigger] lines[j], name) is None,
    ensures
        utils::field_from(lines, name, from) == utils::property_value(lines[i], name),
    decreases i - from,
{
    if from < i {
        assert(utils::property_value(lines[from], name) is None);
        lemma_field_is(lines, name, from + 1, i);
    }
}

/// Where no line is one of the property, it has no value.
proof fn lemma_field_is_none(lines: Seq<Seq<char>>, name: Seq<char>, from: int)
    requires
        0 <= from <= lines.len(),
        forall|j: int|
            from <= j < lines.len() ==> utils::property_value(#[trigger] lines[j], name) is None,
    ensures
        utils::field_from(lines, name, from) is None,
    decreases lines.len() - from,
{
    if from < lines.len() {
        assert(utils::property_value(lines[from], name) is None);
        lemma_field_is_none(lines, name, from + 1);
    }
}

/// A line whose start differs from the name is none of that property.
proof fn lemma_other_property(line: Seq<char>, name: Seq<char>, k: int)
    requires
        0 <= k < name.len(),
        k < line.len() ==> line[k] != name[k],
    ensures
        utils::property_value(line, name) is None,
{
    if name.len() < line.len() && line.take(name.len() as int) == name {
        assert(line.take(name.len() as int)[k] == line[k]);
    }
}

/// What a property says: the text after the colon, with or without the parameter that makes it a
/// date.
proof fn lemma_property_value(name: Seq<char>, value: Seq<char>)
    requires
        forall|j: int| 0 <= j < name.len() ==> name[j] != ':' && name[j] != '"',
    ensures
        utils::property_value(name + (":"@ + value), name) == Some(value),
        utils::property_value(name + (";VALUE=DATE:"@ + value), name) == Some(value),
{
    reveal_strlit(":");
    reveal_strlit(";VALUE=DATE:");
    let n = name.len() as int;
    let plain = name + (":"@ + value);
    assert(plain.take(n) =~= name);
    lemma_colon_is(plain, n, n);
    assert(plain.skip(n + 1) =~= value);
    let dated = name + (";VALUE=DATE:"@ + value);
    assert(dated.take(n) =~= name);
    assert(dated[n] == ';');
    assert forall|j: int| n <= j < n + 11 implies dated[j] != ':' && dated[j] != '"' by {
        assert(dated[j] == ";VALUE=DATE:"@[j - n]);
    }
    assert(dated[n + 11] == ";VALUE=DATE:"@[11]);
    lemma_colon_is(dated, n, n + 11);
    assert(dated.skip(n + 12) =~= value);
}

/// Start, end and summary of an entry's event are found as they were written, and nothing is
/// found that was not.
proof fn lemma_event_fields(
    entry: ScheduleEntry,
    start: Seq<char>,
    end: Seq<char>,
    dtstamp: Seq<char>,
    dated: bool,
)
    ensures
        ({
            let mark = if dated {
                ";VALUE=DATE:"@
            } else {
                ":"@
            };
            let lines = event_lines(entry, mark + start, mark + end, dtstamp);
            &&& utils::field(lines, "DTSTART"@) == Some(start)
            &&& utils::field(lines, "DTEND"@) == Some(end)
            &&& utils::field(lines, "SUMMARY"@) == if ical::event_summary(entry).len() == 0 {
                None
            } else {
                Some(ical::event_summary(entry))
            }
            &&& utils::field(lines, "DESCRIPTION"@) is None
            &&& utils::field(lines, "LOCATION"@) is None
        }),
{
    let mark = if dated {
        ";VALUE=DATE:"@
    } else {
        ":"@
    };
    let lines = event_lines(entry, mark + start, mark + end, dtstamp);
    let summary = ical::event_summary(entry);
    let n = summary_lines(entry).len() as int;
    let m = url_lines(entry).len() as int;
    reveal_strlit("UID:");
    reveal_strlit("DTSTAMP:");
    reveal_strlit("DTSTART");
    reveal_strlit("DTEND");
    reveal_strlit("SUMMARY");
    reveal_strlit("SUMMARY:");
    reveal_strlit("URL:");
    reveal_strlit("TRANSP:OPAQUE");
    reveal_strlit("STATUS:");
    reveal_strlit("DESCRIPTION");
    reveal_strlit("LOCATION");
    reveal_strlit(":");
    lemma_property_value("DTSTART"@, start);
    lemma_property_value("DTEND"@, end);
    lemma_property_value("SUMMARY"@, summary);
    assert("SUMMARY:"@ + summary =~= "SUMMARY"@ + (":"@ + summary));
    assert forall|i: int| 4 <= i < 4 + n implies lines[i] == "SUMMARY:"@ + summary by {
        assert(lines[i] == summary_lines(entry)[i - 4]);
    }
    assert forall|i: int| 4 + n <= i < 4 + n + m implies lines[i][0] == 'U' && lines[i].len() > 0 by {
        assert(lines[i] == url_lines(entry)[i - 4 - n]);
    }
    assert(lines[4 + n + m] == "TRANSP:OPAQUE"@);
    assert(lines[4 + n + m + 1] == "STATUS:"@ + ical::event_status(entry));
    // Where each line differs from each name.
    lemma_other_property(lines[0], "DTSTART"@, 0);
    lemma_other_property(lines[1], "DTSTART"@, 5);
    lemma_field_is(lines, "DTSTART"@, 0, 2);
    lemma_other_property(lines[0], "DTEND"@, 0);
    lemma_other_property(lines[1], "DTEND"@, 2);
    lemma_other_property(lines[2], "DTEND"@, 2);
    lemma_field_is(lines, "DTEND"@, 0, 3);
    assert forall|j: int| 0 <= j < lines.len() implies utils::property_value(
        #[trigger] lines[j],
        "DESCRIPTION"@,
    ) is None by {
        if 1 <= j < 4 {
            lemma_other_property(lines[j], "DESCRIPTION"@, 1);
        } else {
            lemma_other_property(lines[j], "DESCRIPTION"@, 0);
        }
    }
    lemma_field_is_none(lines, "DESCRIPTION"@, 0);
    assert forall|j: int| 0 <= j < lines.len() implies utils::property_value(
        #[trigger] lines[j],
        "LOCATION"@,
    ) is None by {
        lemma_other_property(lines[j], "LOCATION"@, 0);
    }
    lemma_field_is_none(lines, "LOCATION"@, 0);
    assert forall|j: int|
        0 <= j < lines.len() && !(4 <= j < 4 + n) implies utils::property_value(
        #[trigger] lines[j],
        "SUMMARY"@,
    ) is None by {
        if j == 4 + n + m + 1 {
            lemma_other_property(lines[j], "SUMMARY"@, 1);
        } else {
            lemma_other_property(lines[j], "SUMMARY"@, 0);
        }
    }
    if n == 0 {
        lemma_field_is_none(lines, "SUMMARY"@, 0);
    } else {
        lemma_field_is(lines, "SUMMARY"@, 0, 4);
    }
}

/// The summary that is written for an entry that was read: its own without carriage returns, or
/// `Booking` where it has none that can be seen.
pub open spec fn kept_summary(entry: ScheduleEntry) -> Seq<char> {
    match text::opt_string_view(entry.summary) {
        Some(s) => if text::trimmed(laws::without_returns(s)).len() == 0 {
            "Booking"@
        } else {
            laws::without_returns(s)
        },
        None => "Booking"@,
    }
}

proof fn lemma_summary_is_kept(entry: ScheduleEntry, event: Seq<Seq<char>>)
    requires
        utils::field(event, "SUMMARY"@) == if ical::event_summary(entry).len() == 0 {
            None
        } else {
            Some(ical::event_summary(entry))
        },
    ensures
        ical::booking_summary(event) == kept_summary(entry),
{
    match text::opt_string_view(entry.summary) {
        Some(s) => {
            laws::law_unescape_undoes_escape(s);
            if ical::escaped(s).len() == 0 {
                assert(ical::unescaped(ical::escaped(s)) =~= Seq::<char>::empty());
                assert(text::trimmed(laws::without_returns(s)).len() == 0);
            }
        },
        None => {},
    }
}

proof fn lemma_own_description(uid: Seq<char>, event: Seq<Seq<char>>)
    requires
        utils::field(event, "DESCRIPTION"@) is None,
        utils::field(event, "LOCATION"@) is None,
    ensures
        ical::booking_description(uid, event) == ical::paragraph_text(ical::marker_text(uid)),
{
    assert(ical::booking_description(uid, event) =~= ical::paragraph_text(ical::marker_text(uid)));
}

proof fn lemma_digits_are_one_line(n: int)
    requires
        0 <= n < 100,
    ensures
        is_one_line(decimal::two_digits(n)),
{
    let s = decimal::two_digits(n);
    assert(s[0] == decimal::digit_char(n / 10) && s[1] == decimal::digit_char(n % 10));
}

proof fn lemma_numeral_is_one_line(n: nat)
    ensures
        is_one_line(decimal::digits(n)),
{
    decimal::lemma_digits(n);
    assert forall|i: int| 0 <= i < decimal::digits(n).len() implies #[trigger] decimal::digits(n)[i]
        != '\n' && decimal::digits(n)[i] != '\r' by {
        assert(decimal::is_digit(decimal::digits(n)[i]));
    }
}

proof fn lemma_year_is_one_line(year: int)
    ensures
        is_one_line(time::year_text(year)),
{
    let magnitude = if year < 0 {
        -year
    } else {
        year
    };
    lemma_numeral_is_one_line(magnitude as nat);
    if magnitude <= 9999 {
        lemma_digits_are_one_line(magnitude / 100);
        lemma_digits_are_one_line(magnitude % 100);
        lemma_one_line_adds(
            decimal::two_digits(magnitude / 100),
            decimal::two_digits(magnitude % 100),
        );
    }
    lemma_one_line_adds(seq!['+'], decimal::digits(magnitude as nat));
    lemma_one_line_adds(seq!['-'], decimal::digits(magnitude as nat));
    if magnitude <= 9999 {
        lemma_one_line_adds(seq!['-'], decimal::four_digits(magnitude));
    }
}

proof fn lemma_compact_date_is_one_line(d: CivilDate)
    requires
        d.valid(),
    ensures
        is_one_line(time::compact_date_text(d)),
{
    let year = time::year_text(d.year as int);
    lemma_year_is_one_line(d.year as int);
    lemma_digits_are_one_line(d.month as int);
    lemma_digits_are_one_line(d.day as int);
    lemma_one_line_adds(year, decimal::two_digits(d.month as int));
    lemma_one_line_adds(
        year + decimal::two_digits(d.month as int),
        decimal::two_digits(d.day as int),
    );
}

proof fn lemma_compact_utc_is_one_line(t: UtcDateTime)
    requires
        t.valid(),
    ensures
        is_one_line(time::compact_utc_text(t)),
{
    let date = time::compact_date_text(t.date);
    let hour = decimal::two_digits(t.hour as int);
    let minute = decimal::two_digits(t.minute as int);
    let second = decimal::two_digits(t.shown_second());
    lemma_compact_date_is_one_line(t.date);
    lemma_digits_are_one_line(t.hour as int);
    lemma_digits_are_one_line(t.minute as int);
    lemma_digits_are_one_line(t.shown_second());
    lemma_one_line_adds(date, seq!['T']);
    lemma_one_line_adds(date + seq!['T'], hour);
    lemma_one_line_adds(date + seq!['T'] + hour, minute);
    lemma_one_line_adds(date + seq!['T'] + hour + minute, second);
    lemma_one_line_adds(date + seq!['T'] + hour + minute + second, seq!['Z']);
}

/// The payload of a text with one event that has these times and tells nothing but a summary.
proof fn lemma_payload_of_times(
    uid: Seq<char>,
    ics: Seq<char>,
    event: Seq<Seq<char>>,
    raw: (Seq<char>, Seq<char>),
    told: (Seq<char>, Seq<char>),
)
    requires
        utils::vevents(ics) == seq![event],
        utils::field(event, "DTSTART"@) == Some(raw.0),
        utils::field(event, "DTEND"@) == Some(raw.1),
        utils::field(event, "DESCRIPTION"@) is None,
        utils::field(event, "LOCATION"@) is None,
        ical::booking_times(raw.0, raw.1) == Ok::<(Seq<char>, Seq<char>), Failure<Seq<char>>>(told),
    ensures
        ical::booking_payload(uid, ics) == Ok::<PayloadView, Failure<Seq<char>>>(
            PayloadView {
                summary: ical::booking_summary(event),
                starts_at: told.0,
                ends_at: told.1,
                description: Some(ical::paragraph_text(ical::marker_text(uid))),
                all_day: ical::date_only(raw.0),
                notify: false,
            },
        ),
{
    lemma_own_description(uid, event);
    assert(utils::vevents(ics)[0] == event);
}

/// The payload of the calendar text of an entry, given what its times are written as.
proof fn lemma_entry_is_written(
    entry: ScheduleEntry,
    dated: bool,
    raw: (Seq<char>, Seq<char>),
    stamp: Seq<char>,
    told: (Seq<char>, Seq<char>),
    uid: Seq<char>,
)
    requires
        is_one_line(raw.0) && is_one_line(raw.1) && is_one_line(stamp),
        is_one_line(ical::event_uid(entry)),
        ical::booking_times(raw.0, raw.1) == Ok::<(Seq<char>, Seq<char>), Failure<Seq<char>>>(told),
    ensures
        ({
            let mark = if dated {
                ";VALUE=DATE:"@
            } else {
                ":"@
            };
            ical::booking_payload(
                uid,
                ical::vcalendar_text(entry, mark + raw.0, mark + raw.1, stamp),
            ) == Ok::<PayloadView, Failure<Seq<char>>>(
                PayloadView {
                    summary: kept_summary(entry),
                    starts_at: told.0,
                    ends_at: told.1,
                    description: Some(ical::paragraph_text(ical::marker_text(uid))),
                    all_day: ical::date_only(raw.0),
                    notify: false,
                },
            )
        }),
{
    let mark = if dated {
        ";VALUE=DATE:"@
    } else {
        ":"@
    };
    reveal_strlit(":");
    reveal_strlit(";VALUE=DATE:");
    let event = event_lines(entry, mark + raw.0, mark + raw.1, stamp);
    let ics = ical::vcalendar_text(entry, mark + raw.0, mark + raw.1, stamp);
    lemma_one_line_adds(mark, raw.0);
    lemma_one_line_adds(mark, raw.1);
    law_calendar_text_reads_back(entry, mark + raw.0, mark + raw.1, stamp);
    lemma_event_fields(entry, raw.0, raw.1, stamp, dated);
    lemma_summary_is_kept(entry, event);
    lemma_payload_of_times(uid, ics, event, raw, told);
}

/// The calendar text of a timed entry, written as a booking, is an entry with the same summary but
/// for carriage returns and, to the second, the same times.
pub proof fn law_timed_entry_is_written_as_it_was_read(
    entry: ScheduleEntry,
    from: UtcDateTime,
    to: UtcDateTime,
    now: UtcDateTime,
    uid: Seq<char>,
)
    requires
        from.valid() && from.date.four_digit_year() && from.nanos < 1_000_000_000,
        to.valid() && to.date.four_digit_year() && to.nanos < 1_000_000_000,
        now.valid(),
        is_one_line(ical::event_uid(entry)),
    ensures
        ical::booking_payload(
            uid,
            ical::vcalendar_text(
                entry,
                ":"@ + time::compact_utc_text(from),
                ":"@ + time::compact_utc_text(to),
                time::compact_utc_text(now),
            ),
        ) == Ok::<PayloadView, Failure<Seq<char>>>(
            PayloadView {
                summary: kept_summary(entry),
                starts_at: time::zulu_text(from),
                ends_at: time::zulu_text(to),
                description: Some(ical::paragraph_text(ical::marker_text(uid))),
                all_day: false,
                notify: false,
            },
        ),
{
    lemma_compact_utc_is_one_line(from);
    lemma_compact_utc_is_one_line(to);
    lemma_compact_utc_is_one_line(now);
    laws::law_timestamps_read_back(from, to);
    lemma_entry_is_written(
        entry,
        false,
        (time::compact_utc_text(from), time::compact_utc_text(to)),
        time::compact_utc_text(now),
        (time::zulu_text(from), time::zulu_text(to)),
        uid,
    );
}

/// The calendar text of an all-day entry, written as a booking, is an entry with the same summary
/// but for carriage returns, and the same days.
pub proof fn law_all_day_entry_is_written_as_it_was_read(
    entry: ScheduleEntry,
    first: CivilDate,
    last: CivilDate,
    now: UtcDateTime,
    uid: Seq<char>,
)
    requires
        first.valid() && first.four_digit_year(),
        last.valid() && last.four_digit_year() && time::next_day(last).four_digit_year(),
        now.valid(),
        is_one_line(ical::event_uid(entry)),
    ensures
        ical::booking_payload(
            uid,
            ical::vcalendar_text(
                entry,
                ";VALUE=DATE:"@ + time::compact_date_text(first),
                ";VALUE=DATE:"@ + time::compact_date_text(time::next_day(last)),
                time::compact_utc_text(now),
            ),
        ) == Ok::<PayloadView, Failure<Seq<char>>>(
            PayloadView {
                summary: kept_summary(entry),
                starts_at: time::iso_date_text(first),
                ends_at: time::iso_date_text(last),
                description: Some(ical::paragraph_text(ical::marker_text(uid))),
                all_day: true,
                notify: false,
            },
        ),
{
    time::law_next_day_undone(last);
    lemma_compact_date_is_one_line(first);
    lemma_compact_date_is_one_line(time::next_day(last));
    lemma_compact_utc_is_one_line(now);
    laws::law_all_day_dates_read_back(first, last);
    lemma_entry_is_written(
        entry,
        true,
        (time::compact_date_text(first), time::compact_date_text(time::next_day(last))),
        time::compact_utc_text(now),
        (time::iso_date_text(first), time::iso_date_text(last)),
        uid,
    );
}

// ---------------------------------------------------------------------------
// The UID of an event
// ---------------------------------------------------------------------------

/// A description carries the UID that stands, white space aside, between the first `[calrs-uid:`
/// and the next closing bracket; a blank there, or no closing bracket, is no UID.
pub proof fn law_carried_uid_stands_in_the_marker(
    before: Seq<char>,
    inside: Seq<char>,
    after: Seq<char>,
)
    requires
        forall|j: int|
            0 <= j < before.len() ==> !text::occurs_at(
                before + "[calrs-uid:"@ + inside + after,
                "[calrs-uid:"@,
                j,
            ),
        forall|i: int| 0 <= i < inside.len() ==> #[trigger] inside[i] != ']',
        after.len() > 0 ==> after[0] == ']',
    ensures
        ical::carried_uid(Some(before + "[calrs-uid:"@ + inside + after)) == if after.len() == 0 || (
        forall|i: int| 0 <= i < inside.len() ==> text::is_space(#[trigger] inside[i])) {
            None
        } else {
            Some(text::trimmed(inside))
        },
{
    let prefix = "[calrs-uid:"@;
    let d = before + prefix + inside + after;
    let at = before.len() as int;
    let start = at + prefix.len();
    let end = start + inside.len();
    assert(d.subrange(at, start) =~= prefix);
    text::lemma_find_text_is(d, prefix, at);
    assert forall|j: int| start <= j < end implies d[j] != ']' by {
        assert(d[j] == inside[j - start]);
    }
    if after.len() > 0 {
        assert(d[end] == after[0]);
        text::lemma_find_char_is(d, ']', start, end);
        assert(d.subrange(start, end) =~= inside);
    } else {
        text::lemma_find_char_from(d, ']', start);
    }
    text::law_trimming_takes_white_space_only(inside);
}

/// A description without a marker, and none at all, carries no UID.
pub proof fn law_without_a_marker_no_uid_is_carried(description: Seq<char>)
    requires
        forall|before: Seq<char>, after: Seq<char>|
            description != #[trigger] (before + "[calrs-uid:"@ + after),
    ensures
        ical::carried_uid(Some(description)) is None,
        ical::carried_uid(None) is None,
{
    text::law_containing_is_standing_between(description, "[calrs-uid:"@);
    text::lemma_find_from(description, "[calrs-uid:"@, 0);
    if text::find_text(description, "[calrs-uid:"@) is Some {
        let i = text::find_text(description, "[calrs-uid:"@)->0;
        assert(text::occurs_at(description, "[calrs-uid:"@, i));
    }
}

/// The event of an entry, timed or all-day, has the UID that the entry's description carries, or,
/// where it carries none, `bc-`, the entry's id and `@basecamp`: that is its `UID` line, the first
/// of the event.
pub proof fn law_event_has_the_carried_uid(entry: ScheduleEntry, ics: Seq<char>, uid: Seq<char>)
    requires
        ical::is_vcalendar_of(entry, Some(ics)),
        match ical::carried_uid(text::opt_string_view(entry.description)) {
            Some(carried) => uid == carried,
            None => uid == "bc-"@ + decimal::int_text(entry.id as int) + "@basecamp"@,
        },
    ensures
        exists|rest: Seq<char>|
            ics == "BEGIN:VCALENDAR\r\n"@ + "VERSION:2.0\r\n"@
                + "PRODID:-//calrs//basecamp-bridge//EN\r\n"@ + "BEGIN:VEVENT\r\n"@ + "UID:"@ + uid
                + "\r\n"@ + #[trigger] ("DTSTAMP:"@ + rest),
{
    let (dtstart, dtend) = ical::event_times(entry)->0;
    let now = choose|now: UtcDateTime|
        now.valid() && now.nanos < 1_000_000_000 && now.date.year >= 1970 && Some(ics) == Some(
            ical::vcalendar_text(entry, dtstart, dtend, #[trigger] time::compact_utc_text(now)),
        );
    lemma_uid_line(entry, dtstart, dtend, time::compact_utc_text(now), uid);
}

proof fn lemma_uid_line(
    entry: ScheduleEntry,
    dtstart: Seq<char>,
    dtend: Seq<char>,
    dtstamp: Seq<char>,
    uid: Seq<char>,
)
    requires
        ical::event_uid(entry) == uid,
    ensures
        exists|rest: Seq<char>|
            ical::vcalendar_text(entry, dtstart, dtend, dtstamp) == "BEGIN:VCALENDAR\r\n"@
                + "VERSION:2.0\r\n"@ + "PRODID:-//calrs//basecamp-bridge//EN\r\n"@
                + "BEGIN:VEVENT\r\n"@ + "UID:"@ + uid + "\r\n"@ + #[trigger] ("DTSTAMP:"@ + rest),
{
    let head = "BEGIN:VCALENDAR\r\n"@ + "VERSION:2.0\r\n"@
        + "PRODID:-//calrs//basecamp-bridge//EN\r\n"@ + "BEGIN:VEVENT\r\n"@ + "UID:"@ + uid
        + "\r\n"@;
    let times = dtstamp + "\r\n"@ + "DTSTART"@ + dtstart + "\r\n"@ + "DTEND"@ + dtend + "\r\n"@;
    let tail = ical::optional_line("SUMMARY:"@, ical::event_summary(entry)) + ical::url_line(entry)
        + "TRANSP:OPAQUE\r\n"@ + "STATUS:"@ + ical::event_status(entry) + "\r\n"@
        + "END:VEVENT\r\n"@ + "END:VCALENDAR\r\n"@;
    let stamped = head + ("DTSTAMP:"@ + times);
    assert(head + "DTSTAMP:"@ + dtstamp + "\r\n"@ + "DTSTART"@ + dtstart + "\r\n"@ + "DTEND"@
        + dtend + "\r\n"@ =~= stamped);
    lemma_regroup_end(
        stamped,
        ical::optional_line("SUMMARY:"@, ical::event_summary(entry)),
        ical::url_line(entry),
        "TRANSP:OPAQUE\r\n"@,
        "STATUS:"@,
        (ical::event_status(entry), "\r\n"@, "END:VEVENT\r\n"@, "END:VCALENDAR\r\n"@),
    );
    let rest = times + tail;
    assert(stamped + tail =~= head + ("DTSTAMP:"@ + rest));
}

proof fn lemma_regroup_end(
    p: Seq<char>,
    a: Seq<char>,
    b: Seq<char>,
    c: Seq<char>,
    d: Seq<char>,
    e: (Seq<char>, Seq<char>, Seq<char>, Seq<char>),
)
    ensures
        p + a + b + c + d + e.0 + e.1 + e.2 + e.3 == p + (a + b + c + d + e.0 + e.1 + e.2 + e.3),
{
    assert(p + a + b + c + d =~= p + (a + b + c + d));
    let q = a + b + c + d;
    assert(p + q + e.0 + e.1 =~= p + (q + e.0 + e.1));
    let r = q + e.0 + e.1;
    assert(p + r + e.2 + e.3 =~= p + (r + e.2 + e.3));
}

/// A booking comes back as its own: an entry with the description of the booking's payload,
/// all-day or timed, becomes an event with the booking's UID in its `UID` line. (The UID is one
/// that a description can carry, and neither notes nor location hold a marker of their own.)
pub proof fn law_booking_comes_back_with_its_uid(
    uid: Seq<char>,
    event: Seq<Seq<char>>,
    payload: PayloadView,
    entry: ScheduleEntry,
    ics: Seq<char>,
)
    requires
        laws::is_carriable(uid),
        !text::contains_text(ical::notes_part(event), "[calrs-uid:"@),
        !text::contains_text(ical::location_part(event), "[calrs-uid:"@),
        ical::event_payload(uid, event) == Ok::<PayloadView, Failure<Seq<char>>>(payload),
        text::opt_string_view(entry.description) == payload.description,
        ical::is_vcalendar_of(entry, Some(ics)),
    ensures
        ical::carried_uid(text::opt_string_view(entry.description)) == Some(uid),
        exists|rest: Seq<char>|
            ics == "BEGIN:VCALENDAR\r\n"@ + "VERSION:2.0\r\n"@
                + "PRODID:-//calrs//basecamp-bridge//EN\r\n"@ + "BEGIN:VEVENT\r\n"@ + "UID:"@ + uid
                + "\r\n"@ + #[trigger] ("DTSTAMP:"@ + rest),
{
    laws::law_booking_keeps_its_uid(uid, event);
    law_event_has_the_carried_uid(entry, ics, uid);
}

// ---------------------------------------------------------------------------
// The properties of an event
// ---------------------------------------------------------------------------

/// What the event of an entry says, read property by property: the UID that the entry carries or
/// else the synthetic one, the stamp, start and end that it was given, the escaped summary and
/// URL of the entry where these are not empty, that it takes up time, that it is cancelled where
/// the entry is trashed or archived and else confirmed, and nothing more.
pub proof fn law_event_says_what_the_entry_is(
    entry: ScheduleEntry,
    start: Seq<char>,
    end: Seq<char>,
    dtstamp: Seq<char>,
    dated: bool,
    uid: Seq<char>,
)
    requires
        is_one_line(start) && is_one_line(end) && is_one_line(dtstamp) && is_one_line(uid),
        match ical::carried_uid(text::opt_string_view(entry.description)) {
            Some(carried) => uid == carried,
            None => uid == "bc-"@ + decimal::int_text(entry.id as int) + "@basecamp"@,
        },
    ensures
        ({
            let mark = if dated {
                ";VALUE=DATE:"@
            } else {
                ":"@
            };
            let events = utils::vevents(
                ical::vcalendar_text(entry, mark + start, mark + end, dtstamp),
            );
            let event = events[0];
            &&& events.len() == 1
            &&& event.len() == 6 + (if utils::field(event, "SUMMARY"@) is Some {
                1int
            } else {
                0int
            }) + (if utils::field(event, "URL"@) is Some {
                1int
            } else {
                0int
            })
            &&& utils::field(event, "UID"@) == Some(uid)
            &&& utils::field(event, "DTSTAMP"@) == Some(dtstamp)
            &&& utils::field(event, "DTSTART"@) == Some(start)
            &&& utils::field(event, "DTEND"@) == Some(end)
            &&& utils::field(event, "SUMMARY"@) == match entry.summary {
                Some(s) => if ical::escaped(s@).len() == 0 {
                    None
                } else {
                    Some(ical::escaped(s@))
                },
                None => None,
            }
            &&& utils::field(event, "URL"@) == match entry.app_url {
                Some(u) => if u@.len() == 0 {
                    None
                } else {
                    Some(ical::escaped(u@))
                },
                None => None,
            }
            &&& utils::field(event, "TRANSP"@) == Some("OPAQUE"@)
            &&& utils::field(event, "STATUS"@) == match entry.status {
                Some(s) => if s@ == "trashed"@ || s@ == "archived"@ {
                    Some("CANCELLED"@)
                } else {
                    Some("CONFIRMED"@)
                },
                None => Some("CONFIRMED"@),
            }
        }),
{
    let mark = if dated {
        ";VALUE=DATE:"@
    } else {
        ":"@
    };
    reveal_strlit(":");
    reveal_strlit(";VALUE=DATE:");
    lemma_one_line_adds(mark, start);
    lemma_one_line_adds(mark, end);
    law_calendar_text_reads_back(entry, mark + start, mark + end, dtstamp);
    lemma_event_fields(entry, start, end, dtstamp, dated);
    lemma_other_event_fields(entry, mark + start, mark + end, dtstamp);
}

proof fn lemma_other_event_fields(
    entry: ScheduleEntry,
    dtstart: Seq<char>,
    dtend: Seq<char>,
    dtstamp: Seq<char>,
)
    ensures
        ({
            let lines = event_lines(entry, dtstart, dtend, dtstamp);
            &&& utils::field(lines, "UID"@) == Some(ical::event_uid(entry))
            &&& utils::field(lines, "DTSTAMP"@) == Some(dtstamp)
            &&& utils::field(lines, "TRANSP"@) == Some("OPAQUE"@)
            &&& utils::field(lines, "STATUS"@) == Some(ical::event_status(entry))
            &&& utils::field(lines, "URL"@) == match text::opt_string_view(entry.app_url) {
                Some(u) => if u.len() == 0 {
                    None
                } else {
                    Some(ical::escaped(u))
                },
                None => None,
            }
        }),
{
    let lines = event_lines(entry, dtstart, dtend, dtstamp);
    let n = summary_lines(entry).len() as int;
    let m = url_lines(entry).len() as int;
    let last = 4 + n + m;
    let uid = ical::event_uid(entry);
    let status = ical::event_status(entry);
    reveal_strlit("UID");
    reveal_strlit("UID:");
    reveal_strlit("DTSTAMP");
    reveal_strlit("DTSTAMP:");
    reveal_strlit("DTSTART");
    reveal_strlit("DTEND");
    reveal_strlit("SUMMARY:");
    reveal_strlit("URL");
    reveal_strlit("URL:");
    reveal_strlit("TRANSP");
    reveal_strlit("OPAQUE");
    reveal_strlit("TRANSP:OPAQUE");
    reveal_strlit("STATUS");
    reveal_strlit("STATUS:");
    reveal_strlit(":");
    lemma_property_value("UID"@, uid);
    lemma_property_value("DTSTAMP"@, dtstamp);
    lemma_property_value("TRANSP"@, "OPAQUE"@);
    lemma_property_value("STATUS"@, status);
    assert("UID:"@ + uid =~= "UID"@ + (":"@ + uid));
    assert("DTSTAMP:"@ + dtstamp =~= "DTSTAMP"@ + (":"@ + dtstamp));
    assert("TRANSP:OPAQUE"@ =~= "TRANSP"@ + (":"@ + "OPAQUE"@));
    assert("STATUS:"@ + status =~= "STATUS"@ + (":"@ + status));
    assert forall|i: int| 4 <= i < 4 + n implies lines[i] == summary_lines(entry)[0] by {
        assert(lines[i] == summary_lines(entry)[i - 4]);
    }
    assert forall|i: int| 4 + n <= i < last implies lines[i] == url_lines(entry)[0] by {
        assert(lines[i] == url_lines(entry)[i - 4 - n]);
    }
    assert(lines[last] == "TRANSP:OPAQUE"@);
    assert(lines[last + 1] == "STATUS:"@ + status);
    lemma_field_is(lines, "UID"@, 0, 0);
    lemma_other_property(lines[0], "DTSTAMP"@, 0);
    lemma_field_is(lines, "DTSTAMP"@, 0, 1);
    assert forall|j: int| 0 <= j < last implies utils::property_value(
        #[trigger] lines[j],
        "TRANSP"@,
    ) is None by {
        lemma_other_property(lines[j], "TRANSP"@, 0);
    }
    lemma_field_is(lines, "TRANSP"@, 0, last);
    assert forall|j: int| 0 <= j < last + 1 implies utils::property_value(
        #[trigger] lines[j],
        "STATUS"@,
    ) is None by {
        if 4 <= j < 4 + n {
            lemma_other_property(lines[j], "STATUS"@, 1);
        } else {
            lemma_other_property(lines[j], "STATUS"@, 0);
        }
    }
    lemma_field_is(lines, "STATUS"@, 0, last + 1);
    assert forall|j: int|
        0 <= j < lines.len() && !(4 + n <= j < last) implies utils::property_value(
        #[trigger] lines[j],
        "URL"@,
    ) is None by {
        if j == 0 {
            lemma_other_property(lines[j], "URL"@, 1);
        } else {
            lemma_other_property(lines[j], "URL"@, 0);
        }
    }
    if m == 0 {
        lemma_field_is_none(lines, "URL"@, 0);
    } else {
        let url = ical::escaped(text::opt_string_view(entry.app_url)->0);
        lemma_property_value("URL"@, url);
        assert("URL:"@ + url =~= "URL"@ + (":"@ + url));
        lemma_field_is(lines, "URL"@, 0, 4 + n);
    }
}

// ---------------------------------------------------------------------------
// The times of an event
// ---------------------------------------------------------------------------

/// The times of an entry are those that its texts say, white space around them aside. A timed
/// entry has the times of its two timestamps, in UTC. Of an all-day entry the start is its first
/// day and the end the day after its last, each a bare date or else the UTC date of a timestamp.
/// An entry that lacks one of the texts, or one of whose texts cannot be read so, has no times.
pub proof fn law_event_times_are_those_that_are_told(
    entry: ScheduleEntry,
    starts: Seq<char>,
    ends: Seq<char>,
)
    requires
        text::opt_string_view(entry.starts_at) == Some(starts),
        text::opt_string_view(entry.ends_at) == Some(ends),
        text::trimmed(starts).len() > 0,
        text::trimmed(ends).len() > 0,
    ensures
        !entry.all_day ==> match (
            time::rfc3339_utc(text::trimmed(starts)),
            time::rfc3339_utc(text::trimmed(ends)),
        ) {
            (Some(from), Some(to)) => ical::event_times(entry) == Some(
                (":"@ + time::compact_utc_text(from), ":"@ + time::compact_utc_text(to)),
            ),
            _ => ical::event_times(entry) is None,
        },
        entry.all_day ==> forall|first: Option<CivilDate>, last: Option<CivilDate>|
            #[trigger] is_day_of(text::trimmed(starts), first) && #[trigger] is_day_of(
                text::trimmed(ends),
                last,
            ) ==> match (first, last) {
                (Some(first), Some(last)) => ical::event_times(entry) == Some(
                    (
                        ";VALUE=DATE:"@ + time::compact_date_text(first),
                        ";VALUE=DATE:"@ + time::compact_date_text(time::next_day(last)),
                    ),
                ),
                _ => ical::event_times(entry) is None,
            },
{
    lemma_trimmed_twice(starts);
    lemma_trimmed_twice(ends);
}

/// Is this the day that a text says: that of a bare date, or else the UTC date of a timestamp?
pub open spec fn is_day_of(s: Seq<char>, day: Option<CivilDate>) -> bool {
    match (time::parsed_date(s, "%Y-%m-%d"@), time::rfc3339_utc(s)) {
        (Some(d), _) => day == Some(d),
        (None, Some(t)) => day == Some(t.date),
        (None, None) => day is None,
    }
}

proof fn lemma_trimmed_twice(s: Seq<char>)
    ensures
        text::trimmed(text::trimmed(s)) == text::trimmed(s),
{
    text::law_trimming_takes_white_space_only(s);
    text::lemma_trimmed_keeps(text::trimmed(s));
}

/// An entry without a start, without an end, or with a blank one cannot be placed on a timeline.
pub proof fn law_entries_without_times_have_no_event(entry: ScheduleEntry)
    requires
        entry.starts_at is None || entry.ends_at is None || text::trimmed(
            entry.starts_at->0@,
        ).len() == 0 || text::trimmed(entry.ends_at->0@).len() == 0,
    ensures
        ical::event_times(entry) is None,
        ical::is_vcalendar_of(entry, None),
{
}

/// Only an all-day entry that ends on the last day that can be represented has a day after it
/// that cannot be written.
pub proof fn law_only_the_last_day_is_past_the_calendar(entry: ScheduleEntry)
    ensures
        ical::ends_past_calendar(entry) ==> entry.all_day && entry.ends_at is Some && is_day_of(
            text::trimmed(entry.ends_at->0@),
            Some(CivilDate { year: 262142, month: 12, day: 31 }),
        ),
{
    if entry.ends_at is Some {
        lemma_trimmed_twice(entry.ends_at->0@);
    }
}

/// A boundary of an all-day entry is the day that its text says, white space around it aside.
pub proof fn law_boundaries_are_days(value: Seq<char>)
    ensures
        is_day_of(text::trimmed(value), ical::boundary_date(value)),
{
}

/// The calendar text of an entry closes its event and then the calendar, and ends there.
pub proof fn law_calendar_text_is_closed(
    entry: ScheduleEntry,
    dtstart: Seq<char>,
    dtend: Seq<char>,
    dtstamp: Seq<char>,
)
    ensures
        exists|before: Seq<char>|
            ical::vcalendar_text(entry, dtstart, dtend, dtstamp) == #[trigger] (before
                + "\r\nEND:VEVENT\r\nEND:VCALENDAR\r\n"@),
{
    let before = "BEGIN:VCALENDAR\r\n"@ + "VERSION:2.0\r\n"@
        + "PRODID:-//calrs//basecamp-bridge//EN\r\n"@ + "BEGIN:VEVENT\r\n"@ + "UID:"@
        + ical::event_uid(entry) + "\r\n"@ + "DTSTAMP:"@ + dtstamp + "\r\n"@ + "DTSTART"@ + dtstart
        + "\r\n"@ + "DTEND"@ + dtend + "\r\n"@ + ical::optional_line(
        "SUMMARY:"@,
        ical::event_summary(entry),
    ) + ical::url_line(entry) + "TRANSP:OPAQUE\r\n"@ + "STATUS:"@ + ical::event_status(entry);
    reveal_strlit("\r\n");
    reveal_strlit("END:VEVENT\r\n");
    reveal_strlit("END:VCALENDAR\r\n");
    reveal_strlit("\r\nEND:VEVENT\r\nEND:VCALENDAR\r\n");
    assert("\r\n"@ + "END:VEVENT\r\n"@ + "END:VCALENDAR\r\n"@
        =~= "\r\nEND:VEVENT\r\nEND:VCALENDAR\r\n"@);
    lemma_regroup_closing(before, "\r\n"@, "END:VEVENT\r\n"@, "END:VCALENDAR\r\n"@);
}

proof fn lemma_regroup_closing(p: Seq<char>, a: Seq<char>, b: Seq<char>, c: Seq<char>)
    ensures
        p + a + b + c == p + (a + b + c),
{
    assert(p + a + b + c =~= p + (a + b + c));
}

} // verus!
