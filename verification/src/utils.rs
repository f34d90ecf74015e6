//! The grammar of iCalendar text: content lines, events, properties, dates.

use vstd::prelude::*;
use crate::decimal;
use crate::text;
use crate::text::{chars_of, find_char, same, string_of, trim};
use crate::time;
use crate::time::{month_length, CivilDate, UtcDateTime};

verus! {

/// The characters of each text.
pub open spec fn texts(v: Seq<String>) -> Seq<Seq<char>> {
    v.map_values(|s: String| s@)
}

/// The characters of each text of each list.
pub open spec fn text_lists(v: Seq<Vec<String>>) -> Seq<Seq<Seq<char>>> {
    v.map_values(|l: Vec<String>| texts(l@))
}

// ---------------------------------------------------------------------------
// Lines
// ---------------------------------------------------------------------------

/// A line without the carriage return that ends it.
pub open spec fn without_cr(line: Seq<char>) -> Seq<char> {
    if line.len() > 0 && line.last() == '\r' {
        line.drop_last()
    } else {
        line
    }
}

/// The lines of `s` from index `from` on. A line ends with a line feed, or a carriage return and
/// a line feed; the last one may lack it.
pub open spec fn lines_from(s: Seq<char>, from: int) -> Seq<Seq<char>>
    decreases s.len() - from,
    when 0 <= from
    via lines_from_decreases
{
    if from >= s.len() {
        Seq::empty()
    } else {
        match text::find_char_from(s, '\n', from) {
            Some(i) => seq![without_cr(s.subrange(from, i))] + lines_from(s, i + 1),
            None => seq![s.subrange(from, s.len() as int)],
        }
    }
}

#[via_fn]
proof fn lines_from_decreases(s: Seq<char>, from: int) {
    if from < s.len() {
        crate::text::lemma_find_char_from(s, '\n', from);
    }
}

/// Does the line continue the one before it?
pub open spec fn is_folded(line: Seq<char>) -> bool {
    line.len() > 0 && (line[0] == ' ' || line[0] == '\t')
}

/// Lines with each folded line joined to the one before it.
pub open spec fn unfolded(lines: Seq<Seq<char>>) -> Seq<Seq<char>>
    decreases lines.len(),
{
    if lines.len() == 0 {
        Seq::empty()
    } else {
        let before = unfolded(lines.drop_last());
        let line = lines.last();
        if is_folded(line) && before.len() > 0 {
            before.drop_last().push(before.last() + line.skip(1))
        } else {
            before.push(line)
        }
    }
}

/// The content lines of an iCalendar text.
pub open spec fn content_lines(s: Seq<char>) -> Seq<Seq<char>> {
    unfolded(lines_from(s, 0))
}

/// The lines of a text.
fn lines_of(s: &str) -> (r: Vec<String>)
    ensures
        texts(r@) == lines_from(s@, 0),
{
    let cs = chars_of(s);
    let n: usize = cs.len();
    let mut out: Vec<String> = Vec::new();
    let mut from: usize = 0;
    assert(texts(out@) =~= Seq::<Seq<char>>::empty());
    assert(texts(out@) + lines_from(cs@, 0) =~= lines_from(cs@, 0));
    while from < n
        invariant
            n == cs@.len(),
            cs@ == s@,
            from <= n,
            texts(out@) + lines_from(s@, from as int) == lines_from(s@, 0),
        decreases n - from,
    {
        let ghost done = texts(out@);
        match find_char(&cs, '\n', from) {
            Some(i) => {
                let to: usize = if from < i && cs[i - 1] == '\r' {
                    i - 1
                } else {
                    i
                };
                let line = string_of(&cs, from, to);
                assert(line@ =~= without_cr(s@.subrange(from as int, i as int)));
                out.push(line);
                assert(texts(out@) =~= done.push(line@));
                assert(texts(out@) + lines_from(s@, i + 1) =~= done + lines_from(s@, from as int));
                from = i + 1;
            },
            None => {
                let line = string_of(&cs, from, n);
                out.push(line);
                assert(texts(out@) =~= done.push(line@));
                assert(lines_from(s@, n as int) =~= Seq::<Seq<char>>::empty());
                assert(texts(out@) + lines_from(s@, n as int) =~= done + lines_from(
                    s@,
                    from as int,
                ));
                from = n;
            },
        }
    }
    assert(texts(out@) =~= texts(out@) + lines_from(s@, n as int));
    out
}

/// The content lines of an iCalendar text.
pub fn unfold(s: &str) -> (r: Vec<String>)
    ensures
        texts(r@) == content_lines(s@),
{
    let lines = lines_of(s);
    let mut out: Vec<String> = Vec::new();
    let mut i: usize = 0;
    assert(texts(out@) =~= Seq::<Seq<char>>::empty());
    assert(texts(lines@).take(0) =~= Seq::<Seq<char>>::empty());
    while i < lines.len()
        invariant
            i <= lines@.len(),
            texts(out@) == unfolded(texts(lines@).take(i as int)),
        decreases lines@.len() - i,
    {
        let ghost before = texts(out@);
        let ghost line = texts(lines@)[i as int];
        proof {
            let upto = texts(lines@).take(i + 1);
            assert(upto.drop_last() =~= texts(lines@).take(i as int));
            assert(upto.last() == line);
        }
        let cs = chars_of(lines[i].as_str());
        let folded: bool = cs.len() > 0 && (cs[0] == ' ' || cs[0] == '\t');
        let last = if folded {
            out.pop()
        } else {
            None
        };
        match last {
            Some(head) => {
                let mut joined = head;
                let tail = string_of(&cs, 1, cs.len());
                assert(tail@ =~= line.skip(1));
                assert(joined@ == before.last());
                joined.append(tail.as_str());
                assert(texts(out@) =~= before.drop_last());
                out.push(joined);
                assert(texts(out@) =~= before.drop_last().push(before.last() + line.skip(1)));
            },
            None => {
                let whole = string_of(&cs, 0, cs.len());
                assert(whole@ =~= line);
                assert(folded ==> before.len() == 0);
                out.push(whole);
                assert(texts(out@) =~= before.push(line));
            },
        }
        i = i + 1;
    }
    assert(texts(lines@).take(lines@.len() as int) =~= texts(lines@));
    out
}

// ---------------------------------------------------------------------------
// Events and their properties
// ---------------------------------------------------------------------------

/// The events among the content lines from index `from` on, each as the lines between its
/// delimiters; `open` holds the lines so far of an event that has begun.
pub open spec fn vevents_from(
    lines: Seq<Seq<char>>,
    from: int,
    open: Option<Seq<Seq<char>>>,
) -> Seq<Seq<Seq<char>>>
    decreases lines.len() - from,
{
    if from < 0 || from >= lines.len() {
        Seq::empty()
    } else {
        let line = lines[from];
        if text::trimmed(line) == "BEGIN:VEVENT"@ {
            vevents_from(lines, from + 1, Some(Seq::empty()))
        } else if text::trimmed(line) == "END:VEVENT"@ {
            match open {
                Some(block) => seq![block] + vevents_from(lines, from + 1, None),
                None => vevents_from(lines, from + 1, None),
            }
        } else {
            match open {
                Some(block) => vevents_from(lines, from + 1, Some(block.push(line))),
                None => vevents_from(lines, from + 1, None),
            }
        }
    }
}

/// The events of an iCalendar text, each as its content lines.
pub open spec fn vevents(s: Seq<char>) -> Seq<Seq<Seq<char>>> {
    vevents_from(content_lines(s), 0, None)
}

/// The view of the lines of an event that has begun.
pub open spec fn open_view(o: Option<Vec<String>>) -> Option<Seq<Seq<char>>> {
    match o {
        Some(l) => Some(texts(l@)),
        None => None,
    }
}

/// The events of an iCalendar text, each as its content lines without the delimiters. An event
/// that does not end is none.
pub fn split_vevents(ics: &str) -> (r: Vec<Vec<String>>)
    ensures
        text_lists(r@) == vevents(ics@),
{
    let lines = unfold(ics);
    let ghost all = texts(lines@);
    let mut out: Vec<Vec<String>> = Vec::new();
    let mut open: Option<Vec<String>> = None;
    let mut i: usize = 0;
    assert(text_lists(out@) =~= Seq::<Seq<Seq<char>>>::empty());
    assert(text_lists(out@) + vevents(ics@) =~= vevents(ics@));
    while i < lines.len()
        invariant
            i <= lines@.len(),
            all == texts(lines@),
            all == content_lines(ics@),
            text_lists(out@) + vevents_from(all, i as int, open_view(open)) == vevents(ics@),
        decreases lines@.len() - i,
    {
        let ghost done = text_lists(out@);
        let ghost was = open_view(open);
        let line = trim(lines[i].as_str());
        if same(line.as_str(), "BEGIN:VEVENT") {
            let block: Vec<String> = Vec::new();
            assert(texts(block@) =~= Seq::<Seq<char>>::empty());
            open = Some(block);
        } else if same(line.as_str(), "END:VEVENT") {
            match open {
                Some(block) => {
                    let ghost b = texts(block@);
                    out.push(block);
                    assert(text_lists(out@) =~= done.push(b));
                    assert(text_lists(out@) + vevents_from(all, i + 1, None) =~= done
                        + vevents_from(all, i as int, was));
                },
                None => {},
            }
            open = None;
        } else {
            open = match open {
                Some(block) => {
                    let mut longer = block;
                    let ghost b = texts(longer@);
                    let whole = lines[i].clone();
                    longer.push(whole);
                    assert(texts(longer@) =~= b.push(all[i as int]));
                    Some(longer)
                },
                None => None,
            };
        }
        i = i + 1;
    }
    assert(text_lists(out@) =~= text_lists(out@) + vevents_from(
        all,
        lines@.len() as int,
        open_view(open),
    ));
    out
}

/// The index of the first colon of a line, not before `from`, that stands outside double quotes.
pub open spec fn colon_from(line: Seq<char>, from: int, quoted: bool) -> Option<int>
    decreases line.len() - from,
{
    if from < 0 || from >= line.len() {
        None
    } else if line[from] == '"' {
        colon_from(line, from + 1, !quoted)
    } else if line[from] == ':' && !quoted {
        Some(from)
    } else {
        colon_from(line, from + 1, quoted)
    }
}

/// The value of a content line, where it is one of the property `name`: what follows the colon
/// after the name and its parameters.
pub open spec fn property_value(line: Seq<char>, name: Seq<char>) -> Option<Seq<char>> {
    let n = name.len() as int;
    if n < line.len() && line.take(n) == name && (line[n] == ':' || line[n] == ';') {
        match colon_from(line, n, false) {
            Some(i) => Some(line.skip(i + 1)),
            None => None,
        }
    } else {
        None
    }
}

/// The value of the first line, not before index `from`, of the property `name`.
pub open spec fn field_from(lines: Seq<Seq<char>>, name: Seq<char>, from: int) -> Option<Seq<char>>
    decreases lines.len() - from,
{
    if from < 0 || from >= lines.len() {
        None
    } else if property_value(lines[from], name) is Some {
        property_value(lines[from], name)
    } else {
        field_from(lines, name, from + 1)
    }
}

/// The value of the first line of the property `name`.
pub open spec fn field(lines: Seq<Seq<char>>, name: Seq<char>) -> Option<Seq<char>> {
    field_from(lines, name, 0)
}

fn value_of(line: &str, name: &str) -> (r: Option<String>)
    ensures
        crate::text::opt_string_view(r) == property_value(line@, name@),
{
    let cs = chars_of(line);
    let ns = chars_of(name);
    let n: usize = ns.len();
    if n >= cs.len() {
        return None;
    }
    let head = string_of(&cs, 0, n);
    assert(head@ =~= line@.take(n as int));
    if !same(head.as_str(), name) || !(cs[n] == ':' || cs[n] == ';') {
        return None;
    }
    let mut i: usize = n;
    let mut quoted: bool = false;
    while i < cs.len()
        invariant
            n <= i <= cs@.len(),
            cs@ == line@,
            ns@ == name@,
            n == name@.len(),
            line@.take(n as int) == name@,
            line@[n as int] == ':' || line@[n as int] == ';',
            colon_from(line@, n as int, false) == colon_from(line@, i as int, quoted),
        decreases cs@.len() - i,
    {
        if cs[i] == '"' {
            quoted = !quoted;
        } else if cs[i] == ':' && !quoted {
            let value = string_of(&cs, i + 1, cs.len());
            assert(value@ =~= line@.skip(i + 1));
            return Some(value);
        }
        i = i + 1;
    }
    None
}

/// The value of the first line of the property `name`, where there is one.
pub fn extract_vevent_field(vevent: &Vec<String>, name: &str) -> (r: Option<String>)
    ensures
        crate::text::opt_string_view(r) == field(texts(vevent@), name@),
{
    let mut i: usize = 0;
    while i < vevent.len()
        invariant
            i <= vevent@.len(),
            field(texts(vevent@), name@) == field_from(texts(vevent@), name@, i as int),
        decreases vevent@.len() - i,
    {
        let value = value_of(vevent[i].as_str(), name);
        assert(texts(vevent@)[i as int] == vevent@[i as int]@);
        if value.is_some() {
            return value;
        }
        i = i + 1;
    }
    None
}

// ---------------------------------------------------------------------------
// Dates
// ---------------------------------------------------------------------------

/// The number that the characters `from..to` stand for.
pub open spec fn number_at(s: Seq<char>, from: int, to: int) -> int {
    decimal::digits_value(s.subrange(from, to))
}

/// The date `YYYYMMDD` at the start of `s`, where there is one in the calendar.
pub open spec fn date_at_start(s: Seq<char>) -> Option<CivilDate> {
    if s.len() >= 8 && decimal::all_digits(s.take(8)) {
        let year = number_at(s, 0, 4);
        let month = number_at(s, 4, 6);
        let day = number_at(s, 6, 8);
        if 1 <= month <= 12 && 1 <= day <= time::days_in_month(year, month) {
            Some(CivilDate { year: year as i32, month: month as u32, day: day as u32 })
        } else {
            None
        }
    } else {
        None
    }
}

/// What an iCalendar value `YYYYMMDD` or `YYYYMMDDTHHMMSS`, with or without a closing `Z`, says.
/// A bare date is its midnight; a time without the `Z` is read as UTC.
pub open spec fn ical_datetime(value: Seq<char>) -> Option<UtcDateTime> {
    let v = text::trimmed(value);
    match date_at_start(v) {
        None => None,
        Some(date) => if v.len() == 8 {
            Some(UtcDateTime { date, hour: 0, minute: 0, second: 0, nanos: 0 })
        } else if (v.len() == 15 || (v.len() == 16 && v[15] == 'Z')) && v[8] == 'T'
            && decimal::all_digits(v.subrange(9, 15)) {
            let hour = number_at(v, 9, 11);
            let minute = number_at(v, 11, 13);
            let second = number_at(v, 13, 15);
            if hour < 24 && minute < 60 && second < 60 {
                Some(
                    UtcDateTime {
                        date,
                        hour: hour as u32,
                        minute: minute as u32,
                        second: second as u32,
                        nanos: 0,
                    },
                )
            } else {
                None
            }
        } else {
            None
        },
    }
}

/// Two digits as a number.
fn pair_at(cs: &Vec<char>, i: usize) -> (r: Option<u32>)
    requires
        i + 2 <= cs@.len() <= usize::MAX,
    ensures
        match r {
            Some(v) => {
                &&& decimal::is_digit(cs@[i as int])
                &&& decimal::is_digit(cs@[i + 1])
                &&& v == number_at(cs@, i as int, i + 2)
                &&& v < 100
            },
            None => !(decimal::is_digit(cs@[i as int]) && decimal::is_digit(cs@[i + 1])),
        },
{
    let a: char = cs[i];
    let b: char = cs[i + 1];
    if '0' <= a && a <= '9' && '0' <= b && b <= '9' {
        proof {
            let s = cs@.subrange(i as int, i + 2);
            assert(s.drop_last() =~= seq![a]);
            assert(seq![a].drop_last() =~= Seq::<char>::empty());
            reveal_with_fuel(decimal::digits_value, 3);
            assert(s.last() == b);
            assert(seq![a].last() == a);
        }
        Some((a as u32 - 48) * 10 + (b as u32 - 48))
    } else {
        None
    }
}

/// Four digits stand for a hundred times the first two and the last two.
pub proof fn lemma_number_of_four(s: Seq<char>, from: int)
    requires
        0 <= from,
        from + 4 <= s.len(),
    ensures
        number_at(s, from, from + 4) == number_at(s, from, from + 2) * 100 + number_at(
            s,
            from + 2,
            from + 4,
        ),
{
    let four = s.subrange(from, from + 4);
    let head = s.subrange(from, from + 2);
    let tail = s.subrange(from + 2, from + 4);
    assert(four.drop_last().drop_last() =~= head);
    assert(four.last() == tail.last());
    assert(four.drop_last().last() == tail.drop_last().last());
    assert(tail.drop_last().drop_last() =~= Seq::<char>::empty());
    reveal_with_fuel(decimal::digits_value, 3);
}

/// Read an iCalendar date or date-time; a time that names no zone is read as UTC.
pub fn parse_ical_datetime(value: &str) -> (r: Option<UtcDateTime>)
    ensures
        r == ical_datetime(value@),
        r matches Some(t) ==> t.valid() && t.nanos == 0 && t.date.four_digit_year(),
{
    let v = trim(value);
    let cs = chars_of(v.as_str());
    let n: usize = cs.len();
    if n < 8 {
        return None;
    }
    let century = pair_at(&cs, 0);
    let rest = pair_at(&cs, 2);
    let month = pair_at(&cs, 4);
    let day = pair_at(&cs, 6);
    let ghost s = cs@;
    assert(forall|k: int| 0 <= k < 8 ==> s.take(8)[k] == s[k]);
    let (century, rest, month, day) = match (century, rest, month, day) {
        (Some(c), Some(y), Some(m), Some(d)) => {
            assert(decimal::all_digits(s.take(8)));
            (c, y, m, d)
        },
        _ => {
            proof {
                let head = s.take(8);
                if decimal::all_digits(head) {
                    assert(decimal::is_digit(head[0]) && decimal::is_digit(head[1]));
                    assert(decimal::is_digit(head[2]) && decimal::is_digit(head[3]));
                    assert(decimal::is_digit(head[4]) && decimal::is_digit(head[5]));
                    assert(decimal::is_digit(head[6]) && decimal::is_digit(head[7]));
                }
            }
            return None;
        },
    };
    let year: u32 = century * 100 + rest;
    proof {
        lemma_number_of_four(s, 0);
    }
    if month < 1 || 12 < month || day < 1 || month_length(year as i32, month) < day {
        return None;
    }
    let date = CivilDate { year: year as i32, month, day };
    assert(date_at_start(s) == Some(date));
    if n == 8 {
        return Some(UtcDateTime { date, hour: 0, minute: 0, second: 0, nanos: 0 });
    }
    if !(n == 15 || (n == 16 && cs[15] == 'Z')) || cs[8] != 'T' {
        return None;
    }
    assert(forall|k: int| 0 <= k < 6 ==> s.subrange(9, 15)[k] == s[9 + k]);
    match (pair_at(&cs, 9), pair_at(&cs, 11), pair_at(&cs, 13)) {
        (Some(hour), Some(minute), Some(second)) => {
            assert(decimal::all_digits(s.subrange(9, 15)));
            if hour < 24 && minute < 60 && second < 60 {
                Some(UtcDateTime { date, hour, minute, second, nanos: 0 })
            } else {
                None
            }
        },
        _ => {
            proof {
                let time = s.subrange(9, 15);
                if decimal::all_digits(time) {
                    assert(decimal::is_digit(time[0]) && decimal::is_digit(time[1]));
                    assert(decimal::is_digit(time[2]) && decimal::is_digit(time[3]));
                    assert(decimal::is_digit(time[4]) && decimal::is_digit(time[5]));
                }
            }
            None
        },
    }
}

// ---------------------------------------------------------------------------
// Laws
// ---------------------------------------------------------------------------

/// Lines, each followed by the same line break.
pub open spec fn ended(lines: Seq<Seq<char>>, line_break: Seq<char>) -> Seq<char>
    decreases lines.len(),
{
    if lines.len() == 0 {
        Seq::empty()
    } else {
        lines[0] + line_break + ended(lines.skip(1), line_break)
    }
}

/// A line that can be told from its line break: no line feed in it and, where the line break is a
/// line feed alone, no carriage return at its end.
pub open spec fn is_line(line: Seq<char>, line_break: Seq<char>) -> bool {
    &&& forall|i: int| 0 <= i < line.len() ==> #[trigger] line[i] != '\n'
    &&& line_break.len() == 1 && line.len() > 0 ==> line[line.len() - 1] != '\r'
}

/// A text is read as the lines it was made of, whether they end with a line feed or with a
/// carriage return and a line feed. What follows the last line break is a line too, unless it is
/// empty.
pub proof fn law_lines_read_back(lines: Seq<Seq<char>>, line_break: Seq<char>, rest: Seq<char>)
    requires
        line_break == "\n"@ || line_break == "\r\n"@,
        forall|i: int| 0 <= i < lines.len() ==> is_line(#[trigger] lines[i], line_break),
        is_line(rest, line_break),
    ensures
        lines_from(ended(lines, line_break) + rest, 0) == if rest.len() == 0 {
            lines
        } else {
            lines.push(rest)
        },
{
    lemma_lines_after(Seq::empty(), lines, line_break, rest);
    assert(Seq::<char>::empty() + ended(lines, line_break) + rest =~= ended(lines, line_break)
        + rest);
}

proof fn lemma_lines_after(
    before: Seq<char>,
    lines: Seq<Seq<char>>,
    line_break: Seq<char>,
    rest: Seq<char>,
)
    requires
        line_break == "\n"@ || line_break == "\r\n"@,
        forall|i: int| 0 <= i < lines.len() ==> is_line(#[trigger] lines[i], line_break),
        is_line(rest, line_break),
    ensures
        lines_from(before + ended(lines, line_break) + rest, before.len() as int)
            == if rest.len() == 0 {
            lines
        } else {
            lines.push(rest)
        },
    decreases lines.len(),
{
    reveal_strlit("\n");
    reveal_strlit("\r\n");
    let s = before + ended(lines, line_break) + rest;
    let from = before.len() as int;
    if lines.len() == 0 {
        assert(s =~= before + rest);
        if rest.len() == 0 {
            assert(lines_from(s, from) =~= lines);
        } else {
            text::lemma_find_char_from(s, '\n', from);
            if text::find_char_from(s, '\n', from) is Some {
                let i = text::find_char_from(s, '\n', from)->0;
                assert(s[i] == rest[i - from]);
            }
            assert(s.subrange(from, s.len() as int) =~= rest);
            assert(lines_from(s, from) =~= lines.push(rest));
        }
    } else {
        let line = lines[0];
        assert(is_line(lines[0], line_break));
        let tail = lines.skip(1);
        let next = before + line + line_break;
        assert(s =~= next + ended(tail, line_break) + rest);
        let end = from + line.len() + line_break.len() - 1;
        assert(s[end] == '\n');
        assert forall|j: int| from <= j < end implies s[j] != '\n' by {
            if j < from + line.len() {
                assert(s[j] == line[j - from]);
            }
        }
        text::lemma_find_char_is(s, '\n', from, end);
        let got = s.subrange(from, end);
        if line_break == "\n"@ {
            assert(got =~= line);
        } else {
            assert(got =~= line.push('\r'));
        }
        assert(without_cr(got) =~= line);
        assert forall|i: int| 0 <= i < tail.len() implies is_line(#[trigger] tail[i], line_break) by {
            assert(is_line(lines[i + 1], line_break));
        }
        lemma_lines_after(next, tail, line_break, rest);
        assert(next.len() == end + 1);
        if rest.len() == 0 {
            assert(seq![line] + tail =~= lines);
        } else {
            assert(seq![line] + tail.push(rest) =~= lines.push(rest));
        }
    }
}

/// A line that was folded, its rest on a line of its own after a space or a tab, is read as the
/// line it was. A line that starts with neither, or with nothing before it, stays a line of its
/// own.
pub proof fn law_folding_is_undone(
    lines: Seq<Seq<char>>,
    head: Seq<char>,
    white: char,
    tail: Seq<char>,
)
    requires
        head.len() > 0,
        white == ' ' || white == '\t',
    ensures
        unfolded(lines.push(head).push(seq![white] + tail)) == unfolded(lines.push(head + tail)),
        head[0] != ' ' && head[0] != '\t' ==> unfolded(lines.push(head)) == unfolded(lines).push(
            head,
        ),
        unfolded(lines.push(Seq::empty())) == unfolded(lines).push(Seq::empty()),
        unfolded(seq![head]) == seq![head],
        unfolded(Seq::empty()) == Seq::<Seq<char>>::empty(),
{
    assert(seq![head].drop_last() =~= Seq::<Seq<char>>::empty());
    assert(unfolded(Seq::<Seq<char>>::empty()) =~= Seq::<Seq<char>>::empty());
    assert(Seq::<Seq<char>>::empty().push(head) =~= seq![head]);
    let a = lines.push(head).push(seq![white] + tail);
    let b = lines.push(head + tail);
    assert(a.drop_last() =~= lines.push(head));
    assert(lines.push(head).drop_last() =~= lines);
    assert(b.drop_last() =~= lines);
    assert((seq![white] + tail).skip(1) =~= tail);
    assert((head + tail)[0] == head[0]);
    let before = unfolded(lines);
    let opened = unfolded(lines.push(head));
    assert(lines.push(head).last() == head);
    assert(a.last() == seq![white] + tail && is_folded(a.last()));
    assert(b.last() == head + tail);
    assert(unfolded(a) == opened.drop_last().push(opened.last() + tail));
    if is_folded(head) && before.len() > 0 {
        assert((head + tail).skip(1) =~= head.skip(1) + tail);
        assert(before.last() + head.skip(1) + tail =~= before.last() + (head + tail).skip(1));
        assert(opened == before.drop_last().push(before.last() + head.skip(1)));
    } else {
        assert(opened == before.push(head));
    }
    assert(unfolded(a) =~= unfolded(b));
    assert(lines.push(Seq::empty()).drop_last() =~= lines);
}

/// Does a line open, or close, an event?
pub open spec fn is_delimiter(line: Seq<char>) -> bool {
    text::trimmed(line) == "BEGIN:VEVENT"@ || text::trimmed(line) == "END:VEVENT"@
}

/// An event is what stands between its opening and its closing line; lines outside of events make
/// no difference, an opening line inside one starts over, and one that is never closed is none.
pub proof fn law_events_stand_between_their_delimiters(
    before: Seq<Seq<char>>,
    open: Seq<char>,
    body: Seq<Seq<char>>,
    close: Seq<char>,
    after: Seq<Seq<char>>,
)
    requires
        forall|i: int| 0 <= i < before.len() ==> !is_delimiter(#[trigger] before[i]),
        text::trimmed(open) == "BEGIN:VEVENT"@,
        forall|i: int| 0 <= i < body.len() ==> !is_delimiter(#[trigger] body[i]),
        text::trimmed(close) == "END:VEVENT"@,
    ensures
        vevents_from(before + seq![open] + body + seq![close] + after, 0, None) == seq![body]
            + vevents_from(after, 0, None),
        vevents_from(before + seq![open] + body + seq![open] + after, 0, None) == vevents_from(
            seq![open] + after,
            0,
            None,
        ),
        vevents_from(before + after, 0, None) == vevents_from(after, 0, None),
        vevents_from(before + seq![open] + body, 0, None) == Seq::<Seq<Seq<char>>>::empty(),
{
    reveal_strlit("BEGIN:VEVENT");
    reveal_strlit("END:VEVENT");
    assert("BEGIN:VEVENT"@.len() == 12 && "END:VEVENT"@.len() == 10);
    let n = before.len() as int;
    let m = body.len() as int;
    let none: Option<Seq<Seq<char>>> = None;
    let fresh: Option<Seq<Seq<char>>> = Some(Seq::empty());

    let one = before + seq![open] + body + seq![close] + after;
    lemma_outside_of_events(one, 0, n);
    lemma_inside_of_events(one, n + 1, n + 1 + m, Seq::empty());
    assert(Seq::<Seq<char>>::empty() + one.subrange(n + 1, n + 1 + m) =~= body);
    assert(one[n] == open && one[n + 1 + m] == close);
    assert(one.skip(n + m + 2) =~= after);
    lemma_events_of_rest(one, n + m + 2, none);

    let two = before + seq![open] + body + seq![open] + after;
    lemma_outside_of_events(two, 0, n);
    lemma_inside_of_events(two, n + 1, n + 1 + m, Seq::empty());
    assert(two[n] == open && two[n + 1 + m] == open);
    assert(two.skip(n + m + 1) =~= seq![open] + after);
    lemma_events_of_rest(two, n + m + 1, none);

    let three = before + after;
    lemma_outside_of_events(three, 0, n);
    assert(three.skip(n) =~= after);
    lemma_events_of_rest(three, n, none);

    let four = before + seq![open] + body;
    lemma_outside_of_events(four, 0, n);
    lemma_inside_of_events(four, n + 1, n + 1 + m, Seq::empty());
    assert(four[n] == open);
}

proof fn lemma_outside_of_events(lines: Seq<Seq<char>>, from: int, to: int)
    requires
        0 <= from <= to <= lines.len(),
        forall|i: int| from <= i < to ==> !is_delimiter(#[trigger] lines[i]),
    ensures
        vevents_from(lines, from, None) == vevents_from(lines, to, None),
    decreases to - from,
{
    if from < to {
        assert(!is_delimiter(lines[from]));
        lemma_outside_of_events(lines, from + 1, to);
    }
}

proof fn lemma_inside_of_events(
    lines: Seq<Seq<char>>,
    from: int,
    to: int,
    block: Seq<Seq<char>>,
)
    requires
        0 <= from <= to <= lines.len(),
        forall|i: int| from <= i < to ==> !is_delimiter(#[trigger] lines[i]),
    ensures
        vevents_from(lines, from, Some(block)) == vevents_from(
            lines,
            to,
            Some(block + lines.subrange(from, to)),
        ),
    decreases to - from,
{
    if from == to {
        assert(block + lines.subrange(from, to) =~= block);
    } else {
        assert(!is_delimiter(lines[from]));
        lemma_inside_of_events(lines, from + 1, to, block.push(lines[from]));
        assert(block.push(lines[from]) + lines.subrange(from + 1, to) =~= block + lines.subrange(
            from,
            to,
        ));
    }
}

proof fn lemma_events_of_rest(lines: Seq<Seq<char>>, from: int, open: Option<Seq<Seq<char>>>)
    requires
        0 <= from <= lines.len(),
    ensures
        vevents_from(lines, from, open) == vevents_from(lines.skip(from), 0, open),
{
    lemma_events_shift(lines, from, 0, open);
}

proof fn lemma_events_shift(
    lines: Seq<Seq<char>>,
    from: int,
    k: int,
    open: Option<Seq<Seq<char>>>,
)
    requires
        0 <= from,
        0 <= k,
        from + k <= lines.len(),
    ensures
        vevents_from(lines, from + k, open) == vevents_from(lines.skip(from), k, open),
    decreases lines.len() - from - k,
{
    if from + k < lines.len() {
        let line = lines[from + k];
        assert(lines.skip(from)[k] == line);
        let none: Option<Seq<Seq<char>>> = None;
        lemma_events_shift(lines, from, k + 1, Some(Seq::empty()));
        lemma_events_shift(lines, from, k + 1, none);
        if open is Some {
            lemma_events_shift(lines, from, k + 1, Some(open->0.push(line)));
        }
    }
}

/// The value of a property line is all that follows the colon after its name, or after its
/// parameters. A colon between double quotes belongs to the parameters.
pub proof fn law_property_value_follows_the_colon(
    name: Seq<char>,
    parameters: Seq<char>,
    quoted: Seq<char>,
    value: Seq<char>,
)
    requires
        parameters.len() > 0 ==> parameters[0] == ';',
        forall|i: int|
            0 <= i < parameters.len() ==> #[trigger] parameters[i] != ':' && parameters[i] != '"',
        forall|i: int| 0 <= i < quoted.len() ==> #[trigger] quoted[i] != '"',
    ensures
        property_value(name + parameters + seq![':'] + value, name) == Some(value),
        parameters.len() > 0 ==> property_value(
            name + parameters + seq!['"'] + quoted + seq!['"', ':'] + value,
            name,
        ) == Some(value),
{
    let n = name.len() as int;
    let p = n + parameters.len();
    let plain = name + parameters + seq![':'] + value;
    assert(plain.take(n) =~= name);
    assert forall|j: int| n <= j < p implies #[trigger] plain[j] != ':' && plain[j] != '"' by {
        assert(plain[j] == parameters[j - n]);
    }
    assert(plain[p] == ':');
    lemma_no_colon(plain, n, p, false);
    assert(plain.skip(p + 1) =~= value);
    if parameters.len() > 0 {
        assert(plain[n] == parameters[0]);
        let line = name + parameters + seq!['"'] + quoted + seq!['"', ':'] + value;
        let q = p + 1 + quoted.len();
        assert(line.take(n) =~= name);
        assert(line[n] == parameters[0]);
        assert forall|j: int| n <= j < p implies #[trigger] line[j] != ':' && line[j] != '"' by {
            assert(line[j] == parameters[j - n]);
        }
        assert(line[p] == '"');
        assert forall|j: int| p + 1 <= j < q implies #[trigger] line[j] != '"' by {
            assert(line[j] == quoted[j - p - 1]);
        }
        assert(line[q] == '"' && line[q + 1] == ':');
        lemma_no_colon(line, n, p, false);
        lemma_quoted(line, p + 1, q);
        assert(colon_from(line, q, true) == colon_from(line, q + 1, false));
        assert(line.skip(q + 2) =~= value);
    }
}

proof fn lemma_no_colon(line: Seq<char>, from: int, to: int, quoted: bool)
    requires
        0 <= from <= to <= line.len(),
        forall|j: int| from <= j < to ==> #[trigger] line[j] != ':' && line[j] != '"',
    ensures
        colon_from(line, from, quoted) == colon_from(line, to, quoted),
    decreases to - from,
{
    if from < to {
        assert(line[from] != ':');
        lemma_no_colon(line, from + 1, to, quoted);
    }
}

proof fn lemma_quoted(line: Seq<char>, from: int, to: int)
    requires
        0 <= from <= to <= line.len(),
        forall|j: int| from <= j < to ==> #[trigger] line[j] != '"',
    ensures
        colon_from(line, from, true) == colon_from(line, to, true),
    decreases to - from,
{
    if from < to {
        assert(line[from] != '"');
        lemma_quoted(line, from + 1, to);
    }
}

/// A line is one of a property only where it starts with the property's name and a colon or a
/// semicolon, and its value stands at its end after a colon.
pub proof fn law_property_lines_start_with_the_name(line: Seq<char>, name: Seq<char>)
    ensures
        property_value(line, name) matches Some(value) ==> {
            let n = name.len() as int;
            &&& line.len() > n
            &&& line.take(n) == name
            &&& line[n] == ':' || line[n] == ';'
            &&& exists|i: int| n <= i < line.len() && #[trigger] line[i] == ':' && value
                == line.skip(i + 1)
        },
{
    if property_value(line, name) is Some {
        lemma_colon_stands(line, name.len() as int, false);
    }
}

proof fn lemma_colon_stands(line: Seq<char>, from: int, quoted: bool)
    requires
        0 <= from,
    ensures
        colon_from(line, from, quoted) matches Some(i) ==> from <= i < line.len() && line[i] == ':',
    decreases line.len() - from,
{
    if from < line.len() {
        lemma_colon_stands(line, from + 1, quoted);
        lemma_colon_stands(line, from + 1, !quoted);
    }
}

/// A property of an event says what its first line says, wherever that stands; an event without
/// such a line lacks the property.
pub proof fn law_first_line_of_a_property_counts(lines: Seq<Seq<char>>, name: Seq<char>)
    ensures
        match field(lines, name) {
            Some(value) => exists|i: int|
                #![trigger lines[i]]
                0 <= i < lines.len() && property_value(lines[i], name) == Some(value) && forall|
                    j: int,
                |
                    0 <= j < i ==> property_value(#[trigger] lines[j], name) is None,
            None => forall|j: int|
                0 <= j < lines.len() ==> property_value(#[trigger] lines[j], name) is None,
        },
{
    lemma_field_from(lines, name, 0);
}

proof fn lemma_field_from(lines: Seq<Seq<char>>, name: Seq<char>, from: int)
    requires
        0 <= from,
    ensures
        match field_from(lines, name, from) {
            Some(value) => exists|i: int|
                #![trigger lines[i]]
                from <= i < lines.len() && property_value(lines[i], name) == Some(value) && forall|
                    j: int,
                |
                    from <= j < i ==> property_value(#[trigger] lines[j], name) is None,
            None => forall|j: int|
                from <= j < lines.len() ==> property_value(#[trigger] lines[j], name) is None,
        },
    decreases lines.len() - from,
{
    if from < lines.len() {
        if property_value(lines[from], name) is Some {
            assert(property_value(lines[from], name) == field_from(lines, name, from));
        } else {
            lemma_field_from(lines, name, from + 1);
        }
    }
}

/// An iCalendar value is read as a timestamp exactly where it is, white space around it aside, the
/// timestamp's `YYYYMMDDTHHMMSSZ`, or that without the `Z`, or, of a midnight, its `YYYYMMDD`.
pub proof fn law_ical_datetime_is_read_from_its_texts(value: Seq<char>, t: UtcDateTime)
    ensures
        ical_datetime(value) == Some(t) <==> {
            let v = text::trimmed(value);
            &&& t.valid() && t.nanos == 0 && 0 <= t.date.year <= 9999
            &&& {
                ||| v == time::compact_utc_text(t)
                ||| v.push('Z') == time::compact_utc_text(t)
                ||| t.hour == 0 && t.minute == 0 && t.second == 0 && v == time::compact_date_text(
                    t.date,
                )
            }
        },
{
    let v = text::trimmed(value);
    if ical_datetime(value) == Some(t) {
        lemma_read_date(v);
        if v.len() > 8 {
            lemma_read_clock(v, t);
        } else {
            assert(v.take(8) =~= v);
        }
    }
    if t.valid() && t.nanos == 0 && 0 <= t.date.year <= 9999 {
        lemma_written_date(t.date);
        lemma_written_clock(t);
        let long = time::compact_utc_text(t);
        if v == long || v.push('Z') == long {
            assert forall|i: int| 0 <= i < 15 implies v[i] == long[i] by {
                assert(v.push('Z')[i] == v[i]);
            }
            assert(v.take(8) =~= long.take(8));
            assert(v.subrange(0, 4) =~= long.subrange(0, 4));
            assert(v.subrange(4, 6) =~= long.subrange(4, 6));
            assert(v.subrange(6, 8) =~= long.subrange(6, 8));
            assert(v.subrange(9, 11) =~= long.subrange(9, 11));
            assert(v.subrange(11, 13) =~= long.subrange(11, 13));
            assert(v.subrange(13, 15) =~= long.subrange(13, 15));
            assert(v.subrange(9, 15) =~= long.subrange(9, 15));
        }
    }
}

proof fn lemma_read_date(v: Seq<char>)
    ensures
        date_at_start(v) matches Some(d) ==> d.valid() && 0 <= d.year <= 9999 && v.take(8)
            == time::compact_date_text(d),
{
    if date_at_start(v) is Some {
        let head = v.take(8);
        let a = v.subrange(0, 4);
        let b = v.subrange(4, 6);
        let c = v.subrange(6, 8);
        assert forall|i: int| 0 <= i < 4 implies decimal::is_digit(#[trigger] a[i]) by {
            assert(decimal::is_digit(head[i]));
        }
        assert forall|i: int| 0 <= i < 2 implies decimal::is_digit(#[trigger] b[i]) by {
            assert(decimal::is_digit(head[i + 4]));
        }
        assert forall|i: int| 0 <= i < 2 implies decimal::is_digit(#[trigger] c[i]) by {
            assert(decimal::is_digit(head[i + 6]));
        }
        decimal::law_fixed_digits_read_back(0, a);
        decimal::law_fixed_digits_read_back(0, b);
        decimal::law_fixed_digits_read_back(0, c);
        assert(head =~= a + b + c);
    }
}

proof fn lemma_read_clock(v: Seq<char>, t: UtcDateTime)
    requires
        v.len() == 15 || (v.len() == 16 && v[15] == 'Z'),
        v[8] == 'T',
        decimal::all_digits(v.subrange(9, 15)),
        v.take(8) == time::compact_date_text(t.date),
        t.hour == number_at(v, 9, 11) as u32 && number_at(v, 9, 11) < 24,
        t.minute == number_at(v, 11, 13) as u32 && number_at(v, 11, 13) < 60,
        t.second == number_at(v, 13, 15) as u32 && number_at(v, 13, 15) < 60,
        t.nanos == 0,
    ensures
        t.hour < 24 && t.minute < 60 && t.second < 60,
        v == time::compact_utc_text(t) || v.push('Z') == time::compact_utc_text(t),
{
    let clock = v.subrange(9, 15);
    let a = v.subrange(9, 11);
    let b = v.subrange(11, 13);
    let c = v.subrange(13, 15);
    assert forall|i: int| 0 <= i < 2 implies decimal::is_digit(#[trigger] a[i]) by {
        assert(decimal::is_digit(clock[i]));
    }
    assert forall|i: int| 0 <= i < 2 implies decimal::is_digit(#[trigger] b[i]) by {
        assert(decimal::is_digit(clock[i + 2]));
    }
    assert forall|i: int| 0 <= i < 2 implies decimal::is_digit(#[trigger] c[i]) by {
        assert(decimal::is_digit(clock[i + 4]));
    }
    decimal::law_fixed_digits_read_back(0, a);
    decimal::law_fixed_digits_read_back(0, b);
    decimal::law_fixed_digits_read_back(0, c);
    assert(t.shown_second() == t.second);
    let long = v.take(8) + seq!['T'] + a + b + c + seq!['Z'];
    assert(long == time::compact_utc_text(t));
    if v.len() == 15 {
        assert(v.push('Z') =~= long);
    } else {
        assert(v =~= long);
    }
}

proof fn lemma_written_date(d: CivilDate)
    requires
        d.valid(),
        0 <= d.year <= 9999,
    ensures
        time::compact_date_text(d).len() == 8,
        forall|tail: Seq<char>|
            date_at_start(#[trigger] (time::compact_date_text(d) + tail)) == Some(d),
        date_at_start(time::compact_date_text(d)) == Some(d),
{
    let s = time::compact_date_text(d);
    let a = decimal::four_digits(d.year as int);
    let b = decimal::two_digits(d.month as int);
    let c = decimal::two_digits(d.day as int);
    decimal::law_fixed_digits_read_back(d.year as int, a);
    decimal::law_fixed_digits_read_back(d.month as int, b);
    decimal::law_fixed_digits_read_back(d.day as int, c);
    assert(s =~= a + b + c);
    assert forall|i: int| 0 <= i < 8 implies decimal::is_digit(#[trigger] s[i]) by {
        if i < 4 {
            assert(s[i] == a[i]);
        } else if i < 6 {
            assert(s[i] == b[i - 4]);
        } else {
            assert(s[i] == c[i - 6]);
        }
    }
    assert forall|tail: Seq<char>| date_at_start(#[trigger] (s + tail)) == Some(d) by {
        let w = s + tail;
        assert(w.take(8) =~= s);
        assert(w.subrange(0, 4) =~= a);
        assert(w.subrange(4, 6) =~= b);
        assert(w.subrange(6, 8) =~= c);
    }
    assert(s + Seq::<char>::empty() =~= s);
    assert(date_at_start(s + Seq::<char>::empty()) == Some(d));
}

proof fn lemma_written_clock(t: UtcDateTime)
    requires
        t.valid(),
        t.nanos == 0,
        0 <= t.date.year <= 9999,
    ensures
        ({
            let s = time::compact_utc_text(t);
            &&& s.len() == 16
            &&& s[8] == 'T' && s[15] == 'Z'
            &&& date_at_start(s) == Some(t.date)
            &&& decimal::all_digits(s.subrange(9, 15))
            &&& number_at(s, 9, 11) == t.hour
            &&& number_at(s, 11, 13) == t.minute
            &&& number_at(s, 13, 15) == t.second
        }),
{
    let s = time::compact_utc_text(t);
    let date = time::compact_date_text(t.date);
    let a = decimal::two_digits(t.hour as int);
    let b = decimal::two_digits(t.minute as int);
    let c = decimal::two_digits(t.second as int);
    lemma_written_date(t.date);
    decimal::law_fixed_digits_read_back(t.hour as int, a);
    decimal::law_fixed_digits_read_back(t.minute as int, b);
    decimal::law_fixed_digits_read_back(t.second as int, c);
    assert(t.shown_second() == t.second);
    assert(s =~= date + (seq!['T'] + a + b + c + seq!['Z']));
    assert(s.subrange(9, 11) =~= a);
    assert(s.subrange(11, 13) =~= b);
    assert(s.subrange(13, 15) =~= c);
    let clock = s.subrange(9, 15);
    assert forall|i: int| 0 <= i < 6 implies decimal::is_digit(#[trigger] clock[i]) by {
        if i < 2 {
            assert(clock[i] == a[i]);
        } else if i < 4 {
            assert(clock[i] == b[i - 2]);
        } else {
            assert(clock[i] == c[i - 4]);
        }
    }
}

/// How many double quotes stand among the characters `from..to` of a line.
pub open spec fn quotes_between(line: Seq<char>, from: int, to: int) -> int
    decreases to - from,
{
    if to <= from {
        0
    } else {
        quotes_between(line, from, to - 1) + if line[to - 1] == '"' {
            1int
        } else {
            0int
        }
    }
}

/// The value of a property line starts after the first colon that stands outside of double quotes,
/// an even number of them before it; a line without such a colon has none.
pub proof fn law_value_starts_after_the_first_open_colon(line: Seq<char>, name: Seq<char>, i: int)
    requires
        name.len() < line.len(),
        line.take(name.len() as int) == name,
        line[name.len() as int] == ':' || line[name.len() as int] == ';',
        name.len() <= i <= line.len(),
        forall|j: int|
            name.len() <= j < i && #[trigger] line[j] == ':' ==> quotes_between(
                line,
                name.len() as int,
                j,
            ) % 2 == 1,
        i < line.len() ==> line[i] == ':' && quotes_between(line, name.len() as int, i) % 2 == 0,
    ensures
        property_value(line, name) == if i < line.len() {
            Some(line.skip(i + 1))
        } else {
            None
        },
{
    lemma_open_colon(line, name.len() as int, name.len() as int, i, false);
}

proof fn lemma_open_colon(line: Seq<char>, n: int, from: int, i: int, quoted: bool)
    requires
        0 <= n <= from <= i <= line.len(),
        forall|j: int|
            from <= j < i && #[trigger] line[j] == ':' ==> quotes_between(line, n, j) % 2 == 1,
        i < line.len() ==> line[i] == ':' && quotes_between(line, n, i) % 2 == 0,
        quoted <==> quotes_between(line, n, from) % 2 == 1,
        quotes_between(line, n, from) >= 0,
    ensures
        colon_from(line, from, quoted) == if i < line.len() {
            Some(i)
        } else {
            None
        },
    decreases i - from,
{
    if from < i {
        let q = quotes_between(line, n, from);
        assert(quotes_between(line, n, from + 1) == q + if line[from] == '"' {
            1int
        } else {
            0int
        });
        if line[from] == '"' {
            lemma_open_colon(line, n, from + 1, i, !quoted);
        } else {
            lemma_open_colon(line, n, from + 1, i, quoted);
        }
    }
}

} // verus!
