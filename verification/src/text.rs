//! Characters, searching and trimming.
//!
//! Every text of this library is modelled as the sequence of its characters, so the functions
//! here relate strings to `Seq<char>`.

use vstd::prelude::*;

verus! {

/// `String::push` appends one character to the end of the string.
pub assume_specification[ String::push ](s: &mut String, c: char)
    ensures
        final(s)@ == old(s)@.push(c),
;

// ---------------------------------------------------------------------------
// Conversions between strings and characters
// ---------------------------------------------------------------------------

/// The characters of `s`, in order.
pub fn chars_of(s: &str) -> (r: Vec<char>)
    ensures
        r@ == s@,
{
    let mut out: Vec<char> = Vec::new();
    for c in it: s.chars()
        invariant
            it.seq() == s@,
            out@ == s@.take(it.index() as int),
    {
        out.push(c);
        assert(s@.take(it.index() as int + 1) =~= s@.take(it.index() as int).push(c));
    }
    assert(s@.take(s@.len() as int) =~= s@);
    out
}

/// The characters `from..to` of `cs` as a string.
pub fn string_of(cs: &Vec<char>, from: usize, to: usize) -> (r: String)
    requires
        from <= to <= cs@.len(),
    ensures
        r@ == cs@.subrange(from as int, to as int),
{
    let mut out = String::new();
    let mut i: usize = from;
    while i < to
        invariant
            from <= i <= to <= cs@.len(),
            out@ == cs@.subrange(from as int, i as int),
        decreases to - i,
    {
        out.push(cs[i]);
        assert(cs@.subrange(from as int, i + 1) =~= cs@.subrange(from as int, i as int).push(
            cs@[i as int],
        ));
        i = i + 1;
    }
    out
}

/// Do `a` and `b` hold the same characters?
pub fn same(a: &str, b: &str) -> (r: bool)
    ensures
        r == (a@ == b@),
{
    a.to_owned() == b.to_owned()
}

/// The view of an optional text.
pub open spec fn opt_view(o: Option<&str>) -> Option<Seq<char>> {
    match o {
        Some(s) => Some(s@),
        None => None,
    }
}

/// The view of an optional owned text.
pub open spec fn opt_string_view(o: Option<String>) -> Option<Seq<char>> {
    match o {
        Some(s) => Some(s@),
        None => None,
    }
}

/// Borrow an optional owned text.
pub fn as_text(o: &Option<String>) -> (r: Option<&str>)
    ensures
        opt_view(r) == opt_string_view(*o),
{
    match o {
        Some(s) => Some(s.as_str()),
        None => None,
    }
}

// ---------------------------------------------------------------------------
// White space
// ---------------------------------------------------------------------------

/// The characters with the Unicode `White_Space` property.
pub open spec fn is_space(c: char) -> bool {
    let n: int = c as int;
    ||| 0x09 <= n <= 0x0d
    ||| n == 0x20
    ||| n == 0x85
    ||| n == 0xa0
    ||| n == 0x1680
    ||| 0x2000 <= n <= 0x200a
    ||| n == 0x2028
    ||| n == 0x2029
    ||| n == 0x202f
    ||| n == 0x205f
    ||| n == 0x3000
}

/// Does `c` have the Unicode `White_Space` property?
pub fn is_whitespace(c: char) -> (r: bool)
    ensures
        r == is_space(c),
{
    let n: u32 = c as u32;
    (0x09 <= n && n <= 0x0d) || n == 0x20 || n == 0x85 || n == 0xa0 || n == 0x1680 || (0x2000 <= n
        && n <= 0x200a) || n == 0x2028 || n == 0x2029 || n == 0x202f || n == 0x205f || n == 0x3000
}

/// `s` without its leading white space.
pub open spec fn trimmed_start(s: Seq<char>) -> Seq<char>
    decreases s.len(),
{
    if s.len() > 0 && is_space(s[0]) {
        trimmed_start(s.skip(1))
    } else {
        s
    }
}

/// `s` without its trailing white space.
pub open spec fn trimmed_end(s: Seq<char>) -> Seq<char>
    decreases s.len(),
{
    if s.len() > 0 && is_space(s.last()) {
        trimmed_end(s.drop_last())
    } else {
        s
    }
}

/// `s` without the white space around it.
pub open spec fn trimmed(s: Seq<char>) -> Seq<char> {
    trimmed_end(trimmed_start(s))
}

/// The text without the white space around it.
pub fn trim(s: &str) -> (r: String)
    ensures
        r@ == trimmed(s@),
{
    let cs = chars_of(s);
    let n: usize = cs.len();
    let mut from: usize = 0;
    assert(cs@.skip(0) =~= cs@);
    while from < n && is_whitespace(cs[from])
        invariant
            n == cs@.len(),
            from <= n,
            trimmed_start(cs@) == trimmed_start(cs@.skip(from as int)),
        decreases n - from,
    {
        assert(cs@.skip(from as int).skip(1) =~= cs@.skip(from + 1));
        from = from + 1;
    }
    let ghost kept = cs@.skip(from as int);
    assert(trimmed_start(cs@) == kept);
    let mut to: usize = n;
    assert(cs@.subrange(from as int, n as int) =~= kept);
    while from < to && is_whitespace(cs[to - 1])
        invariant
            n == cs@.len(),
            from <= to <= n,
            trimmed_end(kept) == trimmed_end(cs@.subrange(from as int, to as int)),
        decreases to,
    {
        assert(cs@.subrange(from as int, to as int).drop_last() =~= cs@.subrange(
            from as int,
            to - 1,
        ));
        to = to - 1;
    }
    string_of(&cs, from, to)
}

/// A text whose ends are no white space is left alone by trimming.
pub proof fn lemma_trimmed_keeps(s: Seq<char>)
    requires
        s.len() == 0 || (!is_space(s[0]) && !is_space(s.last())),
    ensures
        trimmed(s) == s,
{
}

/// Where a text starts with no white space, what trimming leaves starts as the text does.
pub proof fn lemma_trimmed_head(s: Seq<char>)
    requires
        s.len() > 0,
        !is_space(s[0]),
    ensures
        trimmed(s).len() > 0 && trimmed(s)[0] == s[0],
{
    lemma_trimmed_end_head(s);
}

proof fn lemma_trimmed_end_head(s: Seq<char>)
    requires
        s.len() > 0,
        !is_space(s[0]),
    ensures
        trimmed_end(s).len() > 0 && trimmed_end(s)[0] == s[0],
    decreases s.len(),
{
    if is_space(s.last()) {
        lemma_trimmed_end_head(s.drop_last());
    }
}

// ---------------------------------------------------------------------------
// Searching
// ---------------------------------------------------------------------------

/// Does `pattern` stand in `s` at index `i`?
pub open spec fn occurs_at(s: Seq<char>, pattern: Seq<char>, i: int) -> bool {
    0 <= i && i + pattern.len() <= s.len() && s.subrange(i, i + pattern.len()) == pattern
}

/// Does `pattern` stand anywhere in `s`?
pub open spec fn contains_text(s: Seq<char>, pattern: Seq<char>) -> bool {
    exists|i: int| occurs_at(s, pattern, i)
}

/// The first index, not before `from`, at which `pattern` stands in `s`.
pub open spec fn find_from(s: Seq<char>, pattern: Seq<char>, from: int) -> Option<int>
    decreases s.len() + 1 - from,
{
    if from < 0 || from + pattern.len() > s.len() {
        None
    } else if occurs_at(s, pattern, from) {
        Some(from)
    } else {
        find_from(s, pattern, from + 1)
    }
}

/// The first index at which `pattern` stands in `s`.
pub open spec fn find_text(s: Seq<char>, pattern: Seq<char>) -> Option<int> {
    find_from(s, pattern, 0)
}

/// `find_from` finds an index exactly when there is one, and the first one.
pub proof fn lemma_find_from(s: Seq<char>, pattern: Seq<char>, from: int)
    requires
        0 <= from,
    ensures
        match find_from(s, pattern, from) {
            Some(i) => from <= i && occurs_at(s, pattern, i) && forall|j: int|
                from <= j < i ==> !occurs_at(s, pattern, j),
            None => forall|j: int| from <= j ==> !occurs_at(s, pattern, j),
        },
    decreases s.len() + 1 - from,
{
    if from + pattern.len() <= s.len() && !occurs_at(s, pattern, from) {
        lemma_find_from(s, pattern, from + 1);
    }
}

/// An index at which the pattern stands, with none before it, is the one that is found.
pub proof fn lemma_find_text_is(s: Seq<char>, pattern: Seq<char>, i: int)
    requires
        occurs_at(s, pattern, i),
        forall|j: int| 0 <= j < i ==> !occurs_at(s, pattern, j),
    ensures
        find_text(s, pattern) == Some(i),
{
    lemma_find_from(s, pattern, 0);
    match find_text(s, pattern) {
        Some(k) => {
            if k < i {
                assert(!occurs_at(s, pattern, k));
            } else if i < k {
                assert(!occurs_at(s, pattern, i));
            }
        },
        None => {
            assert(!occurs_at(s, pattern, i));
        },
    }
}

fn stands_at(cs: &Vec<char>, pattern: &Vec<char>, i: usize) -> (r: bool)
    requires
        i + pattern@.len() <= cs@.len(),
    ensures
        r == occurs_at(cs@, pattern@, i as int),
{
    let n: usize = cs.len();
    let mut k: usize = 0;
    while k < pattern.len()
        invariant
            n == cs@.len(),
            i + pattern@.len() <= n,
            k <= pattern@.len(),
            forall|j: int| 0 <= j < k ==> cs@[i + j] == pattern@[j],
        decreases pattern@.len() - k,
    {
        if cs[i + k] != pattern[k] {
            assert(cs@.subrange(i as int, i + pattern@.len())[k as int] != pattern@[k as int]);
            return false;
        }
        k = k + 1;
    }
    assert(cs@.subrange(i as int, i + pattern@.len()) =~= pattern@);
    true
}

/// The first index at which `pattern` stands in `cs`.
pub fn find(cs: &Vec<char>, pattern: &Vec<char>) -> (r: Option<usize>)
    ensures
        match r {
            Some(i) => find_text(cs@, pattern@) == Some(i as int),
            None => find_text(cs@, pattern@) is None,
        },
{
    if pattern.len() > cs.len() {
        return None;
    }
    let last: usize = cs.len() - pattern.len();
    let mut i: usize = 0;
    loop
        invariant
            last + pattern@.len() == cs@.len(),
            i <= last,
            find_text(cs@, pattern@) == find_from(cs@, pattern@, i as int),
        decreases last - i,
    {
        if stands_at(cs, pattern, i) {
            return Some(i);
        }
        if i == last {
            assert(find_from(cs@, pattern@, last + 1) is None);
            return None;
        }
        i = i + 1;
    }
}

/// Does `pattern` stand anywhere in `s`?
pub fn contains(s: &str, pattern: &str) -> (r: bool)
    ensures
        r == contains_text(s@, pattern@),
{
    let cs = chars_of(s);
    let ps = chars_of(pattern);
    let found = find(&cs, &ps);
    proof {
        lemma_find_from(s@, pattern@, 0);
    }
    match found {
        Some(i) => {
            assert(occurs_at(s@, pattern@, i as int));
            true
        },
        None => {
            assert forall|j: int| !occurs_at(s@, pattern@, j) by {}
            false
        },
    }
}

/// The first index, not before `from`, at which the character `c` stands in `s`.
pub open spec fn find_char_from(s: Seq<char>, c: char, from: int) -> Option<int>
    decreases s.len() - from,
{
    if from < 0 || from >= s.len() {
        None
    } else if s[from] == c {
        Some(from)
    } else {
        find_char_from(s, c, from + 1)
    }
}

/// `find_char_from` finds an index exactly when there is one, and the first one.
pub proof fn lemma_find_char_from(s: Seq<char>, c: char, from: int)
    requires
        0 <= from,
    ensures
        match find_char_from(s, c, from) {
            Some(i) => from <= i < s.len() && s[i] == c && forall|j: int| from <= j < i ==> s[j] != c,
            None => forall|j: int| from <= j < s.len() ==> s[j] != c,
        },
    decreases s.len() - from,
{
    if from < s.len() && s[from] != c {
        lemma_find_char_from(s, c, from + 1);
    }
}

/// An index that holds the character, with none before it, is the one that is found.
pub proof fn lemma_find_char_is(s: Seq<char>, c: char, from: int, i: int)
    requires
        0 <= from <= i < s.len(),
        s[i] == c,
        forall|j: int| from <= j < i ==> s[j] != c,
    ensures
        find_char_from(s, c, from) == Some(i),
{
    lemma_find_char_from(s, c, from);
}

/// The first index, not before `from`, at which the character `c` stands in `cs`.
pub fn find_char(cs: &Vec<char>, c: char, from: usize) -> (r: Option<usize>)
    ensures
        match r {
            Some(i) => find_char_from(cs@, c, from as int) == Some(i as int) && from <= i < cs@.len(),
            None => find_char_from(cs@, c, from as int) is None,
        },
{
    let mut i: usize = from;
    while i < cs.len()
        invariant
            from <= i,
            i <= cs@.len() || i == from,
            find_char_from(cs@, c, from as int) == find_char_from(cs@, c, i as int),
        decreases cs@.len() - i,
    {
        if cs[i] == c {
            return Some(i);
        }
        i = i + 1;
    }
    None
}

/// `rest` where `s` is `prefix` followed by `rest`.
pub open spec fn after_prefix(s: Seq<char>, prefix: Seq<char>) -> Option<Seq<char>> {
    if occurs_at(s, prefix, 0) {
        Some(s.skip(prefix.len() as int))
    } else {
        None
    }
}

/// `rest` where `s` is `rest` followed by `suffix`.
pub open spec fn before_suffix(s: Seq<char>, suffix: Seq<char>) -> Option<Seq<char>> {
    if occurs_at(s, suffix, s.len() - suffix.len()) {
        Some(s.take(s.len() - suffix.len()))
    } else {
        None
    }
}

/// The text after `prefix`, where `s` starts with it.
pub fn strip_prefix(s: &str, prefix: &str) -> (r: Option<String>)
    ensures
        opt_string_view(r) == after_prefix(s@, prefix@),
{
    let cs = chars_of(s);
    let ps = chars_of(prefix);
    if ps.len() <= cs.len() && stands_at(&cs, &ps, 0) {
        let rest = string_of(&cs, ps.len(), cs.len());
        assert(rest@ =~= s@.skip(prefix@.len() as int));
        Some(rest)
    } else {
        None
    }
}

/// The text before `suffix`, where `s` ends with it.
pub fn strip_suffix(s: &str, suffix: &str) -> (r: Option<String>)
    ensures
        opt_string_view(r) == before_suffix(s@, suffix@),
{
    let cs = chars_of(s);
    let ps = chars_of(suffix);
    if ps.len() <= cs.len() && stands_at(&cs, &ps, cs.len() - ps.len()) {
        let rest = string_of(&cs, 0, cs.len() - ps.len());
        assert(rest@ =~= s@.take(s@.len() - suffix@.len()));
        Some(rest)
    } else {
        None
    }
}

/// `s` without the repetitions of `suffix` that it ends with.
pub open spec fn without_suffixes(s: Seq<char>, suffix: Seq<char>) -> Seq<char>
    decreases s.len(),
{
    match before_suffix(s, suffix) {
        Some(rest) => if rest.len() < s.len() {
            without_suffixes(rest, suffix)
        } else {
            s
        },
        None => s,
    }
}

/// `s` without the repetitions of `suffix` that it ends with.
pub fn trim_end_matches(s: &str, suffix: &str) -> (r: String)
    requires
        suffix@.len() > 0,
    ensures
        r@ == without_suffixes(s@, suffix@),
{
    let cs = chars_of(s);
    let ps = chars_of(suffix);
    let mut to: usize = cs.len();
    assert(cs@.take(to as int) =~= cs@);
    while ps.len() <= to && stands_at(&cs, &ps, to - ps.len())
        invariant
            to <= cs@.len(),
            ps@ == suffix@,
            suffix@.len() > 0,
            cs@ == s@,
            without_suffixes(s@, suffix@) == without_suffixes(s@.take(to as int), suffix@),
        decreases to,
    {
        let ghost cut: int = to - suffix@.len();
        assert(s@.take(to as int).subrange(cut, to as int) =~= s@.subrange(cut, to as int));
        assert(s@.take(to as int).take(cut) =~= s@.take(cut));
        to = to - ps.len();
    }
    proof {
        let cut: int = to - suffix@.len();
        if cut >= 0 {
            assert(s@.take(to as int).subrange(cut, to as int) =~= s@.subrange(cut, to as int));
        }
    }
    let rest = string_of(&cs, 0, to);
    assert(rest@ =~= s@.take(to as int));
    rest
}

/// `s` without the repetitions of the character `c` that it starts with.
pub open spec fn without_leading(s: Seq<char>, c: char) -> Seq<char>
    decreases s.len(),
{
    if s.len() > 0 && s[0] == c {
        without_leading(s.skip(1), c)
    } else {
        s
    }
}

/// `s` without the repetitions of the character `c` that it starts with.
pub fn trim_start_char(s: &str, c: char) -> (r: String)
    ensures
        r@ == without_leading(s@, c),
{
    let cs = chars_of(s);
    let mut from: usize = 0;
    assert(cs@.skip(0) =~= cs@);
    while from < cs.len() && cs[from] == c
        invariant
            from <= cs@.len(),
            without_leading(cs@, c) == without_leading(cs@.skip(from as int), c),
        decreases cs@.len() - from,
    {
        assert(cs@.skip(from as int).skip(1) =~= cs@.skip(from + 1));
        from = from + 1;
    }
    let rest = string_of(&cs, from, cs.len());
    assert(rest@ =~= cs@.skip(from as int));
    rest
}

// ---------------------------------------------------------------------------
// Laws
// ---------------------------------------------------------------------------

/// The characters that count as white space, one by one.
pub proof fn law_white_space(c: char)
    ensures
        is_space(c) <==> {
            ||| c == '\t'
            ||| c == '\n'
            ||| c == '\u{b}'
            ||| c == '\u{c}'
            ||| c == '\r'
            ||| c == ' '
            ||| c == '\u{85}'
            ||| c == '\u{a0}'
            ||| c == '\u{1680}'
            ||| '\u{2000}' <= c <= '\u{200a}'
            ||| c == '\u{2028}'
            ||| c == '\u{2029}'
            ||| c == '\u{202f}'
            ||| c == '\u{205f}'
            ||| c == '\u{3000}'
        },
{
}

/// Trimming takes away white space from both ends and nothing else: what is left stands in the
/// text between white space only, and neither starts nor ends with any.
pub proof fn law_trimming_takes_white_space_only(s: Seq<char>)
    ensures
        exists|a: int, b: int|
            #![trigger s.subrange(a, b)]
            0 <= a <= b <= s.len() && trimmed(s) == s.subrange(a, b) && (forall|i: int|
                0 <= i < a ==> is_space(#[trigger] s[i])) && (forall|i: int|
                b <= i < s.len() ==> is_space(#[trigger] s[i])),
        trimmed(s).len() > 0 ==> !is_space(trimmed(s)[0]) && !is_space(
            trimmed(s)[trimmed(s).len() - 1],
        ),
        trimmed(s).len() == 0 <==> forall|i: int| 0 <= i < s.len() ==> is_space(#[trigger] s[i]),
{
    let a = lemma_trimmed_start_cut(s);
    let t = trimmed_start(s);
    let n = lemma_trimmed_end_cut(t);
    let b = a + n;
    assert(trimmed(s) =~= s.subrange(a, b));
    assert forall|i: int| b <= i < s.len() implies is_space(#[trigger] s[i]) by {
        assert(t[i - a] == s[i]);
    }
    if n > 0 {
        assert(t[0] == s[a]);
        assert(trimmed(s)[0] == t[0]);
        assert(trimmed(s)[n - 1] == t[n - 1]);
    }
    if trimmed(s).len() == 0 {
        assert(a == b);
    } else {
        assert(!is_space(s[a]));
    }
}

proof fn lemma_trimmed_start_cut(s: Seq<char>) -> (a: int)
    ensures
        0 <= a <= s.len(),
        trimmed_start(s) == s.skip(a),
        forall|i: int| 0 <= i < a ==> is_space(#[trigger] s[i]),
        a < s.len() ==> !is_space(s[a]),
    decreases s.len(),
{
    if s.len() > 0 && is_space(s[0]) {
        let rest = s.skip(1);
        let a = lemma_trimmed_start_cut(rest);
        assert(rest.skip(a) =~= s.skip(a + 1));
        assert forall|i: int| 0 <= i < a + 1 implies is_space(#[trigger] s[i]) by {
            if i > 0 {
                assert(rest[i - 1] == s[i]);
            }
        }
        if a < rest.len() {
            assert(rest[a] == s[a + 1]);
        }
        a + 1
    } else {
        assert(s.skip(0) =~= s);
        0
    }
}

proof fn lemma_trimmed_end_cut(s: Seq<char>) -> (b: int)
    ensures
        0 <= b <= s.len(),
        trimmed_end(s) == s.take(b),
        forall|i: int| b <= i < s.len() ==> is_space(#[trigger] s[i]),
        b > 0 ==> !is_space(s[b - 1]),
    decreases s.len(),
{
    if s.len() > 0 && is_space(s.last()) {
        let rest = s.drop_last();
        let b = lemma_trimmed_end_cut(rest);
        assert(rest.take(b) =~= s.take(b));
        assert forall|i: int| b <= i < s.len() implies is_space(#[trigger] s[i]) by {
            if i < rest.len() {
                assert(rest[i] == s[i]);
            }
        }
        b
    } else {
        assert(s.take(s.len() as int) =~= s);
        s.len() as int
    }
}

/// White space around a text makes no difference to what trimming leaves.
pub proof fn law_padding_is_trimmed(before: Seq<char>, s: Seq<char>, after: Seq<char>)
    requires
        forall|i: int| 0 <= i < before.len() ==> is_space(#[trigger] before[i]),
        forall|i: int| 0 <= i < after.len() ==> is_space(#[trigger] after[i]),
    ensures
        trimmed(before + s + after) == trimmed(s),
{
    lemma_leading_space(before, s + after);
    assert(before + s + after =~= before + (s + after));
    lemma_trailing_space(s, after);
    if forall|i: int| 0 <= i < s.len() ==> is_space(#[trigger] s[i]) {
        let all = s + after;
        assert forall|i: int| 0 <= i < all.len() implies is_space(#[trigger] all[i]) by {
            if i < s.len() {
                assert(all[i] == s[i]);
            } else {
                assert(all[i] == after[i - s.len()]);
            }
        }
        law_trimming_takes_white_space_only(s);
        law_trimming_takes_white_space_only(all);
        assert(trimmed(s) =~= trimmed(all));
    }
}

proof fn lemma_leading_space(before: Seq<char>, s: Seq<char>)
    requires
        forall|i: int| 0 <= i < before.len() ==> is_space(#[trigger] before[i]),
    ensures
        trimmed_start(before + s) == trimmed_start(s),
    decreases before.len(),
{
    if before.len() == 0 {
        assert(before + s =~= s);
    } else {
        let rest = before.skip(1);
        assert((before + s).skip(1) =~= rest + s);
        assert forall|i: int| 0 <= i < rest.len() implies is_space(#[trigger] rest[i]) by {
            assert(rest[i] == before[i + 1]);
        }
        assert(is_space(before[0]));
        lemma_leading_space(rest, s);
    }
}

proof fn lemma_trailing_space(s: Seq<char>, after: Seq<char>)
    requires
        forall|i: int| 0 <= i < after.len() ==> is_space(#[trigger] after[i]),
    ensures
        (exists|i: int| 0 <= i < s.len() && !is_space(#[trigger] s[i])) ==> trimmed(s + after)
            == trimmed(s),
{
    if exists|i: int| 0 <= i < s.len() && !is_space(#[trigger] s[i]) {
        lemma_start_of_longer(s, after);
        lemma_end_of_longer(trimmed_start(s), after);
    }
}

proof fn lemma_start_of_longer(s: Seq<char>, after: Seq<char>)
    requires
        exists|i: int| 0 <= i < s.len() && !is_space(#[trigger] s[i]),
    ensures
        trimmed_start(s + after) == trimmed_start(s) + after,
    decreases s.len(),
{
    let i = choose|i: int| 0 <= i < s.len() && !is_space(#[trigger] s[i]);
    if is_space(s[0]) {
        assert((s + after).skip(1) =~= s.skip(1) + after);
        assert(s.skip(1)[i - 1] == s[i]);
        lemma_start_of_longer(s.skip(1), after);
    }
}

proof fn lemma_end_of_longer(s: Seq<char>, after: Seq<char>)
    requires
        forall|i: int| 0 <= i < after.len() ==> is_space(#[trigger] after[i]),
    ensures
        trimmed_end(s + after) == trimmed_end(s),
    decreases after.len(),
{
    if after.len() == 0 {
        assert(s + after =~= s);
    } else {
        assert((s + after).drop_last() =~= s + after.drop_last());
        assert((s + after).last() == after[after.len() - 1]);
        lemma_end_of_longer(s, after.drop_last());
    }
}

/// A pattern stands in a text where the characters are those of the pattern, one by one.
pub proof fn law_occurrence_is_by_characters(s: Seq<char>, pattern: Seq<char>, i: int)
    ensures
        occurs_at(s, pattern, i) <==> {
            &&& 0 <= i
            &&& i + pattern.len() <= s.len()
            &&& forall|k: int| 0 <= k < pattern.len() ==> s[i + k] == #[trigger] pattern[k]
        },
{
    if 0 <= i && i + pattern.len() <= s.len() {
        let w = s.subrange(i, i + pattern.len());
        if w == pattern {
            assert forall|k: int| 0 <= k < pattern.len() implies s[i + k] == #[trigger] pattern[k] by {
                assert(w[k] == s[i + k]);
            }
        } else if forall|k: int| 0 <= k < pattern.len() ==> s[i + k] == #[trigger] pattern[k] {
            assert(w =~= pattern);
        }
    }
}

/// A text contains a pattern exactly where it is something, the pattern, and something more.
pub proof fn law_containing_is_standing_between(s: Seq<char>, pattern: Seq<char>)
    ensures
        contains_text(s, pattern) <==> exists|before: Seq<char>, after: Seq<char>|
            s == #[trigger] (before + pattern + after),
{
    if contains_text(s, pattern) {
        let i = choose|i: int| occurs_at(s, pattern, i);
        let before = s.take(i);
        let after = s.skip(i + pattern.len());
        assert(s =~= before + pattern + after);
    }
    if exists|before: Seq<char>, after: Seq<char>| s == #[trigger] (before + pattern + after) {
        let (before, after) = choose|before: Seq<char>, after: Seq<char>|
            s == #[trigger] (before + pattern + after);
        let at = before.len() as int;
        assert(s.subrange(at, at + pattern.len()) =~= pattern);
        assert(occurs_at(s, pattern, at));
    }
}

/// What follows a prefix, or precedes a suffix, is what makes the text together with it.
pub proof fn law_affixes_make_the_text(s: Seq<char>, affix: Seq<char>, rest: Seq<char>)
    ensures
        after_prefix(s, affix) == Some(rest) <==> s == affix + rest,
        before_suffix(s, affix) == Some(rest) <==> s == rest + affix,
{
    if after_prefix(s, affix) == Some(rest) {
        assert(s =~= affix + rest);
    }
    if s == affix + rest {
        assert(s.subrange(0, affix.len() as int) =~= affix);
        assert(s.skip(affix.len() as int) =~= rest);
    }
    if before_suffix(s, affix) == Some(rest) {
        assert(s =~= rest + affix);
    }
    if s == rest + affix {
        let n = s.len() - affix.len();
        assert(s.subrange(n, s.len() as int) =~= affix);
        assert(s.take(n) =~= rest);
    }
}

/// A suffix is taken off as often as it stands at the end: a text that does not end with it is
/// kept, and one more repetition makes no difference.
pub proof fn law_suffixes_are_taken_off(s: Seq<char>, suffix: Seq<char>)
    requires
        suffix.len() > 0,
    ensures
        without_suffixes(s + suffix, suffix) == without_suffixes(s, suffix),
        (forall|rest: Seq<char>| s != #[trigger] (rest + suffix)) ==> without_suffixes(s, suffix)
            == s,
        forall|rest: Seq<char>| without_suffixes(s, suffix) != #[trigger] (rest + suffix),
    decreases s.len(),
{
    law_affixes_make_the_text(s + suffix, suffix, s);
    match before_suffix(s, suffix) {
        Some(rest) => {
            law_affixes_make_the_text(s, suffix, rest);
            law_suffixes_are_taken_off(rest, suffix);
        },
        None => {
            assert forall|rest: Seq<char>| s != #[trigger] (rest + suffix) by {
                law_affixes_make_the_text(s, suffix, rest);
            }
        },
    }
}

/// A leading character is taken off as often as it stands at the start, and nothing else is.
pub proof fn law_leading_characters_are_taken_off(s: Seq<char>, c: char)
    ensures
        without_leading(seq![c] + s, c) == without_leading(s, c),
        s.len() == 0 || s[0] != c ==> without_leading(s, c) == s,
{
    assert((seq![c] + s).skip(1) =~= s);
}

} // verus!
