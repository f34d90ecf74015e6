//! Decimal numerals: writing integers, and reading them back.

use vstd::prelude::*;
use crate::text::chars_of;

verus! {

/// Is `c` one of `0` to `9`?
pub open spec fn is_digit(c: char) -> bool {
    '0' <= c <= '9'
}

/// Is every character of `s` a digit?
pub open spec fn all_digits(s: Seq<char>) -> bool {
    forall|i: int| 0 <= i < s.len() ==> is_digit(#[trigger] s[i])
}

/// The digit that stands for `n`, for `n` below ten.
pub open spec fn digit_char(n: int) -> char {
    (48 + n) as char
}

/// The number that a digit stands for.
pub open spec fn digit_value(c: char) -> int {
    c as int - 48
}

/// The numeral of a natural number, without leading zeros.
pub open spec fn digits(n: nat) -> Seq<char>
    decreases n,
{
    if n < 10 {
        seq![digit_char(n as int)]
    } else {
        digits(n / 10).push(digit_char((n % 10) as int))
    }
}

/// The numeral of an integer: a minus sign before the digits of a negative one.
pub open spec fn int_text(n: int) -> Seq<char> {
    if n < 0 {
        seq!['-'] + digits((-n) as nat)
    } else {
        digits(n as nat)
    }
}

/// The number that a sequence of digits stands for.
pub open spec fn digits_value(s: Seq<char>) -> int
    decreases s.len(),
{
    if s.len() == 0 {
        0
    } else {
        digits_value(s.drop_last()) * 10 + digit_value(s.last())
    }
}

/// The value of a numeral of at least one digit after an optional plus sign.
pub open spec fn unsigned_value(s: Seq<char>) -> Option<int> {
    let body = if s.len() > 0 && s[0] == '+' {
        s.skip(1)
    } else {
        s
    };
    if body.len() > 0 && all_digits(body) {
        Some(digits_value(body))
    } else {
        None
    }
}

/// The value of a numeral of at least one digit after an optional plus or minus sign.
pub open spec fn signed_value(s: Seq<char>) -> Option<int> {
    if s.len() > 0 && s[0] == '-' {
        let body = s.skip(1);
        if body.len() > 0 && all_digits(body) {
            Some(-digits_value(body))
        } else {
            None
        }
    } else {
        unsigned_value(s)
    }
}

/// What reading `s` as an `i64` gives: its value, where it has one that fits.
pub open spec fn i64_of(s: Seq<char>) -> Option<i64> {
    match signed_value(s) {
        Some(v) => if i64::MIN <= v <= i64::MAX {
            Some(v as i64)
        } else {
            None
        },
        None => None,
    }
}

/// What reading `s` as a `u64` gives: its value, where it has one that fits.
pub open spec fn u64_of(s: Seq<char>) -> Option<u64> {
    match unsigned_value(s) {
        Some(v) => if v <= u64::MAX {
            Some(v as u64)
        } else {
            None
        },
        None => None,
    }
}

/// Two digits of a number below a hundred.
pub open spec fn two_digits(n: int) -> Seq<char> {
    seq![digit_char(n / 10), digit_char(n % 10)]
}

/// Four digits of a number below ten thousand.
pub open spec fn four_digits(n: int) -> Seq<char> {
    two_digits(n / 100) + two_digits(n % 100)
}

// ---------------------------------------------------------------------------
// Writing
// ---------------------------------------------------------------------------

fn append_digits(out: &mut String, n: u64)
    ensures
        final(out)@ == old(out)@ + digits(n as nat),
    decreases n,
{
    let ghost before = out@;
    let d: u8 = (n % 10) as u8;
    let c: char = (48u8 + d) as char;
    if n >= 10 {
        append_digits(out, n / 10);
    }
    out.push(c);
    assert(out@ =~= before + digits(n as nat));
}

/// Append the numeral of `n`.
pub fn append_u64(out: &mut String, n: u64)
    ensures
        final(out)@ == old(out)@ + int_text(n as int),
{
    append_digits(out, n);
}

/// Append the numeral of `n`.
pub fn append_i64(out: &mut String, n: i64)
    ensures
        final(out)@ == old(out)@ + int_text(n as int),
{
    let ghost before = out@;
    if n < 0 {
        let magnitude: u64 = if n == i64::MIN {
            0x8000_0000_0000_0000
        } else {
            (-n) as u64
        };
        out.push('-');
        append_digits(out, magnitude);
        assert(out@ =~= before + int_text(n as int));
    } else {
        append_digits(out, n as u64);
    }
}

/// The numeral of `n`.
pub fn i64_text(n: i64) -> (r: String)
    ensures
        r@ == int_text(n as int),
{
    let mut out = String::new();
    append_i64(&mut out, n);
    assert(out@ =~= int_text(n as int));
    out
}

// ---------------------------------------------------------------------------
// Reading
// ---------------------------------------------------------------------------

proof fn lemma_value_nonnegative(s: Seq<char>)
    requires
        all_digits(s),
    ensures
        digits_value(s) >= 0,
    decreases s.len(),
{
    if s.len() > 0 {
        assert forall|i: int| 0 <= i < s.drop_last().len() implies is_digit(
            #[trigger] s.drop_last()[i],
        ) by {
            assert(is_digit(s[i]));
        }
        lemma_value_nonnegative(s.drop_last());
        assert(is_digit(s[s.len() - 1]));
    }
}

/// The value of a prefix of a numeral is no larger than that of the numeral.
proof fn lemma_value_of_prefix(s: Seq<char>, k: int)
    requires
        all_digits(s),
        0 <= k <= s.len(),
    ensures
        0 <= digits_value(s.take(k)) <= digits_value(s),
    decreases s.len() - k,
{
    assert forall|i: int| 0 <= i < s.take(k).len() implies is_digit(#[trigger] s.take(k)[i]) by {
        assert(is_digit(s[i]));
    }
    lemma_value_nonnegative(s.take(k));
    if k == s.len() {
        assert(s.take(k) =~= s);
    } else {
        lemma_value_of_prefix(s, k + 1);
        assert(s.take(k + 1).drop_last() =~= s.take(k));
        assert(is_digit(s[k]));
    }
}

/// Read the digits `cs[from..]`.
fn read_digits(cs: &Vec<char>, from: usize) -> (r: Option<u64>)
    requires
        from <= cs@.len(),
    ensures
        ({
            let body = cs@.skip(from as int);
            match r {
                Some(v) => body.len() > 0 && all_digits(body) && digits_value(body) == v,
                None => !(body.len() > 0 && all_digits(body) && digits_value(body) <= u64::MAX),
            }
        }),
{
    let ghost body = cs@.skip(from as int);
    let n: usize = cs.len();
    if from == n {
        return None;
    }
    let mut i: usize = from;
    let mut acc: u64 = 0;
    while i < n
        invariant
            n == cs@.len(),
            from <= i <= n,
            body == cs@.skip(from as int),
            forall|j: int| 0 <= j < i - from ==> is_digit(#[trigger] body[j]),
            acc == digits_value(body.take(i - from)),
        decreases n - i,
    {
        let c: char = cs[i];
        assert(body[i - from] == c);
        if c < '0' || '9' < c {
            return None;
        }
        let d: u64 = c as u64 - 48;
        proof {
            assert(body.take(i - from + 1).drop_last() =~= body.take(i - from));
            assert(digits_value(body.take(i - from + 1)) == acc * 10 + d);
            if all_digits(body) {
                lemma_value_of_prefix(body, i - from + 1);
            }
        }
        if acc > 1844674407370955161 || acc * 10 > 0xffff_ffff_ffff_ffff - d {
            return None;
        }
        acc = acc * 10 + d;
        i = i + 1;
    }
    assert(body.take(n - from) =~= body);
    Some(acc)
}

/// Read a `u64`: digits after an optional plus sign.
pub fn parse_u64(s: &str) -> (r: Option<u64>)
    ensures
        r == u64_of(s@),
{
    let cs = chars_of(s);
    if cs.len() > 0 && cs[0] == '+' {
        read_digits(&cs, 1)
    } else {
        assert(cs@.skip(0) =~= cs@);
        read_digits(&cs, 0)
    }
}

/// Read an `i64`: digits after an optional plus or minus sign.
pub fn parse_i64(s: &str) -> (r: Option<i64>)
    ensures
        r == i64_of(s@),
{
    let cs = chars_of(s);
    let negative: bool = cs.len() > 0 && cs[0] == '-';
    let from: usize = if cs.len() > 0 && (cs[0] == '-' || cs[0] == '+') {
        1
    } else {
        0
    };
    assert(cs@.skip(0) =~= cs@);
    proof {
        if all_digits(cs@.skip(from as int)) {
            lemma_value_nonnegative(cs@.skip(from as int));
        }
    }
    match read_digits(&cs, from) {
        Some(v) => if negative {
            if v < 0x8000_0000_0000_0000 {
                Some(-(v as i64))
            } else if v == 0x8000_0000_0000_0000 {
                Some(i64::MIN)
            } else {
                None
            }
        } else if v <= 0x7fff_ffff_ffff_ffff {
            Some(v as i64)
        } else {
            None
        },
        None => None,
    }
}

/// Is every character of `s` a digit?
pub fn only_digits(s: &str) -> (r: bool)
    ensures
        r == all_digits(s@),
{
    let cs = chars_of(s);
    let mut i: usize = 0;
    while i < cs.len()
        invariant
            cs@ == s@,
            i <= cs@.len(),
            forall|j: int| 0 <= j < i ==> is_digit(#[trigger] s@[j]),
        decreases cs@.len() - i,
    {
        let c: char = cs[i];
        if c < '0' || '9' < c {
            assert(!is_digit(s@[i as int]));
            return false;
        }
        i = i + 1;
    }
    true
}

// ---------------------------------------------------------------------------
// Laws
// ---------------------------------------------------------------------------

/// A numeral holds at least one digit, nothing but digits, and its value is the number.
pub proof fn lemma_digits(n: nat)
    ensures
        digits(n).len() > 0,
        all_digits(digits(n)),
        digits_value(digits(n)) == n,
    decreases n,
{
    if n < 10 {
        assert(digits(n).drop_last() =~= Seq::<char>::empty());
        assert(digits_value(Seq::<char>::empty()) == 0);
    } else {
        lemma_digits(n / 10);
        assert(digits(n).drop_last() =~= digits(n / 10));
        assert forall|i: int| 0 <= i < digits(n).len() implies is_digit(#[trigger] digits(n)[i]) by {
            if i < digits(n / 10).len() {
                assert(digits(n)[i] == digits(n / 10)[i]);
            }
        }
    }
}

/// Reading the numeral of an `i64` gives the number back.
pub proof fn law_i64_text_reads_back(n: i64)
    ensures
        i64_of(int_text(n as int)) == Some(n),
{
    if n < 0 {
        lemma_digits((-n) as nat);
        assert(int_text(n as int).skip(1) =~= digits((-n) as nat));
    } else {
        lemma_digits(n as nat);
        assert(is_digit(digits(n as nat)[0]));
    }
}

/// Reading the numeral of a `u64` gives the number back.
pub proof fn law_u64_text_reads_back(n: u64)
    ensures
        u64_of(int_text(n as int)) == Some(n),
{
    lemma_digits(n as nat);
    assert(is_digit(digits(n as nat)[0]));
}

/// A sequence of digits is the numeral of its value, with any number of zeros before it.
pub proof fn law_digits_are_the_numeral_of_their_value(s: Seq<char>)
    requires
        s.len() > 0,
        all_digits(s),
    ensures
        digits_value(s) >= 0,
        exists|k: int|
            #![trigger s.skip(k)]
            0 <= k < s.len() && (forall|i: int| 0 <= i < k ==> #[trigger] s[i] == '0') && s.skip(k)
                == digits(digits_value(s) as nat),
    decreases s.len(),
{
    lemma_value_nonnegative(s);
    let head = s.drop_last();
    let last = s[s.len() - 1];
    assert(is_digit(last));
    let v = digits_value(s);
    if head.len() == 0 {
        assert(digits_value(head) == 0);
        assert(s.skip(0) =~= digits(v as nat));
        assert(forall|i: int| 0 <= i < 0 ==> #[trigger] s[i] == '0');
    } else {
        assert forall|i: int| 0 <= i < head.len() implies is_digit(#[trigger] head[i]) by {
            assert(is_digit(s[i]));
        }
        law_digits_are_the_numeral_of_their_value(head);
        let k = choose|k: int|
            #![trigger head.skip(k)]
            0 <= k < head.len() && (forall|i: int| 0 <= i < k ==> #[trigger] head[i] == '0')
                && head.skip(k) == digits(digits_value(head) as nat);
        assert forall|i: int| 0 <= i < k implies #[trigger] s[i] == '0' by {
            assert(head[i] == s[i]);
        }
        if digits_value(head) == 0 {
            assert(head.skip(k) =~= seq!['0']);
            assert(head.skip(k)[0] == head[k]);
            let n = s.len() - 1;
            assert(head.len() - k == 1);
            assert(s.skip(n) =~= digits(v as nat));
            assert forall|i: int| 0 <= i < n implies #[trigger] s[i] == '0' by {
                assert(head[i] == s[i]);
            }
        } else {
            assert(s.skip(k) =~= head.skip(k).push(last));
            assert(v as nat / 10 == digits_value(head) as nat);
            assert(s.skip(k) =~= digits(v as nat));
        }
    }
}

/// What is read as an `i64` is a numeral of it: its digits, with zeros before them or not, after
/// a minus sign where it is negative, or after a plus sign or none. Nothing else is read as one.
pub proof fn law_i64_is_read_from_its_numerals(zeros: Seq<char>, n: i64)
    requires
        forall|i: int| 0 <= i < zeros.len() ==> #[trigger] zeros[i] == '0',
    ensures
        n >= 0 ==> i64_of(zeros + digits(n as nat)) == Some(n),
        n >= 0 ==> i64_of(seq!['+'] + zeros + digits(n as nat)) == Some(n),
        n <= 0 ==> i64_of(seq!['-'] + zeros + digits((-n) as nat)) == Some(n),
{
    let m: nat = if n < 0 {
        (-n) as nat
    } else {
        n as nat
    };
    let ds = digits(m);
    let all = zeros + ds;
    lemma_digits(m);
    lemma_zeros_before(zeros, ds);
    assert forall|i: int| 0 <= i < all.len() implies is_digit(#[trigger] all[i]) by {
        if i < zeros.len() {
            assert(all[i] == zeros[i]);
        } else {
            assert(all[i] == ds[i - zeros.len()]);
        }
    }
    assert(is_digit(all[0]));
    assert((seq!['+'] + zeros + ds).skip(1) =~= all);
    assert((seq!['-'] + zeros + ds).skip(1) =~= all);
}

proof fn lemma_zeros_before(zeros: Seq<char>, s: Seq<char>)
    requires
        forall|i: int| 0 <= i < zeros.len() ==> #[trigger] zeros[i] == '0',
    ensures
        digits_value(zeros + s) == digits_value(s),
    decreases s.len(), zeros.len(),
{
    let all = zeros + s;
    if s.len() == 0 {
        assert(all =~= zeros);
        if zeros.len() > 0 {
            assert(zeros[zeros.len() - 1] == '0');
            lemma_zeros_before(zeros.drop_last(), s);
            assert(zeros.drop_last() + s =~= zeros.drop_last());
        }
    } else {
        assert(all.drop_last() =~= zeros + s.drop_last());
        assert(all.last() == s.last());
        lemma_zeros_before(zeros, s.drop_last());
    }
}

/// A text that is read as an `i64` is its digits, with zeros before them or not, after a sign or
/// none; a text with any other character in it, or without a digit, is none.
pub proof fn law_what_is_read_as_an_i64(s: Seq<char>)
    ensures
        i64_of(s) matches Some(n) ==> exists|k: int|
            #![trigger s.skip(k)]
            0 <= k < s.len() && s.skip(k) == digits(if n < 0 {
                -(n as int)
            } else {
                n as int
            } as nat) && (forall|i: int| 1 <= i < k ==> #[trigger] s[i] == '0') && (k > 0 ==> s[0]
                == '0' || (s[0] == '+' && n >= 0) || (s[0] == '-' && n <= 0)) && (n < 0 ==> k > 0
                && s[0] == '-'),
{
    if i64_of(s) is Some {
        let n = i64_of(s)->0;
        let signed = s[0] == '-' || s[0] == '+';
        let body = if signed {
            s.skip(1)
        } else {
            s
        };
        let at: int = if signed {
            1
        } else {
            0
        };
        law_digits_are_the_numeral_of_their_value(body);
        let k = choose|k: int|
            #![trigger body.skip(k)]
            0 <= k < body.len() && (forall|i: int| 0 <= i < k ==> #[trigger] body[i] == '0')
                && body.skip(k) == digits(digits_value(body) as nat);
        assert(s.skip(at + k) =~= body.skip(k));
        assert forall|i: int| 1 <= i < at + k implies #[trigger] s[i] == '0' by {
            assert(body[i - at] == s[i]);
        }
        if !signed && k > 0 {
            assert(body[0] == '0');
        }
        assert(0 <= at + k < s.len());
    }
}

/// The two digits of a number below a hundred, and the four of one below ten thousand, are digits
/// and stand for it; two or four digits are those of the number they stand for.
pub proof fn law_fixed_digits_read_back(n: int, s: Seq<char>)
    ensures
        0 <= n < 100 ==> two_digits(n).len() == 2 && all_digits(two_digits(n)) && digits_value(
            two_digits(n),
        ) == n,
        0 <= n < 10_000 ==> four_digits(n).len() == 4 && all_digits(four_digits(n))
            && digits_value(four_digits(n)) == n,
        s.len() == 2 && all_digits(s) ==> 0 <= digits_value(s) < 100 && s == two_digits(
            digits_value(s),
        ),
        s.len() == 4 && all_digits(s) ==> 0 <= digits_value(s) < 10_000 && s == four_digits(
            digits_value(s),
        ),
{
    reveal_with_fuel(digits_value, 5);
    if 0 <= n < 100 {
        let t = two_digits(n);
        assert(t.drop_last().drop_last() =~= Seq::<char>::empty());
        assert(t.drop_last().last() == t[0]);
    }
    if 0 <= n < 10_000 {
        let t = four_digits(n);
        assert(t.drop_last().drop_last().drop_last().drop_last() =~= Seq::<char>::empty());
        assert(t.drop_last().last() == t[2]);
        assert(t.drop_last().drop_last().last() == t[1]);
        assert(t.drop_last().drop_last().drop_last().last() == t[0]);
    }
    if s.len() == 2 && all_digits(s) {
        assert(is_digit(s[0]) && is_digit(s[1]));
        assert(s.drop_last().drop_last() =~= Seq::<char>::empty());
        assert(s.drop_last().last() == s[0]);
        let v = digits_value(s);
        assert(v == digit_value(s[0]) * 10 + digit_value(s[1]));
        assert(s =~= two_digits(v));
    }
    if s.len() == 4 && all_digits(s) {
        assert(is_digit(s[0]) && is_digit(s[1]) && is_digit(s[2]) && is_digit(s[3]));
        assert(s.drop_last().drop_last().drop_last().drop_last() =~= Seq::<char>::empty());
        assert(s.drop_last().last() == s[2]);
        assert(s.drop_last().drop_last().last() == s[1]);
        assert(s.drop_last().drop_last().drop_last().last() == s[0]);
        let v = digits_value(s);
        assert(v == digit_value(s[0]) * 1000 + digit_value(s[1]) * 100 + digit_value(s[2]) * 10
            + digit_value(s[3]));
        assert(v / 100 == digit_value(s[0]) * 10 + digit_value(s[1]));
        assert(v % 100 == digit_value(s[2]) * 10 + digit_value(s[3]));
        assert(s =~= four_digits(v));
    }
}

/// A text that is read as a `u64` is its digits, with zeros before them or not, after a plus sign
/// or none.
pub proof fn law_what_is_read_as_a_u64(s: Seq<char>)
    ensures
        u64_of(s) matches Some(n) ==> exists|k: int|
            #![trigger s.skip(k)]
            0 <= k < s.len() && s.skip(k) == digits(n as nat) && (forall|i: int|
                1 <= i < k ==> #[trigger] s[i] == '0') && (k > 0 ==> s[0] == '0' || s[0] == '+'),
{
    if u64_of(s) is Some {
        let body = if s[0] == '+' {
            s.skip(1)
        } else {
            s
        };
        let at: int = if s[0] == '+' {
            1
        } else {
            0
        };
        law_digits_are_the_numeral_of_their_value(body);
        let k = choose|k: int|
            #![trigger body.skip(k)]
            0 <= k < body.len() && (forall|i: int| 0 <= i < k ==> #[trigger] body[i] == '0')
                && body.skip(k) == digits(digits_value(body) as nat);
        assert(s.skip(at + k) =~= body.skip(k));
        assert forall|i: int| 1 <= i < at + k implies #[trigger] s[i] == '0' by {
            assert(body[i - at] == s[i]);
        }
        if at == 0 && k > 0 {
            assert(body[0] == '0');
        }
        assert(0 <= at + k < s.len());
    }
}

/// A `u64` is read from its digits, with zeros before them or not, after a plus sign or none.
pub proof fn law_u64_is_read_from_its_numerals(zeros: Seq<char>, n: u64)
    requires
        forall|i: int| 0 <= i < zeros.len() ==> #[trigger] zeros[i] == '0',
    ensures
        u64_of(zeros + digits(n as nat)) == Some(n),
        u64_of(seq!['+'] + zeros + digits(n as nat)) == Some(n),
{
    let ds = digits(n as nat);
    let all = zeros + ds;
    lemma_digits(n as nat);
    lemma_zeros_before(zeros, ds);
    assert forall|i: int| 0 <= i < all.len() implies is_digit(#[trigger] all[i]) by {
        if i < zeros.len() {
            assert(all[i] == zeros[i]);
        } else {
            assert(all[i] == ds[i - zeros.len()]);
        }
    }
    assert(is_digit(all[0]));
    assert((seq!['+'] + zeros + ds).skip(1) =~= all);
}

} // verus!
