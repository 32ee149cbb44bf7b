//! Durations as whole hours, minutes and seconds: parsing from the
//! `HH:MM:SS` form, decomposition from and recomposition to total seconds,
//! and zero-padded formatting, with a proof that formatting then parsing
//! restores the duration.

use vstd::prelude::*;
use vstd::arithmetic::div_mod::lemma_fundamental_div_mod;
use crate::errors::AtError;

verus! {

/// A non-negative elapsed time. Minutes and seconds stay below 60; hours
/// are unbounded up to what the total-seconds recomposition can carry.
#[derive(Clone, Copy, PartialEq, Eq, Structural, Debug)]
pub struct Duration {
    pub hours: u64,
    pub minutes: u64,
    pub seconds: u64,
}

impl Duration {
    /// Minute and second fields in range, and a total that fits in `u64`.
    pub open spec fn wf(self) -> bool {
        &&& self.minutes < 60
        &&& self.seconds < 60
        &&& self.hours * 3600 + self.minutes * 60 + self.seconds <= u64::MAX
    }

    /// The duration as a whole number of seconds.
    pub open spec fn total_spec(self) -> int {
        self.hours * 3600 + self.minutes * 60 + self.seconds
    }

    pub fn total_seconds(&self) -> (t: u64)
        requires
            self.wf(),
        ensures
            t == self.total_spec(),
    {
        self.hours * 3600 + self.minutes * 60 + self.seconds
    }

    /// The canonical decomposition of a second count into hours, minutes
    /// and seconds.
    pub open spec fn decompose(t: int) -> Duration {
        Duration {
            hours: (t / 3600) as u64,
            minutes: (t % 3600 / 60) as u64,
            seconds: (t % 3600 % 60) as u64,
        }
    }

    pub fn from_total_seconds(t: u64) -> (d: Duration)
        ensures
            d == Duration::decompose(t as int),
            d.wf(),
            d.total_spec() == t,
    {
        let hours = t / 3600;
        let rem = t % 3600;
        let minutes = rem / 60;
        let seconds = rem % 60;
        proof {
            lemma_fundamental_div_mod(t as int, 3600);
            lemma_fundamental_div_mod(t as int % 3600, 60);
        }
        Duration { hours, minutes, seconds }
    }
}

/// An ASCII decimal digit.
pub open spec fn is_digit(c: char) -> bool {
    48 <= c as u32 <= 57
}

/// The value of an ASCII decimal digit.
pub open spec fn digit_val(c: char) -> int {
    c as u32 - 48
}

/// The first position at or after `i` that does not hold a digit.
pub open spec fn digits_end(s: Seq<char>, i: int) -> int
    decreases s.len() - i when 0 <= i <= s.len()
{
    if i < s.len() && is_digit(s[i]) {
        digits_end(s, i + 1)
    } else {
        i
    }
}

/// The decimal value of the digit run `s[i..j]`.
pub open spec fn num_val(s: Seq<char>, i: int, j: int) -> int
    decreases j - i when 0 <= i <= j <= s.len()
{
    if i < j {
        num_val(s, i, j - 1) * 10 + digit_val(s[j - 1])
    } else {
        0
    }
}

/// The three numeric fields of a `HH:MM:SS` string: a run of digits, a
/// colon, a run of digits, a colon, and a final run of digits, each run
/// non-empty. `None` when the string has any other shape.
pub open spec fn duration_fields(s: Seq<char>) -> Option<(int, int, int)> {
    let a = digits_end(s, 0);
    if 0 < a < s.len() && s[a] == ':' {
        let b = digits_end(s, a + 1);
        if a + 1 < b < s.len() && s[b] == ':' {
            let c = digits_end(s, b + 1);
            if b + 1 < c && c == s.len() {
                Some((num_val(s, 0, a), num_val(s, a + 1, b), num_val(s, b + 1, c)))
            } else {
                None
            }
        } else {
            None
        }
    } else {
        None
    }
}

/// Minutes and seconds below 60, and a total that fits in `u64` (the one
/// machine bound on the otherwise unbounded hour field).
pub open spec fn fields_in_range(f: (int, int, int)) -> bool {
    &&& f.1 < 60
    &&& f.2 < 60
    &&& f.0 * 3600 + f.1 * 60 + f.2 <= u64::MAX
}

/// The strings that `parse_duration` accepts.
pub open spec fn parse_ok(s: Seq<char>) -> bool {
    match duration_fields(s) {
        Some(f) => fields_in_range(f),
        None => false,
    }
}

fn is_digit_char(c: char) -> (r: bool)
    ensures
        r == is_digit(c),
{
    let u = c as u32;
    48 <= u && u <= 57
}

fn digit_value(c: char) -> (d: u64)
    requires
        is_digit(c),
    ensures
        d == digit_val(c),
        d < 10,
{
    ((c as u32) - 48) as u64
}

/// The run `s[a..b]` holds digits only, so its value is non-negative.
proof fn lemma_num_val_nonneg(s: Seq<char>, a: int, b: int)
    requires
        0 <= a <= b <= s.len(),
        forall|j: int| a <= j < b ==> is_digit(s[j]),
    ensures
        num_val(s, a, b) >= 0,
    decreases b - a,
{
    if a < b {
        lemma_num_val_nonneg(s, a, b - 1);
    }
}

/// Scans the digit run of `s` that starts at `start`: returns its end, and
/// its value when that value fits in `u64`.
fn scan_field(s: &str, start: usize, len: usize) -> (r: (usize, Option<u64>))
    requires
        start <= s@.len(),
        len == s@.len(),
    ensures
        start <= r.0 <= s@.len(),
        r.0 == digits_end(s@, start as int),
        forall|j: int| start <= j < r.0 ==> is_digit(s@[j]),
        match r.1 {
            Some(v) => v == num_val(s@, start as int, r.0 as int),
            None => num_val(s@, start as int, r.0 as int) > u64::MAX,
        },
{
    let mut i = start;
    let mut acc: Option<u64> = Some(0);
    while i < len && is_digit_char(s.get_char(i))
        invariant
            start <= i <= len,
            len == s@.len(),
            digits_end(s@, start as int) == digits_end(s@, i as int),
            forall|j: int| start <= j < i ==> is_digit(s@[j]),
            match acc {
                Some(v) => v == num_val(s@, start as int, i as int),
                None => num_val(s@, start as int, i as int) > u64::MAX,
            },
        decreases len - i,
    {
        let d = digit_value(s.get_char(i));
        acc = match acc {
            Some(v) => {
                if v <= (u64::MAX - d) / 10 {
                    proof {
                        lemma_fundamental_div_mod((u64::MAX - d) as int, 10);
                    }
                    Some(v * 10 + d)
                } else {
                    proof {
                        lemma_fundamental_div_mod((u64::MAX - d) as int, 10);
                    }
                    None
                }
            },
            None => {
                proof {
                    lemma_num_val_nonneg(s@, start as int, i as int);
                }
                None
            },
        };
        i = i + 1;
    }
    (i, acc)
}

/// Parses a `HH:MM:SS` duration string: three runs of digits separated by
/// colons, hours unbounded, minutes and seconds below 60. Exactly the
/// strings satisfying `parse_ok` are accepted; every other string yields a
/// `ParseError`.
pub fn parse_duration(s: &str) -> (r: Result<Duration, AtError>)
    ensures
        match r {
            Ok(d) => {
                &&& parse_ok(s@)
                &&& d.wf()
                &&& duration_fields(s@) == Some(
                    (d.hours as int, d.minutes as int, d.seconds as int),
                )
            },
            Err(e) => !parse_ok(s@) && e is ParseError,
        },
{
    let len = s.unicode_len();
    let (a, hv) = scan_field(s, 0, len);
    if a == 0 || a >= len || s.get_char(a) != ':' {
        return Err(AtError::ParseError(String::from_str("invalid duration")));
    }
    let (b, mv) = scan_field(s, a + 1, len);
    if b == a + 1 || b >= len || s.get_char(b) != ':' {
        return Err(AtError::ParseError(String::from_str("invalid duration")));
    }
    let (c, sv) = scan_field(s, b + 1, len);
    if c == b + 1 || c != len {
        return Err(AtError::ParseError(String::from_str("invalid duration")));
    }
    proof {
        lemma_num_val_nonneg(s@, 0, a as int);
        lemma_num_val_nonneg(s@, a + 1, b as int);
        lemma_num_val_nonneg(s@, b + 1, c as int);
    }
    let hours = match hv {
        Some(h) => h,
        None => {
            return Err(AtError::ParseError(String::from_str("duration out of range")));
        },
    };
    let minutes = match mv {
        Some(m) => m,
        None => {
            return Err(AtError::ParseError(String::from_str("duration out of range")));
        },
    };
    let seconds = match sv {
        Some(x) => x,
        None => {
            return Err(AtError::ParseError(String::from_str("duration out of range")));
        },
    };
    if minutes >= 60 || seconds >= 60 {
        return Err(AtError::ParseError(String::from_str("duration out of range")));
    }
    let rest = minutes * 60 + seconds;
    if hours > (u64::MAX - rest) / 3600 {
        proof {
            lemma_fundamental_div_mod((u64::MAX - rest) as int, 3600);
        }
        return Err(AtError::ParseError(String::from_str("duration out of range")));
    }
    proof {
        lemma_fundamental_div_mod((u64::MAX - rest) as int, 3600);
    }
    Ok(Duration { hours, minutes, seconds })
}

/// The digit character of a value below ten.
pub open spec fn char_of_digit(d: int) -> char {
    if d == 0 {
        '0'
    } else if d == 1 {
        '1'
    } else if d == 2 {
        '2'
    } else if d == 3 {
        '3'
    } else if d == 4 {
        '4'
    } else if d == 5 {
        '5'
    } else if d == 6 {
        '6'
    } else if d == 7 {
        '7'
    } else if d == 8 {
        '8'
    } else {
        '9'
    }
}

/// The decimal digits of `n`, most significant first; empty for zero.
pub open spec fn num_chars(n: int) -> Seq<char>
    decreases n when n >= 0 via num_chars_decreases
{
    if n <= 0 {
        Seq::<char>::empty()
    } else {
        num_chars(n / 10) + seq![char_of_digit(n % 10)]
    }
}

#[via_fn]
proof fn num_chars_decreases(n: int) {
    if n > 0 {
        lemma_fundamental_div_mod(n, 10);
    }
}

/// A value below 100 as exactly two digits, zero-padded.
pub open spec fn pad2(n: int) -> Seq<char> {
    if n < 10 {
        seq!['0', char_of_digit(n)]
    } else {
        seq![char_of_digit(n / 10), char_of_digit(n % 10)]
    }
}

/// The hour field: two digits zero-padded, or the full digit run when the
/// hour count needs more than two.
pub open spec fn hours_chars(h: int) -> Seq<char> {
    if h < 100 {
        pad2(h)
    } else {
        num_chars(h)
    }
}

/// The canonical zero-padded `HH:MM:SS` form of a duration.
pub open spec fn duration_chars(d: Duration) -> Seq<char> {
    hours_chars(d.hours as int) + seq![':'] + pad2(d.minutes as int) + seq![':'] + pad2(
        d.seconds as int,
    )
}

fn digit_str(d: u64) -> (r: &'static str)
    requires
        d < 10,
    ensures
        r@ == seq![char_of_digit(d as int)],
{
    let r: &'static str = match d {
        0 => "0",
        1 => "1",
        2 => "2",
        3 => "3",
        4 => "4",
        5 => "5",
        6 => "6",
        7 => "7",
        8 => "8",
        _ => "9",
    };
    proof {
        reveal_strlit("0");
        reveal_strlit("1");
        reveal_strlit("2");
        reveal_strlit("3");
        reveal_strlit("4");
        reveal_strlit("5");
        reveal_strlit("6");
        reveal_strlit("7");
        reveal_strlit("8");
        reveal_strlit("9");
        assert(r@ =~= seq![char_of_digit(d as int)]);
    }
    r
}

pub(crate) fn two_digits(n: u64) -> (r: String)
    requires
        n < 100,
    ensures
        r@ == pad2(n as int),
{
    if n < 10 {
        let mut s = String::from_str("0");
        proof {
            reveal_strlit("0");
        }
        s.append(digit_str(n));
        proof {
            assert(s@ =~= pad2(n as int));
        }
        s
    } else {
        proof {
            lemma_fundamental_div_mod(n as int, 10);
        }
        let mut s = String::from_str(digit_str(n / 10));
        s.append(digit_str(n % 10));
        proof {
            assert(s@ =~= pad2(n as int));
        }
        s
    }
}

fn format_num(n: u64) -> (r: String)
    ensures
        r@ == num_chars(n as int),
    decreases n,
{
    if n == 0 {
        String::new()
    } else {
        proof {
            lemma_fundamental_div_mod(n as int, 10);
        }
        let mut s = format_num(n / 10);
        s.append(digit_str(n % 10));
        proof {
            assert(s@ =~= num_chars(n as int));
        }
        s
    }
}

/// Formats a duration in the canonical zero-padded `HH:MM:SS` form.
pub fn format_duration(d: &Duration) -> (r: String)
    requires
        d.wf(),
    ensures
        r@ == duration_chars(*d),
{
    let mut s = if d.hours < 100 {
        two_digits(d.hours)
    } else {
        format_num(d.hours)
    };
    s.append(":");
    let m = two_digits(d.minutes);
    s.append(m.as_str());
    s.append(":");
    let sec = two_digits(d.seconds);
    s.append(sec.as_str());
    proof {
        reveal_strlit(":");
        assert(s@ =~= duration_chars(*d));
    }
    s
}

/// A digit character carries its own value.
proof fn lemma_char_digit_val(d: int)
    requires
        0 <= d < 10,
    ensures
        is_digit(char_of_digit(d)),
        digit_val(char_of_digit(d)) == d,
{
}

/// Every character that `num_chars` writes is a digit, and a positive
/// value writes at least one.
proof fn lemma_num_chars_digits(n: int)
    requires
        n >= 0,
    ensures
        forall|j: int| 0 <= j < num_chars(n).len() ==> is_digit(num_chars(n)[j]),
        n >= 1 ==> num_chars(n).len() >= 1,
    decreases n,
{
    if n >= 1 {
        lemma_fundamental_div_mod(n, 10);
        lemma_num_chars_digits(n / 10);
        lemma_char_digit_val(n % 10);
        let pre = num_chars(n / 10);
        assert forall|j: int| 0 <= j < num_chars(n).len() implies is_digit(
            #[trigger] num_chars(n)[j],
        ) by {
            if j < pre.len() {
                assert(num_chars(n)[j] == pre[j]);
            } else {
                assert(num_chars(n)[j] == char_of_digit(n % 10));
            }
        }
    }
}

/// Both characters of a padded two-digit field are digits.
proof fn lemma_pad2_digits(n: int)
    requires
        0 <= n < 100,
    ensures
        pad2(n).len() == 2,
        is_digit(pad2(n)[0]),
        is_digit(pad2(n)[1]),
{
    if n < 10 {
        lemma_char_digit_val(n);
        lemma_char_digit_val(0);
    } else {
        lemma_fundamental_div_mod(n, 10);
        lemma_char_digit_val(n / 10);
        lemma_char_digit_val(n % 10);
    }
}

/// A run of digits followed by a non-digit (or the end) is exactly where
/// `digits_end` stops.
proof fn lemma_digits_end_at(s: Seq<char>, i: int, j: int)
    requires
        0 <= i <= j <= s.len(),
        forall|k: int| i <= k < j ==> is_digit(s[k]),
        j == s.len() || !is_digit(s[j]),
    ensures
        digits_end(s, i) == j,
    decreases j - i,
{
    if i < j {
        lemma_digits_end_at(s, i + 1, j);
    }
}

/// Reading back the digit run that `num_chars` wrote restores the value.
proof fn lemma_num_val_of_num_chars(t: Seq<char>, i: int, n: int)
    requires
        n >= 0,
        0 <= i,
        i + num_chars(n).len() <= t.len(),
        t.subrange(i, i + num_chars(n).len() as int) == num_chars(n),
    ensures
        num_val(t, i, i + num_chars(n).len() as int) == n,
    decreases n,
{
    if n >= 1 {
        lemma_fundamental_div_mod(n, 10);
        let l = num_chars(n).len() as int;
        let lp = num_chars(n / 10).len() as int;
        assert(l == lp + 1);
        assert(t.subrange(i, i + lp) =~= num_chars(n / 10)) by {
            assert forall|k: int| 0 <= k < lp implies #[trigger] t.subrange(i, i + lp)[k]
                == num_chars(n / 10)[k] by {
                assert(t.subrange(i, i + l)[k] == num_chars(n)[k]);
            }
        }
        lemma_num_val_of_num_chars(t, i, n / 10);
        assert(t[i + l - 1] == num_chars(n)[l - 1]) by {
            assert(t.subrange(i, i + l)[l - 1] == num_chars(n)[l - 1]);
        }
        lemma_char_digit_val(n % 10);
    }
}

/// Reading back a padded two-digit field restores the value.
proof fn lemma_num_val_of_pad2(t: Seq<char>, i: int, n: int)
    requires
        0 <= n < 100,
        0 <= i,
        i + 2 <= t.len(),
        t.subrange(i, i + 2) == pad2(n),
    ensures
        num_val(t, i, i + 2) == n,
{
    assert(t[i] == pad2(n)[0]) by {
        assert(t.subrange(i, i + 2)[0] == pad2(n)[0]);
    }
    assert(t[i + 1] == pad2(n)[1]) by {
        assert(t.subrange(i, i + 2)[1] == pad2(n)[1]);
    }
    if n < 10 {
        lemma_char_digit_val(0);
        lemma_char_digit_val(n);
    } else {
        lemma_fundamental_div_mod(n, 10);
        lemma_char_digit_val(n / 10);
        lemma_char_digit_val(n % 10);
    }
    assert(num_val(t, i, i + 2) == num_val(t, i, i + 1) * 10 + digit_val(t[i + 1]));
    assert(num_val(t, i, i + 1) == num_val(t, i, i) * 10 + digit_val(t[i]));
}

/// Formatting a well-formed duration and parsing the result restores its
/// three fields: the parser accepts every canonical `HH:MM:SS` string and
/// reads back exactly the hours, minutes and seconds that were written.
pub proof fn lemma_format_then_parse(d: Duration)
    requires
        d.wf(),
    ensures
        parse_ok(duration_chars(d)),
        duration_fields(duration_chars(d)) == Some(
            (d.hours as int, d.minutes as int, d.seconds as int),
        ),
{
    let h = d.hours as int;
    let m = d.minutes as int;
    let s = d.seconds as int;
    let t = duration_chars(d);
    let hc = hours_chars(h);
    let a = hc.len() as int;
    if h < 100 {
        lemma_pad2_digits(h);
    } else {
        lemma_num_chars_digits(h);
    }
    lemma_pad2_digits(m);
    lemma_pad2_digits(s);
    assert(t.len() == a + 6);
    assert(forall|k: int| 0 <= k < a ==> t[k] == hc[k]);
    assert(t[a] == ':');
    assert(forall|k: int| 0 <= k < 2 ==> t[a + 1 + k] == pad2(m)[k]);
    assert(t[a + 3] == ':');
    assert(forall|k: int| 0 <= k < 2 ==> t[a + 4 + k] == pad2(s)[k]);
    assert(!is_digit(':'));
    lemma_digits_end_at(t, 0, a);
    lemma_digits_end_at(t, a + 1, a + 3);
    lemma_digits_end_at(t, a + 4, a + 6);
    assert(t.subrange(0, a) =~= hc);
    assert(t.subrange(a + 1, a + 3) =~= pad2(m));
    assert(t.subrange(a + 4, a + 6) =~= pad2(s));
    if h < 100 {
        lemma_num_val_of_pad2(t, 0, h);
    } else {
        lemma_num_val_of_num_chars(t, 0, h);
    }
    lemma_num_val_of_pad2(t, a + 1, m);
    lemma_num_val_of_pad2(t, a + 4, s);
}

} // verus!
