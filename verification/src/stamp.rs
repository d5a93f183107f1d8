//! Time stamps in UTC, and the lines of the log.
use vstd::prelude::*;

use crate::calendar;
use crate::calendar::{civil_from_days, CivilDate};
use crate::text;
use crate::text::push_padded;

verus! {

/// `SystemTime::elapsed` of the Unix epoch: the whole seconds from then to the present time and the
/// milliseconds beyond them, fewer than a thousand, or nothing when the clock is set before the
/// epoch. What time it is rests on the clock and is not claimed.
#[verifier::external_body]
fn elapsed_since_epoch() -> (r: Option<(u64, u32)>)
    ensures
        r matches Some(t) ==> t.1 < 1000,
{
    match std::time::SystemTime::UNIX_EPOCH.elapsed() {
        Ok(elapsed) => Some((elapsed.as_secs(), elapsed.subsec_millis())),
        Err(_) => None,
    }
}

/// `date` and the time of day at `second_of_day` and `millis`, as
/// `year-month-day hour:minute:second.millisecond`.
pub open spec fn stamp_on(date: CivilDate, second_of_day: int, millis: int) -> Seq<char> {
    text::zero_padded(date.year as nat, 4)
        + "-"@ + text::zero_padded(date.month as nat, 2)
        + "-"@ + text::zero_padded(date.day as nat, 2)
        + " "@ + text::zero_padded((second_of_day / 3600) as nat, 2)
        + ":"@ + text::zero_padded((second_of_day / 60 % 60) as nat, 2)
        + ":"@ + text::zero_padded((second_of_day % 60) as nat, 2)
        + "."@ + text::zero_padded(millis as nat, 3)
}

/// The stamp of the time `secs` seconds and `millis` milliseconds after the Unix epoch.
pub open spec fn stamp_of(secs: int, millis: int) -> Seq<char> {
    stamp_on(calendar::date_of(secs / 86400), secs % 86400, millis)
}

/// Writes the time `secs` seconds and `millis` milliseconds after the Unix epoch in UTC.
pub fn stamp_text(secs: u64, millis: u32) -> (r: String)
    ensures
        r@ == stamp_of(secs as int, millis as int),
{
    let date = civil_from_days(secs / 86400);
    let second_of_day: u64 = secs % 86400;
    let mut out = String::new();
    push_padded(&mut out, date.year as u64, 4);
    out.append("-");
    push_padded(&mut out, date.month as u64, 2);
    out.append("-");
    push_padded(&mut out, date.day as u64, 2);
    out.append(" ");
    push_padded(&mut out, second_of_day / 3600, 2);
    out.append(":");
    push_padded(&mut out, second_of_day / 60 % 60, 2);
    out.append(":");
    push_padded(&mut out, second_of_day % 60, 2);
    out.append(".");
    push_padded(&mut out, millis as u64, 3);
    assert(out@ =~= stamp_of(secs as int, millis as int));
    out
}

/// The stamp for what was read off the clock; a clock set before the epoch counts as the epoch.
pub fn stamp_since_epoch(elapsed: Option<(u64, u32)>) -> (r: String)
    ensures
        r@ == match elapsed {
            Some(t) => stamp_of(t.0 as int, t.1 as int),
            None => stamp_of(0, 0),
        },
{
    match elapsed {
        Some((secs, millis)) => stamp_text(secs, millis),
        None => stamp_text(0, 0),
    }
}

/// The stamp of the present time.
pub fn now_stamp() -> (r: String)
    ensures
        exists|secs: u64, millis: u32|
            millis < 1000 && r@ == #[trigger] stamp_of(secs as int, millis as int),
{
    let elapsed = elapsed_since_epoch();
    let r = stamp_since_epoch(elapsed);
    proof {
        let (secs, millis) = match elapsed {
            Some(t) => t,
            None => (0u64, 0u32),
        };
        assert(r@ == stamp_of(secs as int, millis as int));
    }
    r
}

/// One line of the log: the stamp and the level in brackets, then the message.
pub fn log_line(stamp: &str, level: &str, msg: &str) -> (r: String)
    ensures
        r@ == "["@ + stamp@ + "]["@ + level@ + "] "@ + msg@,
{
    let mut out = "[".to_string();
    out.append(stamp);
    out.append("][");
    out.append(level);
    out.append("] ");
    out.append(msg);
    out
}

/// Whether `a` comes before `b` in the order of a dictionary, at a character that they both have.
pub open spec fn sorts_before(a: Seq<char>, b: Seq<char>) -> bool {
    exists|i: int|
        0 <= i < a.len() && i < b.len() && #[trigger] a[i] < b[i] && a.take(i) == b.take(i)
}

proof fn lemma_two_digits(n: nat)
    requires
        n < 100,
    ensures
        text::zero_padded(n, 2) == seq![text::digit(n / 10), text::digit(n % 10)],
{
    reveal_with_fuel(text::decimal, 3);
    assert(text::zero_padded(n, 2) =~= seq![text::digit(n / 10), text::digit(n % 10)]);
}

proof fn lemma_three_digits(n: nat)
    requires
        n < 1000,
    ensures
        text::zero_padded(n, 3) == seq![
            text::digit(n / 100),
            text::digit(n / 10 % 10),
            text::digit(n % 10),
        ],
{
    reveal_with_fuel(text::decimal, 4);
    assert(text::zero_padded(n, 3) =~= seq![
        text::digit(n / 100),
        text::digit(n / 10 % 10),
        text::digit(n % 10),
    ]);
}

proof fn lemma_four_digits(n: nat)
    requires
        1000 <= n < 10000,
    ensures
        text::zero_padded(n, 4) == seq![
            text::digit(n / 1000),
            text::digit(n / 100 % 10),
            text::digit(n / 10 % 10),
            text::digit(n % 10),
        ],
{
    reveal_with_fuel(text::decimal, 5);
    assert(text::zero_padded(n, 4) =~= seq![
        text::digit(n / 1000),
        text::digit(n / 100 % 10),
        text::digit(n / 10 % 10),
        text::digit(n % 10),
    ]);
}

/// The first character at which two texts differ decides which sorts before the other.
proof fn lemma_first_difference(s: Seq<char>, t: Seq<char>, i: int)
    requires
        0 <= i < s.len(),
        i < t.len(),
        s[i] < t[i],
        forall|j: int| 0 <= j < i ==> s[j] == t[j],
    ensures
        sorts_before(s, t),
{
    assert(s.take(i) =~= t.take(i));
}

proof fn lemma_digits_apart(n: nat)
    ensures
        n / 100 == n / 1000 * 10 + n / 100 % 10,
        n / 10 == n / 100 * 10 + n / 10 % 10,
        n == n / 10 * 10 + n % 10,
{
}

/// The digits of the smaller of two numbers, and those of the larger, at the first place where they
/// differ.
proof fn lemma_digits_in_order(a: nat, b: nat)
    requires
        a < b < 10000,
    ensures
        ({
            ||| a / 1000 < b / 1000
            ||| a / 1000 == b / 1000 && a / 100 % 10 < b / 100 % 10
            ||| a / 1000 == b / 1000 && a / 100 % 10 == b / 100 % 10 && a / 10 % 10 < b / 10 % 10
            ||| a / 1000 == b / 1000 && a / 100 % 10 == b / 100 % 10 && a / 10 % 10 == b / 10 % 10 && a
                % 10 < b % 10
        }),
        b / 1000 < 10,
{
    lemma_digits_apart(a);
    lemma_digits_apart(b);
}

proof fn lemma_two_digits_sort(a: nat, b: nat)
    requires
        a < b < 100,
    ensures
        sorts_before(text::zero_padded(a, 2), text::zero_padded(b, 2)),
{
    lemma_two_digits(a);
    lemma_two_digits(b);
    let (s, t) = (text::zero_padded(a, 2), text::zero_padded(b, 2));
    lemma_first_difference(
        s,
        t,
        if a / 10 < b / 10 {
            0
        } else {
            1
        },
    );
}

proof fn lemma_three_digits_sort(a: nat, b: nat)
    requires
        a < b < 1000,
    ensures
        sorts_before(text::zero_padded(a, 3), text::zero_padded(b, 3)),
{
    lemma_three_digits(a);
    lemma_three_digits(b);
    lemma_digits_in_order(a, b);
    let (s, t) = (text::zero_padded(a, 3), text::zero_padded(b, 3));
    assert(a / 100 % 10 == a / 100 && b / 100 % 10 == b / 100);
    lemma_first_difference(
        s,
        t,
        if a / 100 % 10 < b / 100 % 10 {
            0
        } else if a / 10 % 10 < b / 10 % 10 {
            1
        } else {
            2
        },
    );
}

proof fn lemma_four_digits_sort(a: nat, b: nat)
    requires
        1000 <= a < b < 10000,
    ensures
        sorts_before(text::zero_padded(a, 4), text::zero_padded(b, 4)),
{
    lemma_four_digits(a);
    lemma_four_digits(b);
    lemma_digits_in_order(a, b);
    let (s, t) = (text::zero_padded(a, 4), text::zero_padded(b, 4));
    lemma_first_difference(
        s,
        t,
        if a / 1000 < b / 1000 {
            0
        } else if a / 100 % 10 < b / 100 % 10 {
            1
        } else if a / 10 % 10 < b / 10 % 10 {
            2
        } else {
            3
        },
    );
}

/// A field that sorts before another keeps doing so behind a common start.
proof fn lemma_sorts_inside(k: int, a: Seq<char>, b: Seq<char>, s: Seq<char>, t: Seq<char>)
    requires
        sorts_before(a, b),
        0 <= k,
        s.len() >= k + a.len(),
        t.len() >= k + b.len(),
        s.take(k) == t.take(k),
        s.subrange(k, k + a.len()) == a,
        t.subrange(k, k + b.len()) == b,
    ensures
        sorts_before(s, t),
{
    let i = choose|i: int|
        0 <= i < a.len() && i < b.len() && #[trigger] a[i] < b[i] && a.take(i) == b.take(i);
    assert(s[k + i] == s.subrange(k, k + a.len())[i]);
    assert(t[k + i] == t.subrange(k, k + b.len())[i]);
    assert forall|j: int| 0 <= j < k + i implies s[j] == t[j] by {
        if j < k {
            assert(s[j] == s.take(k)[j]);
            assert(t[j] == t.take(k)[j]);
        } else {
            assert(s[j] == a.take(i)[j - k]);
            assert(t[j] == b.take(i)[j - k]);
        }
    }
    assert(s.take(k + i) =~= t.take(k + i));
}

/// Fields of known lengths with single marks between them can be told apart again.
proof fn lemma_fields_apart(
    year: Seq<char>,
    a: Seq<char>,
    month: Seq<char>,
    b: Seq<char>,
    day: Seq<char>,
    c: Seq<char>,
    hour: Seq<char>,
    d: Seq<char>,
    minute: Seq<char>,
    e: Seq<char>,
    second: Seq<char>,
    f: Seq<char>,
    millis: Seq<char>,
)
    requires
        month.len() == 2 && day.len() == 2,
        hour.len() == 2 && minute.len() == 2 && second.len() == 2,
        a.len() == 1 && b.len() == 1 && c.len() == 1 && d.len() == 1 && e.len() == 1 && f.len() == 1,
    ensures
        ({
            let s = year + a + month + b + day + c + hour + d + minute + e + second + f + millis;
            let n = year.len() as int;
            &&& s.len() == n + 16 + millis.len()
            &&& s.subrange(0, n) == year && s[n] == a[0]
            &&& s.subrange(n + 1, n + 3) == month && s[n + 3] == b[0]
            &&& s.subrange(n + 4, n + 6) == day && s[n + 6] == c[0]
            &&& s.subrange(n + 7, n + 9) == hour && s[n + 9] == d[0]
            &&& s.subrange(n + 10, n + 12) == minute && s[n + 12] == e[0]
            &&& s.subrange(n + 13, n + 15) == second && s[n + 15] == f[0]
            &&& s.subrange(n + 16, s.len() as int) == millis
        }),
{
    let s = year + a + month + b + day + c + hour + d + minute + e + second + f + millis;
    let n = year.len() as int;
    assert(s.subrange(0, n) =~= year);
    assert(s.subrange(n + 1, n + 3) =~= month);
    assert(s.subrange(n + 4, n + 6) =~= day);
    assert(s.subrange(n + 7, n + 9) =~= hour);
    assert(s.subrange(n + 10, n + 12) =~= minute);
    assert(s.subrange(n + 13, n + 15) =~= second);
    assert(s.subrange(n + 16, s.len() as int) =~= millis);
}

/// Where each field of a stamp stands.
proof fn lemma_stamp_fields(date: CivilDate, second_of_day: int, millis: int)
    requires
        date.valid(),
        0 <= second_of_day < 86400,
        0 <= millis,
    ensures
        ({
            let s = stamp_on(date, second_of_day, millis);
            let n = text::zero_padded(date.year as nat, 4).len() as int;
            &&& s.len() == n + 16 + text::zero_padded(millis as nat, 3).len()
            &&& millis < 1000 ==> s.len() == n + 19
            &&& s.subrange(0, n) == text::zero_padded(date.year as nat, 4)
            &&& s[n] == '-'
            &&& s.subrange(n + 1, n + 3) == text::zero_padded(date.month as nat, 2)
            &&& s[n + 3] == '-'
            &&& s.subrange(n + 4, n + 6) == text::zero_padded(date.day as nat, 2)
            &&& s[n + 6] == ' '
            &&& s.subrange(n + 7, n + 9) == text::zero_padded((second_of_day / 3600) as nat, 2)
            &&& s[n + 9] == ':'
            &&& s.subrange(n + 10, n + 12) == text::zero_padded(
                (second_of_day / 60 % 60) as nat,
                2,
            )
            &&& s[n + 12] == ':'
            &&& s.subrange(n + 13, n + 15) == text::zero_padded((second_of_day % 60) as nat, 2)
            &&& s[n + 15] == '.'
            &&& s.subrange(n + 16, s.len() as int) == text::zero_padded(millis as nat, 3)
        }),
        date.year <= 9999 ==> text::zero_padded(date.year as nat, 4).len() == 4,
{
    reveal_strlit("-");
    reveal_strlit(" ");
    reveal_strlit(":");
    reveal_strlit(".");
    if date.year <= 9999 {
        lemma_four_digits(date.year as nat);
    }
    lemma_two_digits(date.month as nat);
    lemma_two_digits(date.day as nat);
    lemma_two_digits((second_of_day / 3600) as nat);
    lemma_two_digits((second_of_day / 60 % 60) as nat);
    lemma_two_digits((second_of_day % 60) as nat);
    if millis < 1000 {
        lemma_three_digits(millis as nat);
    }
    lemma_fields_apart(
        text::zero_padded(date.year as nat, 4),
        "-"@,
        text::zero_padded(date.month as nat, 2),
        "-"@,
        text::zero_padded(date.day as nat, 2),
        " "@,
        text::zero_padded((second_of_day / 3600) as nat, 2),
        ":"@,
        text::zero_padded((second_of_day / 60 % 60) as nat, 2),
        ":"@,
        text::zero_padded((second_of_day % 60) as nat, 2),
        "."@,
        text::zero_padded(millis as nat, 3),
    );
}

/// Two texts that agree up to `from`, on the field up to `to` and on the mark behind it agree as
/// far as that.
proof fn lemma_agree_past_field(s: Seq<char>, t: Seq<char>, from: int, to: int)
    requires
        0 <= from <= to < s.len(),
        to < t.len(),
        s.take(from) == t.take(from),
        s.subrange(from, to) == t.subrange(from, to),
        s[to] == t[to],
    ensures
        s.take(to + 1) == t.take(to + 1),
{
    assert forall|j: int| 0 <= j < to + 1 implies s[j] == t[j] by {
        if j < from {
            assert(s[j] == s.take(from)[j]);
            assert(t[j] == t.take(from)[j]);
        } else if j < to {
            assert(s[j] == s.subrange(from, to)[j - from]);
            assert(t[j] == t.subrange(from, to)[j - from]);
        }
    }
    assert(s.take(to + 1) =~= t.take(to + 1));
}

proof fn lemma_stamps_on_sort(d: CivilDate, x: int, m: int, e: CivilDate, y: int, n: int)
    requires
        d.valid() && d.year <= 9999 && 0 <= x < 86400 && 0 <= m < 1000,
        e.valid() && e.year <= 9999 && 0 <= y < 86400 && 0 <= n < 1000,
        d.before(e) || d == e && (x < y || x == y && m < n),
    ensures
        sorts_before(stamp_on(d, x, m), stamp_on(e, y, n)),
{
    lemma_stamp_fields(d, x, m);
    lemma_stamp_fields(e, y, n);
    let s = stamp_on(d, x, m);
    let t = stamp_on(e, y, n);
    assert(s.take(0) =~= t.take(0));
    if d.year < e.year {
        lemma_four_digits_sort(d.year as nat, e.year as nat);
        lemma_sorts_inside(0, s.subrange(0, 4), t.subrange(0, 4), s, t);
    } else {
        lemma_agree_past_field(s, t, 0, 4);
        if d.month < e.month {
            lemma_two_digits_sort(d.month as nat, e.month as nat);
            lemma_sorts_inside(5, s.subrange(5, 7), t.subrange(5, 7), s, t);
        } else {
            lemma_agree_past_field(s, t, 5, 7);
            if d.day < e.day {
                lemma_two_digits_sort(d.day as nat, e.day as nat);
                lemma_sorts_inside(8, s.subrange(8, 10), t.subrange(8, 10), s, t);
            } else {
                lemma_agree_past_field(s, t, 8, 10);
                lemma_times_of_day_sort(s, t, x, m, y, n);
            }
        }
    }
}

/// A count of seconds within a day, as hours, minutes and seconds.
proof fn lemma_second_of_day(x: int, y: int)
    requires
        0 <= x < 86400,
        0 <= y < 86400,
    ensures
        x == x / 3600 * 3600 + x / 60 % 60 * 60 + x % 60,
        0 <= x / 3600 < 24 && 0 <= x / 60 % 60 < 60 && 0 <= x % 60 < 60,
        x < y ==> x / 3600 < y / 3600 || x / 3600 == y / 3600 && (x / 60 % 60 < y / 60 % 60 || x
            / 60 % 60 == y / 60 % 60 && x % 60 < y % 60),
{
}

/// Stamps that agree up to the seconds sort by the seconds, then by the milliseconds.
proof fn lemma_seconds_sort(s: Seq<char>, t: Seq<char>, x: nat, m: nat, y: nat, n: nat)
    requires
        x < 60 && y < 60 && m < 1000 && n < 1000,
        x < y || x == y && m < n,
        s.len() == 23 && t.len() == 23,
        s.take(17) == t.take(17),
        s.subrange(17, 19) == text::zero_padded(x, 2),
        t.subrange(17, 19) == text::zero_padded(y, 2),
        s.subrange(20, 23) == text::zero_padded(m, 3),
        t.subrange(20, 23) == text::zero_padded(n, 3),
        s[19] == t[19],
    ensures
        sorts_before(s, t),
{
    if x < y {
        lemma_two_digits_sort(x, y);
        lemma_sorts_inside(17, s.subrange(17, 19), t.subrange(17, 19), s, t);
    } else {
        lemma_agree_past_field(s, t, 17, 19);
        lemma_three_digits_sort(m, n);
        lemma_sorts_inside(20, s.subrange(20, 23), t.subrange(20, 23), s, t);
    }
}

/// Stamps that agree on their dates sort by the times of the day.
#[verifier::spinoff_prover]
proof fn lemma_times_of_day_sort(s: Seq<char>, t: Seq<char>, x: int, m: int, y: int, n: int)
    requires
        0 <= x < 86400 && 0 <= m < 1000,
        0 <= y < 86400 && 0 <= n < 1000,
        x < y || x == y && m < n,
        s.len() == 23 && t.len() == 23,
        s.take(11) == t.take(11),
        s.subrange(11, 13) == text::zero_padded((x / 3600) as nat, 2),
        t.subrange(11, 13) == text::zero_padded((y / 3600) as nat, 2),
        s.subrange(14, 16) == text::zero_padded((x / 60 % 60) as nat, 2),
        t.subrange(14, 16) == text::zero_padded((y / 60 % 60) as nat, 2),
        s.subrange(17, 19) == text::zero_padded((x % 60) as nat, 2),
        t.subrange(17, 19) == text::zero_padded((y % 60) as nat, 2),
        s.subrange(20, 23) == text::zero_padded(m as nat, 3),
        t.subrange(20, 23) == text::zero_padded(n as nat, 3),
        s[13] == t[13] && s[16] == t[16] && s[19] == t[19],
    ensures
        sorts_before(s, t),
{
    lemma_second_of_day(x, y);
    lemma_second_of_day(y, x);
    let (hour1, minute1, second1) = ((x / 3600) as nat, (x / 60 % 60) as nat, (x % 60) as nat);
    let (hour2, minute2, second2) = ((y / 3600) as nat, (y / 60 % 60) as nat, (y % 60) as nat);
    if hour1 < hour2 {
        lemma_two_digits_sort(hour1, hour2);
        lemma_sorts_inside(11, s.subrange(11, 13), t.subrange(11, 13), s, t);
    } else {
        lemma_agree_past_field(s, t, 11, 13);
        if minute1 < minute2 {
            lemma_two_digits_sort(minute1, minute2);
            lemma_sorts_inside(14, s.subrange(14, 16), t.subrange(14, 16), s, t);
        } else {
            lemma_agree_past_field(s, t, 14, 16);
            lemma_seconds_sort(s, t, second1, m as nat, second2, n as nat);
        }
    }
}

/// Up to the end of the year 9999 every stamp has the same 23 characters of layout.
pub proof fn law_stamp_layout(secs: int, millis: int)
    requires
        0 <= secs < 253402300800,
        0 <= millis < 1000,
    ensures
        ({
            let s = stamp_of(secs, millis);
            &&& s.len() == 23
            &&& s[4] == '-' && s[7] == '-' && s[10] == ' '
            &&& s[13] == ':' && s[16] == ':' && s[19] == '.'
        }),
{
    calendar::law_every_day_has_a_date(secs / 86400);
    calendar::law_four_digit_years(secs / 86400);
    lemma_stamp_fields(calendar::date_of(secs / 86400), secs % 86400, millis);
}

/// Up to the end of the year 9999 the stamp of an earlier time sorts before that of a later one.
pub proof fn law_stamps_sort_by_time(secs1: int, millis1: int, secs2: int, millis2: int)
    requires
        0 <= secs1 < 253402300800,
        0 <= secs2 < 253402300800,
        0 <= millis1 < 1000,
        0 <= millis2 < 1000,
        secs1 < secs2 || secs1 == secs2 && millis1 < millis2,
    ensures
        sorts_before(stamp_of(secs1, millis1), stamp_of(secs2, millis2)),
{
    let d = calendar::date_of(secs1 / 86400);
    let e = calendar::date_of(secs2 / 86400);
    calendar::law_every_day_has_a_date(secs1 / 86400);
    calendar::law_four_digit_years(secs1 / 86400);
    calendar::law_every_day_has_a_date(secs2 / 86400);
    calendar::law_four_digit_years(secs2 / 86400);
    if secs1 / 86400 < secs2 / 86400 {
        if e.before(d) {
            calendar::law_dates_are_in_order(e, d);
        }
    }
    lemma_stamps_on_sort(d, secs1 % 86400, millis1, e, secs2 % 86400, millis2);
}

proof fn lemma_two_digits_tell(a: nat, b: nat)
    requires
        a < 100,
        b < 100,
        text::zero_padded(a, 2) == text::zero_padded(b, 2),
    ensures
        a == b,
{
    if a < b {
        lemma_two_digits_sort(a, b);
    } else if b < a {
        lemma_two_digits_sort(b, a);
    }
}

proof fn lemma_three_digits_tell(a: nat, b: nat)
    requires
        a < 1000,
        b < 1000,
        text::zero_padded(a, 3) == text::zero_padded(b, 3),
    ensures
        a == b,
{
    if a < b {
        lemma_three_digits_sort(a, b);
    } else if b < a {
        lemma_three_digits_sort(b, a);
    }
}

/// A year from 1970 on takes four digits or more, and so it is not padded.
proof fn lemma_year_is_not_padded(year: nat)
    requires
        1970 <= year,
    ensures
        text::zero_padded(year, 4) == text::decimal(year),
{
    reveal_with_fuel(text::decimal, 5);
}

/// Dates and times of day with the same stamp are the same.
proof fn lemma_stamps_on_tell(d: CivilDate, x: int, m: int, e: CivilDate, y: int, n: int)
    requires
        d.valid() && 0 <= x < 86400 && 0 <= m < 1000,
        e.valid() && 0 <= y < 86400 && 0 <= n < 1000,
        stamp_on(d, x, m) == stamp_on(e, y, n),
    ensures
        d == e,
        x == y,
        m == n,
{
    lemma_stamp_fields(d, x, m);
    lemma_stamp_fields(e, y, n);
    lemma_year_is_not_padded(d.year as nat);
    lemma_year_is_not_padded(e.year as nat);
    text::law_decimals_tell_numbers_apart(d.year as nat, e.year as nat);
    lemma_two_digits_tell(d.month as nat, e.month as nat);
    lemma_two_digits_tell(d.day as nat, e.day as nat);
    lemma_second_of_day(x, y);
    lemma_second_of_day(y, x);
    lemma_two_digits_tell((x / 3600) as nat, (y / 3600) as nat);
    lemma_two_digits_tell((x / 60 % 60) as nat, (y / 60 % 60) as nat);
    lemma_two_digits_tell((x % 60) as nat, (y % 60) as nat);
    lemma_three_digits_tell(m as nat, n as nat);
}

/// Two times with the same stamp are the same to the millisecond.
pub proof fn law_stamps_tell_times_apart(secs1: int, millis1: int, secs2: int, millis2: int)
    requires
        0 <= secs1 <= u64::MAX,
        0 <= secs2 <= u64::MAX,
        0 <= millis1 < 1000,
        0 <= millis2 < 1000,
        stamp_of(secs1, millis1) == stamp_of(secs2, millis2),
    ensures
        secs1 == secs2,
        millis1 == millis2,
{
    let d = calendar::date_of(secs1 / 86400);
    let e = calendar::date_of(secs2 / 86400);
    calendar::law_every_day_has_a_date(secs1 / 86400);
    calendar::law_every_day_has_a_date(secs2 / 86400);
    lemma_stamps_on_tell(d, secs1 % 86400, millis1, e, secs2 % 86400, millis2);
}

/// A stamp is digits but for its marks.
#[verifier::spinoff_prover]
proof fn lemma_stamp_characters(date: CivilDate, second_of_day: int, millis: int)
    requires
        date.valid(),
        0 <= second_of_day < 86400,
        0 <= millis,
    ensures
        ({
            let s = stamp_on(date, second_of_day, millis);
            let n = text::zero_padded(date.year as nat, 4).len() as int;
            forall|i: int|
                0 <= i < s.len() ==> if i == n || i == n + 3 {
                    #[trigger] s[i] == '-'
                } else if i == n + 6 {
                    s[i] == ' '
                } else if i == n + 9 || i == n + 12 {
                    s[i] == ':'
                } else if i == n + 15 {
                    s[i] == '.'
                } else {
                    '0' <= s[i] <= '9'
                }
        }),
{
    let s = stamp_on(date, second_of_day, millis);
    let n = text::zero_padded(date.year as nat, 4).len() as int;
    lemma_stamp_fields(date, second_of_day, millis);
    text::law_padded_reads_back(date.year as nat, 4);
    text::law_padded_reads_back(date.month as nat, 2);
    text::law_padded_reads_back(date.day as nat, 2);
    text::law_padded_reads_back((second_of_day / 3600) as nat, 2);
    text::law_padded_reads_back((second_of_day / 60 % 60) as nat, 2);
    text::law_padded_reads_back((second_of_day % 60) as nat, 2);
    text::law_padded_reads_back(millis as nat, 3);
    assert forall|i: int| 0 <= i < s.len() implies if i == n || i == n + 3 {
        #[trigger] s[i] == '-'
    } else if i == n + 6 {
        s[i] == ' '
    } else if i == n + 9 || i == n + 12 {
        s[i] == ':'
    } else if i == n + 15 {
        s[i] == '.'
    } else {
        '0' <= s[i] <= '9'
    } by {
        if i < n {
            assert(s[i] == s.subrange(0, n)[i]);
        } else if n < i < n + 3 {
            assert(s[i] == s.subrange(n + 1, n + 3)[i - n - 1]);
        } else if n + 3 < i < n + 6 {
            assert(s[i] == s.subrange(n + 4, n + 6)[i - n - 4]);
        } else if n + 6 < i < n + 9 {
            assert(s[i] == s.subrange(n + 7, n + 9)[i - n - 7]);
        } else if n + 9 < i < n + 12 {
            assert(s[i] == s.subrange(n + 10, n + 12)[i - n - 10]);
        } else if n + 12 < i < n + 15 {
            assert(s[i] == s.subrange(n + 13, n + 15)[i - n - 13]);
        } else if n + 15 < i {
            assert(s[i] == s.subrange(n + 16, s.len() as int)[i - n - 16]);
        }
    }
}

/// A stamp reads back as its time. Up to its first hyphen it is the year, and then there are month,
/// day, hour, minute, second and millisecond, with the marks between them; each field is a numeral
/// that reads, digit by digit from the left, as the number in its place. The hour, the minute and
/// the second make up the seconds of the day, and the date is that of the whole days.
#[verifier::spinoff_prover]
pub proof fn law_stamp_reads_back(secs: u64, millis: u32) -> (n: int)
    ensures
        ({
            let s = stamp_of(secs as int, millis as int);
            let date = calendar::date_of(secs as int / 86400);
            let read = |from: int, to: int|
                s.subrange(from, to).fold_left(
                    0int,
                    |value: int, c: char| 10 * value + (c as int - 48),
                );
            &&& 4 <= n && n + 19 <= s.len()
            &&& forall|i: int|
                0 <= i < s.len() ==> if i == n || i == n + 3 {
                    #[trigger] s[i] == '-'
                } else if i == n + 6 {
                    s[i] == ' '
                } else if i == n + 9 || i == n + 12 {
                    s[i] == ':'
                } else if i == n + 15 {
                    s[i] == '.'
                } else {
                    '0' <= s[i] <= '9'
                }
            &&& n > 4 ==> s[0] != '0'
            &&& read(0, n) == date.year
            &&& read(n + 1, n + 3) == date.month
            &&& read(n + 4, n + 6) == date.day
            &&& read(n + 7, n + 9) * 3600 + read(n + 10, n + 12) * 60 + read(n + 13, n + 15) == secs
                % 86400
            &&& read(n + 10, n + 12) < 60
            &&& read(n + 13, n + 15) < 60
            &&& read(n + 16, s.len() as int) == millis
            &&& s.len() > n + 19 ==> s[n + 16] != '0'
        }),
{
    let s = stamp_of(secs as int, millis as int);
    let date = calendar::date_of(secs as int / 86400);
    calendar::law_every_day_has_a_date(secs as int / 86400);
    let x = (secs % 86400) as int;
    let n = text::zero_padded(date.year as nat, 4).len() as int;
    lemma_stamp_fields(date, x, millis as int);
    lemma_second_of_day(x, x);
    text::law_padded_reads_back(date.year as nat, 4);
    text::law_padded_reads_back(date.month as nat, 2);
    text::law_padded_reads_back(date.day as nat, 2);
    text::law_padded_reads_back((x / 3600) as nat, 2);
    text::law_padded_reads_back((x / 60 % 60) as nat, 2);
    text::law_padded_reads_back((x % 60) as nat, 2);
    text::law_padded_reads_back(millis as nat, 3);
    lemma_stamp_characters(date, x, millis as int);
    assert(s[0] == s.subrange(0, n)[0]);
    assert(s[n + 16] == s.subrange(n + 16, s.len() as int)[0]);
    n
}

/// The text of a time, and the date of its day, read back as the time.
pub proof fn law_written_stamp_reads_back(
    secs: u64,
    millis: u32,
    r: String,
    date: CivilDate,
) -> (n: int)
    requires
        call_ensures(stamp_text, (secs, millis), r),
        call_ensures(civil_from_days, ((secs / 86400) as u64,), date),
    ensures
        ({
            let s = r@;
            let read = |from: int, to: int|
                s.subrange(from, to).fold_left(
                    0int,
                    |value: int, c: char| 10 * value + (c as int - 48),
                );
            &&& 4 <= n && n + 19 <= s.len()
            &&& forall|i: int|
                0 <= i < s.len() ==> if i == n || i == n + 3 {
                    #[trigger] s[i] == '-'
                } else if i == n + 6 {
                    s[i] == ' '
                } else if i == n + 9 || i == n + 12 {
                    s[i] == ':'
                } else if i == n + 15 {
                    s[i] == '.'
                } else {
                    '0' <= s[i] <= '9'
                }
            &&& n > 4 ==> s[0] != '0'
            &&& read(0, n) == date.year
            &&& read(n + 1, n + 3) == date.month
            &&& read(n + 4, n + 6) == date.day
            &&& read(n + 7, n + 9) * 3600 + read(n + 10, n + 12) * 60 + read(n + 13, n + 15) == secs
                % 86400
            &&& read(n + 10, n + 12) < 60
            &&& read(n + 13, n + 15) < 60
            &&& read(n + 16, s.len() as int) == millis
            &&& s.len() > n + 19 ==> s[n + 16] != '0'
        }),
{
    law_stamp_reads_back(secs, millis)
}

/// Whatever the time is, its stamp has the layout of all stamps, with three digits for the
/// milliseconds.
pub proof fn law_present_stamp_has_the_layout(r: String) -> (n: int)
    requires
        call_ensures(now_stamp, (), r),
    ensures
        4 <= n && r@.len() == n + 19,
        forall|i: int|
            0 <= i < r@.len() ==> if i == n || i == n + 3 {
                #[trigger] r@[i] == '-'
            } else if i == n + 6 {
                r@[i] == ' '
            } else if i == n + 9 || i == n + 12 {
                r@[i] == ':'
            } else if i == n + 15 {
                r@[i] == '.'
            } else {
                '0' <= r@[i] <= '9'
            },
{
    let (secs, millis) = choose|secs: u64, millis: u32|
        millis < 1000 && r@ == #[trigger] stamp_of(secs as int, millis as int);
    let n = text::zero_padded(calendar::date_of(secs as int / 86400).year as nat, 4).len() as int;
    calendar::law_every_day_has_a_date(secs as int / 86400);
    lemma_stamp_fields(
        calendar::date_of(secs as int / 86400),
        secs as int % 86400,
        millis as int,
    );
    let k = law_stamp_reads_back(secs, millis);
    assert(r@[n] == '-');
    if n < k {
        assert('0' <= r@[n] <= '9');
    } else if k < n {
        text::law_padded_reads_back(calendar::date_of(secs as int / 86400).year as nat, 4);
        assert(r@[k] == r@.subrange(0, n)[k]);
    }
    k
}

/// A clock that is set before the epoch gives the stamp of the epoch, and any other that of the
/// time it tells.
pub proof fn law_clock_is_stamped(elapsed: Option<(u64, u32)>, r: String, at_time: String)
    requires
        call_ensures(stamp_since_epoch, (elapsed,), r),
        elapsed matches Some(t) ==> call_ensures(stamp_text, (t.0, t.1), at_time),
        elapsed is None ==> call_ensures(stamp_text, (0u64, 0u32), at_time),
    ensures
        r@ == at_time@,
{
}

/// A line of the log can be taken apart again: it holds the stamp, the level and the message, as
/// they came, each in its place.
pub proof fn law_log_line(stamp: &str, level: &str, msg: &str, r: String)
    requires
        call_ensures(log_line, (stamp, level, msg), r),
    ensures
        ({
            let n = 1 + stamp@.len() as int;
            let k = n + 2 + level@.len();
            &&& r@.len() == k + 2 + msg@.len()
            &&& r@[0] == '['
            &&& r@.subrange(1, n) == stamp@
            &&& r@[n] == ']' && r@[n + 1] == '['
            &&& r@.subrange(n + 2, k) == level@
            &&& r@[k] == ']' && r@[k + 1] == ' '
            &&& r@.skip(k + 2) == msg@
        }),
{
    reveal_strlit("[");
    reveal_strlit("][");
    reveal_strlit("] ");
    let n = 1 + stamp@.len() as int;
    let k = n + 2 + level@.len();
    assert(r@.subrange(1, n) =~= stamp@);
    assert(r@.subrange(n + 2, k) =~= level@);
    assert(r@.skip(k + 2) =~= msg@);
}

} // verus!
