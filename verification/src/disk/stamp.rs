//! Rescue stamps: sorted by name, they are sorted by time.

use vstd::prelude::*;
use vstd::utf8::*;
use crate::calendar::{
    day_number, is_date, is_earlier, law_a_day_has_one_date, law_an_earlier_day_has_an_earlier_date,
};
use crate::clock::unix_seconds;
use crate::disk::rescue::{is_stamp, padded, stamp_text};
use crate::path::{agree, bytes_lt};
use crate::text::{decimal, digit};

verus! {

proof fn lemma_two(n: int)
    requires
        0 <= n < 100,
    ensures
        padded(n, 2) == seq![digit(n / 10), digit(n % 10)],
{
    reveal_with_fuel(decimal, 3);
    assert(padded(n, 2) =~= seq![digit(n / 10), digit(n % 10)]);
}

proof fn lemma_four(n: int)
    requires
        0 <= n < 10_000,
    ensures
        padded(n, 4) == seq![digit(n / 1000), digit(n / 100 % 10), digit(n / 10 % 10), digit(n % 10)],
{
    reveal_with_fuel(decimal, 5);
    assert(n / 10 / 10 == n / 100);
    assert(n / 100 / 10 == n / 1000);
    assert(padded(n, 4) =~= seq![
        digit(n / 1000),
        digit(n / 100 % 10),
        digit(n / 10 % 10),
        digit(n % 10),
    ]);
}

/// The digits of a stamp.
#[verifier::opaque]
spec fn digits(year: int, month: int, day: int, rest: int) -> Seq<int> {
    seq![
        year / 1000,
        year / 100 % 10,
        year / 10 % 10,
        year % 10,
        month / 10,
        month % 10,
        day / 10,
        day % 10,
        rest / 3600 / 10,
        rest / 3600 % 10,
        rest % 3600 / 60 / 10,
        rest % 3600 / 60 % 10,
        rest % 60 / 10,
        rest % 60 % 10,
    ]
}

/// There are as many digits as a stamp has, and each is one.
spec fn are_digits(c: Seq<int>) -> bool {
    &&& c.len() == 14
    &&& forall|i: int| 0 <= i < 14 ==> 0 <= #[trigger] c[i] <= 9
}

/// The stamp with the digits `c`.
spec fn written(c: Seq<int>) -> Seq<char> {
    seq![
        digit(c[0]),
        digit(c[1]),
        digit(c[2]),
        digit(c[3]),
        '-',
        digit(c[4]),
        digit(c[5]),
        '-',
        digit(c[6]),
        digit(c[7]),
        'T',
        digit(c[8]),
        digit(c[9]),
        '-',
        digit(c[10]),
        digit(c[11]),
        '-',
        digit(c[12]),
        digit(c[13]),
        'Z',
    ]
}

/// Where the `j`th digit stands.
spec fn place(j: int) -> int {
    if j < 4 {
        j
    } else if j < 6 {
        j + 1
    } else if j < 8 {
        j + 2
    } else if j < 10 {
        j + 3
    } else if j < 12 {
        j + 4
    } else {
        j + 5
    }
}

proof fn lemma_digits(year: int, month: int, day: int, rest: int)
    requires
        0 <= year < 10_000,
        0 <= month < 100,
        0 <= day < 100,
        0 <= rest < 86_400,
    ensures
        are_digits(digits(year, month, day, rest)),
{
    reveal(digits);
    let c = digits(year, month, day, rest);
    assert(0 <= c[0] <= 9 && 0 <= c[1] <= 9 && 0 <= c[2] <= 9 && 0 <= c[3] <= 9);
    assert(0 <= c[4] <= 9 && 0 <= c[5] <= 9);
    assert(0 <= c[6] <= 9 && 0 <= c[7] <= 9);
    assert(0 <= c[8] <= 9 && 0 <= c[9] <= 9);
    assert(0 <= c[10] <= 9 && 0 <= c[11] <= 9);
    assert(0 <= c[12] <= 9 && 0 <= c[13] <= 9);
    assert forall|i: int| 0 <= i < 14 implies 0 <= #[trigger] c[i] <= 9 by {}
}

/// The stamp of a second of a year with four digits.
proof fn lemma_stamp(year: int, month: int, day: int, rest: int)
    requires
        0 <= year < 10_000,
        0 <= month < 100,
        0 <= day < 100,
        0 <= rest < 86_400,
    ensures
        stamp_text(year, month, day, rest) == written(digits(year, month, day, rest)),
{
    lemma_four(year);
    lemma_two(month);
    lemma_two(day);
    lemma_two(rest / 3600);
    lemma_two(rest % 3600 / 60);
    lemma_two(rest % 60);
    reveal(digits);
    assert(stamp_text(year, month, day, rest) =~= written(digits(year, month, day, rest)));
}

/// A stamp is ASCII.
proof fn lemma_ascii(c: Seq<int>)
    requires
        are_digits(c),
    ensures
        is_ascii_chars(written(c)),
        written(c).len() == 20,
{
    assert forall|d: int| 0 <= d <= 9 implies '0' <= #[trigger] digit(d) <= '9' by {}
    let s = written(c);
    assert forall|i: int| 0 <= i < s.len() implies '\0' <= #[trigger] s[i] <= '\u{7f}' by {
        assert(0 <= c[0] <= 9 && 0 <= c[1] <= 9 && 0 <= c[2] <= 9 && 0 <= c[3] <= 9);
        assert(0 <= c[4] <= 9 && 0 <= c[5] <= 9 && 0 <= c[6] <= 9 && 0 <= c[7] <= 9);
        assert(0 <= c[8] <= 9 && 0 <= c[9] <= 9 && 0 <= c[10] <= 9 && 0 <= c[11] <= 9);
        assert(0 <= c[12] <= 9 && 0 <= c[13] <= 9);
    }
}

/// `s` sorts before `t`, both of one length.
spec fn sorts_before(s: Seq<char>, t: Seq<char>) -> bool {
    exists|k: int| #[trigger] agree(s, t, k) && k < s.len() && k < t.len() && s[k] < t[k]
}

/// The first digit that differs decides.
proof fn lemma_decides(c: Seq<int>, e: Seq<int>, j: int)
    requires
        are_digits(c),
        are_digits(e),
        0 <= j < 14,
        forall|i: int| 0 <= i < j ==> c[i] == e[i],
        c[j] < e[j],
    ensures
        sorts_before(written(c), written(e)),
{
    let s = written(c);
    let t = written(e);
    let k = place(j);
    assert(s[k] == digit(c[j]));
    assert(t[k] == digit(e[j]));
    assert forall|i: int| 0 <= i < k implies s[i] == t[i] by {
        if i < 4 {
            assert(s[i] == digit(c[i]));
            assert(t[i] == digit(e[i]));
        } else if i == 5 || i == 6 {
            assert(s[i] == digit(c[i - 1]));
            assert(t[i] == digit(e[i - 1]));
        } else if i == 8 || i == 9 {
            assert(s[i] == digit(c[i - 2]));
            assert(t[i] == digit(e[i - 2]));
        } else if i == 11 || i == 12 {
            assert(s[i] == digit(c[i - 3]));
            assert(t[i] == digit(e[i - 3]));
        } else if i == 14 || i == 15 {
            assert(s[i] == digit(c[i - 4]));
            assert(t[i] == digit(e[i - 4]));
        } else if i == 17 || i == 18 {
            assert(s[i] == digit(c[i - 5]));
            assert(t[i] == digit(e[i - 5]));
        }
    }
    assert(agree(s, t, k));
    assert(0 <= c[j] <= 9 && 0 <= e[j] <= 9);
    assert(s[k] < t[k]);
}

/// A later second of one day has a later time.
proof fn lemma_time(a: int, b: int)
    requires
        0 <= a < b < 86_400,
    ensures
        a / 3600 < b / 3600 || (a / 3600 == b / 3600 && (a % 3600 / 60 < b % 3600 / 60 || (a % 3600
            / 60 == b % 3600 / 60 && a % 60 < b % 60))),
{
    assert(a % 3600 % 60 == a % 60);
    assert(b % 3600 % 60 == b % 60);
}

/// The first of the four digits in which two years differ.
proof fn lemma_years(y: int, y2: int) -> (j: int)
    requires
        0 <= y < y2 < 10_000,
    ensures
        0 <= j < 4,
        j == 0 ==> y / 1000 < y2 / 1000,
        j > 0 ==> y / 1000 == y2 / 1000,
        j == 1 ==> y / 100 % 10 < y2 / 100 % 10,
        j > 1 ==> y / 100 % 10 == y2 / 100 % 10,
        j == 2 ==> y / 10 % 10 < y2 / 10 % 10,
        j > 2 ==> y / 10 % 10 == y2 / 10 % 10,
        j == 3 ==> y % 10 < y2 % 10,
{
    if y / 1000 < y2 / 1000 {
        0
    } else if y / 100 < y2 / 100 {
        1
    } else if y / 10 < y2 / 10 {
        2
    } else {
        3
    }
}

proof fn lemma_sorted_by_year(c: Seq<int>, e: Seq<int>, y: int, y2: int)
    requires
        are_digits(c),
        are_digits(e),
        0 <= y < y2 < 10_000,
        c[0] == y / 1000 && c[1] == y / 100 % 10 && c[2] == y / 10 % 10 && c[3] == y % 10,
        e[0] == y2 / 1000 && e[1] == y2 / 100 % 10 && e[2] == y2 / 10 % 10 && e[3] == y2 % 10,
    ensures
        sorts_before(written(c), written(e)),
{
    let j = lemma_years(y, y2);
    lemma_decides(c, e, j);
}

proof fn lemma_sorted_by_day(c: Seq<int>, e: Seq<int>, m: int, d: int, m2: int, d2: int)
    requires
        are_digits(c),
        are_digits(e),
        0 <= m < 100 && 0 <= d < 100 && 0 <= m2 < 100 && 0 <= d2 < 100,
        m < m2 || (m == m2 && d < d2),
        forall|i: int| 0 <= i < 4 ==> #[trigger] c[i] == e[i],
        c[4] == m / 10 && c[5] == m % 10 && c[6] == d / 10 && c[7] == d % 10,
        e[4] == m2 / 10 && e[5] == m2 % 10 && e[6] == d2 / 10 && e[7] == d2 % 10,
    ensures
        sorts_before(written(c), written(e)),
{
    let j: int = if m < m2 {
        if m / 10 < m2 / 10 {
            4
        } else {
            5
        }
    } else if d / 10 < d2 / 10 {
        6
    } else {
        7
    };
    assert forall|i: int| 0 <= i < j implies c[i] == e[i] by {
        if i < 4 {
            assert(c[i] == e[i]);
        } else if i == 4 {
            assert(c[4] == e[4]);
        } else if i == 5 {
            assert(c[5] == e[5]);
        } else {
            assert(c[6] == e[6]);
        }
    }
    lemma_decides(c, e, j);
}

proof fn lemma_sorted_by_time(c: Seq<int>, e: Seq<int>, r: int, r2: int)
    requires
        are_digits(c),
        are_digits(e),
        0 <= r < r2 < 86_400,
        forall|i: int| 0 <= i < 8 ==> #[trigger] c[i] == e[i],
        c[8] == r / 3600 / 10 && c[9] == r / 3600 % 10,
        c[10] == r % 3600 / 60 / 10 && c[11] == r % 3600 / 60 % 10,
        c[12] == r % 60 / 10 && c[13] == r % 60 % 10,
        e[8] == r2 / 3600 / 10 && e[9] == r2 / 3600 % 10,
        e[10] == r2 % 3600 / 60 / 10 && e[11] == r2 % 3600 / 60 % 10,
        e[12] == r2 % 60 / 10 && e[13] == r2 % 60 % 10,
    ensures
        sorts_before(written(c), written(e)),
{
    let j = lemma_times(r, r2);
    assert forall|i: int| 0 <= i < j implies c[i] == e[i] by {
        if i < 8 {
            assert(c[i] == e[i]);
        } else if i == 8 {
            assert(c[8] == e[8]);
        } else if i == 9 {
            assert(c[9] == e[9]);
        } else if i == 10 {
            assert(c[10] == e[10]);
        } else if i == 11 {
            assert(c[11] == e[11]);
        } else {
            assert(c[12] == e[12]);
        }
    }
    lemma_decides(c, e, j);
}

/// An earlier date, or an earlier time of one date, sorts first.
proof fn lemma_sorted(y: int, m: int, d: int, r: int, y2: int, m2: int, d2: int, r2: int)
    requires
        0 <= y < 10_000 && 0 <= m < 100 && 0 <= d < 100 && 0 <= r < 86_400,
        0 <= y2 < 10_000 && 0 <= m2 < 100 && 0 <= d2 < 100 && 0 <= r2 < 86_400,
        is_earlier(y, m, d, y2, m2, d2) || (y == y2 && m == m2 && d == d2 && r < r2),
    ensures
        sorts_before(stamp_text(y, m, d, r), stamp_text(y2, m2, d2, r2)),
{
    let c = digits(y, m, d, r);
    let e = digits(y2, m2, d2, r2);
    lemma_digits(y, m, d, r);
    lemma_digits(y2, m2, d2, r2);
    lemma_stamp(y, m, d, r);
    lemma_stamp(y2, m2, d2, r2);
    if y < y2 {
        lemma_year_digits(y, m, d, r);
        lemma_year_digits(y2, m2, d2, r2);
        lemma_sorted_by_year(c, e, y, y2);
    } else if m < m2 || (m == m2 && d < d2) {
        lemma_day_digits(y, m, d, r, m2, d2, r2);
        lemma_sorted_by_day(c, e, m, d, m2, d2);
    } else {
        lemma_time_digits(y, m, d, r, r2);
        lemma_sorted_by_time(c, e, r, r2);
    }
}

proof fn lemma_year_digits(y: int, m: int, d: int, r: int)
    ensures
        ({
            let c = digits(y, m, d, r);
            c[0] == y / 1000 && c[1] == y / 100 % 10 && c[2] == y / 10 % 10 && c[3] == y % 10
        }),
{
    reveal(digits);
}

proof fn lemma_day_digits(y: int, m: int, d: int, r: int, m2: int, d2: int, r2: int)
    ensures
        ({
            let c = digits(y, m, d, r);
            let e = digits(y, m2, d2, r2);
            &&& forall|i: int| 0 <= i < 4 ==> #[trigger] c[i] == e[i]
            &&& c[4] == m / 10 && c[5] == m % 10 && c[6] == d / 10 && c[7] == d % 10
            &&& e[4] == m2 / 10 && e[5] == m2 % 10 && e[6] == d2 / 10 && e[7] == d2 % 10
        }),
{
    reveal(digits);
}

proof fn lemma_time_digits(y: int, m: int, d: int, r: int, r2: int)
    ensures
        ({
            let c = digits(y, m, d, r);
            let e = digits(y, m, d, r2);
            &&& forall|i: int| 0 <= i < 8 ==> #[trigger] c[i] == e[i]
            &&& c[8] == r / 3600 / 10 && c[9] == r / 3600 % 10
            &&& c[10] == r % 3600 / 60 / 10 && c[11] == r % 3600 / 60 % 10
            &&& c[12] == r % 60 / 10 && c[13] == r % 60 % 10
            &&& e[8] == r2 / 3600 / 10 && e[9] == r2 / 3600 % 10
            &&& e[10] == r2 % 3600 / 60 / 10 && e[11] == r2 % 3600 / 60 % 10
            &&& e[12] == r2 % 60 / 10 && e[13] == r2 % 60 % 10
        }),
{
    reveal(digits);
}

/// The first digit in which two times differ.
proof fn lemma_times(r: int, r2: int) -> (j: int)
    requires
        0 <= r < r2 < 86_400,
    ensures
        8 <= j < 14,
        j == 8 ==> r / 3600 / 10 < r2 / 3600 / 10,
        j > 8 ==> r / 3600 / 10 == r2 / 3600 / 10,
        j == 9 ==> r / 3600 % 10 < r2 / 3600 % 10,
        j > 9 ==> r / 3600 % 10 == r2 / 3600 % 10,
        j == 10 ==> r % 3600 / 60 / 10 < r2 % 3600 / 60 / 10,
        j > 10 ==> r % 3600 / 60 / 10 == r2 % 3600 / 60 / 10,
        j == 11 ==> r % 3600 / 60 % 10 < r2 % 3600 / 60 % 10,
        j > 11 ==> r % 3600 / 60 % 10 == r2 % 3600 / 60 % 10,
        j == 12 ==> r % 60 / 10 < r2 % 60 / 10,
        j > 12 ==> r % 60 / 10 == r2 % 60 / 10,
        j == 13 ==> r % 60 % 10 < r2 % 60 % 10,
{
    lemma_time(r, r2);
    if r / 3600 < r2 / 3600 {
        if r / 3600 / 10 < r2 / 3600 / 10 {
            8
        } else {
            9
        }
    } else if r % 3600 / 60 < r2 % 3600 / 60 {
        if r % 3600 / 60 / 10 < r2 % 3600 / 60 / 10 {
            10
        } else {
            11
        }
    } else if r % 60 / 10 < r2 % 60 / 10 {
        12
    } else {
        13
    }
}

/// The date of a moment before the year 10000, and not before the epoch.
proof fn lemma_year(year: int, month: int, day: int)
    requires
        is_date(year, month, day),
        0 <= day_number(year, month, day) < day_number(10_000, 1, 1),
    ensures
        0 <= year < 10_000,
{
    if year >= 10_000 {
        if !(year == 10_000 && month == 1 && day == 1) {
            law_an_earlier_day_has_an_earlier_date(year, month, day, 10_000, 1, 1);
        }
    }
    if year < 1970 {
        law_an_earlier_day_has_an_earlier_date(1969, 12, 31, year, month, day);
    }
}

/// The first second of the year 10000.
pub open spec fn five_digits() -> int {
    day_number(10_000, 1, 1) * 86_400
}

/// Stamps of moments before the year 10000 are 20 bytes long, never fall as time
/// goes on, byte by byte, and are equal only within one second; a moment before
/// the epoch has the epoch's.
pub proof fn law_stamps_rise_with_time(
    earlier: Option<u64>,
    later: Option<u64>,
    s: Seq<char>,
    t: Seq<char>,
)
    requires
        is_stamp(s, unix_seconds(earlier) as int),
        is_stamp(t, unix_seconds(later) as int),
        earlier matches Some(a) ==> a < five_digits(),
        later matches Some(b) ==> b < five_digits(),
        earlier matches Some(a) ==> (later matches Some(b) && a <= b),
    ensures
        encode_utf8(s).len() == 20,
        encode_utf8(t).len() == 20,
        s == t || bytes_lt(encode_utf8(s), encode_utf8(t)),
        earlier is Some ==> (s == t <==> earlier == later),
        earlier is None ==> is_stamp(s, 0),
{
    let a = unix_seconds(earlier) as int;
    let b = unix_seconds(later) as int;
    assert(day_number(10_000, 1, 1) == 2_932_897);
    let (y, m, d) = choose|y: int, m: int, d: int|
        is_date(y, m, d) && #[trigger] day_number(y, m, d) == a / 86_400 && s == stamp_text(
            y,
            m,
            d,
            a % 86_400,
        );
    let (y2, m2, d2) = choose|y: int, m: int, d: int|
        is_date(y, m, d) && #[trigger] day_number(y, m, d) == b / 86_400 && t == stamp_text(
            y,
            m,
            d,
            b % 86_400,
        );
    lemma_year(y, m, d);
    lemma_year(y2, m2, d2);
    lemma_stamp(y, m, d, a % 86_400);
    lemma_stamp(y2, m2, d2, b % 86_400);
    lemma_digits(y, m, d, a % 86_400);
    lemma_digits(y2, m2, d2, b % 86_400);
    lemma_ascii(digits(y, m, d, a % 86_400));
    lemma_ascii(digits(y2, m2, d2, b % 86_400));
    is_ascii_chars_encode_utf8(s);
    is_ascii_chars_encode_utf8(t);
    if a / 86_400 == b / 86_400 {
        law_a_day_has_one_date(y, m, d, y2, m2, d2);
    } else {
        law_an_earlier_day_has_an_earlier_date(y, m, d, y2, m2, d2);
    }
    if a < b {
        lemma_sorted(y, m, d, a % 86_400, y2, m2, d2, b % 86_400);
        let k = choose|k: int|
            #[trigger] agree(s, t, k) && k < s.len() && k < t.len() && s[k] < t[k];
        assert(agree(encode_utf8(s), encode_utf8(t), k));
        assert(encode_utf8(s)[k] < encode_utf8(t)[k]);
    }
}

} // verus!
