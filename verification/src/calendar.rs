//! Civil dates and ISO-8601 timestamps.
use vstd::prelude::*;
use vstd::string::StringSliceAdditionalSpecFns;

verus! {

/// Division that drops the fraction, as integer division in code does.
pub open spec fn div_toward_zero(a: int, b: int) -> int {
    if a >= 0 {
        a / b
    } else {
        -((-a) / b)
    }
}

/// The year of a date when years start on the first of March.
pub open spec fn march_year(y: int, m: int) -> int {
    if m <= 2 {
        y - 1
    } else {
        y
    }
}

/// The month of a date when years start on the first of March, from 0.
pub open spec fn march_month(m: int) -> int {
    if m > 2 {
        m - 3
    } else {
        m + 9
    }
}

/// The days in the years before the March-based year `y`, counted from year 0.
pub open spec fn days_before_march_year(y: int) -> int {
    365 * y + y / 4 - y / 100 + y / 400
}

/// Days from 1970-01-01 to the date `y`-`m`-`day` of the Gregorian calendar.
pub open spec fn civil_days(y: int, m: int, day: int) -> int {
    days_before_march_year(march_year(y, m)) + div_toward_zero(153 * march_month(m) + 2, 5) + day
        - 1 - 719468
}

/// The weekday of a day counted from 1970-01-01: Monday is 0, Sunday is 6.
pub open spec fn weekday(days: int) -> int {
    (days + 3) % 7
}

/// Whether `y` is a leap year.
pub open spec fn is_leap_year(y: int) -> bool {
    y % 4 == 0 && (y % 100 != 0 || y % 400 == 0)
}

/// How many days the month `m` of the year `y` has.
pub open spec fn days_in_month(y: int, m: int) -> int {
    if m == 2 {
        if is_leap_year(y) {
            29
        } else {
            28
        }
    } else if m == 4 || m == 6 || m == 9 || m == 11 {
        30
    } else {
        31
    }
}

/// Whether `y`-`m`-`d` is a date of the calendar.
pub open spec fn is_date(y: int, m: int, d: int) -> bool {
    1 <= m <= 12 && 1 <= d <= days_in_month(y, m)
}

/// The date after `y`-`m`-`d`.
pub open spec fn next_date(y: int, m: int, d: int) -> (int, int, int) {
    if d < days_in_month(y, m) {
        (y, m, d + 1)
    } else if m < 12 {
        (y, m + 1, 1)
    } else {
        (y + 1, 1, 1)
    }
}

/// Whether the first date comes before the second.
pub open spec fn is_earlier_date(y1: int, m1: int, d1: int, y2: int, m2: int, d2: int) -> bool {
    y1 < y2 || (y1 == y2 && (m1 < m2 || (m1 == m2 && d1 < d2)))
}

/// The value of a byte as a decimal digit; the subtraction wraps in a byte.
pub open spec fn digit(b: u8) -> int {
    (b - 0x30) % 256
}

/// The two digits from position `i` on.
pub open spec fn two_digits(b: Seq<u8>, i: int) -> int {
    digit(b[i]) * 10 + digit(b[i + 1])
}

/// The four digits from position `i` on.
pub open spec fn four_digits(b: Seq<u8>, i: int) -> int {
    digit(b[i]) * 1000 + digit(b[i + 1]) * 100 + digit(b[i + 2]) * 10 + digit(b[i + 3])
}

/// The day that a timestamp names.
pub open spec fn timestamp_days(b: Seq<u8>) -> int {
    civil_days(four_digits(b, 0), two_digits(b, 5), two_digits(b, 8))
}

/// Seconds from 1970-01-01T00:00:00 to a time on a day.
pub open spec fn epoch_seconds(days: int, hour: int, minute: int, second: int) -> int {
    days * 86400 + hour * 3600 + minute * 60 + second
}

/// The epoch second of a timestamp; 0 for a text that is too short.
pub open spec fn timestamp_epoch(b: Seq<u8>) -> int {
    if b.len() < 19 {
        0
    } else {
        epoch_seconds(
            timestamp_days(b),
            two_digits(b, 11),
            two_digits(b, 14),
            two_digits(b, 17),
        )
    }
}

/// The hour of a timestamp, kept in a byte; 0 for a text that is too short.
pub open spec fn timestamp_hour(b: Seq<u8>) -> int {
    if b.len() < 19 {
        0
    } else {
        two_digits(b, 11) % 256
    }
}

/// The weekday of a timestamp; 0 for a text that is too short.
pub open spec fn timestamp_weekday(b: Seq<u8>) -> int {
    if b.len() < 19 {
        0
    } else {
        weekday(timestamp_days(b))
    }
}

/// Days since 1970-01-01 for a civil date (Howard Hinnant's algorithm). The
/// steps are taken in 128 bits, so that only the answer has to fit.
pub fn days_from_civil(y: i64, m: i64, day: i64) -> (r: i64)
    requires
        i64::MIN <= civil_days(y as int, m as int, day as int) <= i64::MAX,
    ensures
        r == civil_days(y as int, m as int, day as int),
{
    let y: i128 = if m <= 2 {
        y as i128 - 1
    } else {
        y as i128
    };
    let era: i128 = (if y >= 0 {
        y
    } else {
        y - 399
    }) / 400;
    let yoe: i128 = y - era * 400;
    let doy: i128 = (153 * (if m > 2 {
        m as i128 - 3
    } else {
        m as i128 + 9
    }) + 2) / 5 + day as i128 - 1;
    let doe: i128 = yoe * 365 + yoe / 4 - yoe / 100 + doy;
    (era * 146097 + doe - 719468) as i64
}

fn digit_value(b: u8) -> (r: i64)
    ensures
        r == digit(b),
        0 <= r < 256,
{
    b.wrapping_sub(0x30) as i64
}

fn two_digit_value(b: &[u8], i: usize) -> (r: i64)
    requires
        i + 1 < b@.len(),
    ensures
        r == two_digits(b@, i as int),
        0 <= r < 2816,
{
    digit_value(b[i]) * 10 + digit_value(b[i + 1])
}

fn four_digit_value(b: &[u8], i: usize) -> (r: i64)
    requires
        i + 3 < b@.len(),
    ensures
        r == four_digits(b@, i as int),
        0 <= r < 284_416,
{
    digit_value(b[i]) * 1000 + digit_value(b[i + 1]) * 100 + digit_value(b[i + 2]) * 10
        + digit_value(b[i + 3])
}

fn weekday_of(days: i64) -> (r: u8)
    ensures
        r == weekday(days as int),
{
    // 1970-01-01 was a Thursday (=4 in a Sunday-0 scheme).
    let dow_sun0: i64 = ((days % 7 + 4) % 7 + 7) % 7;
    ((dow_sun0 + 6) % 7) as u8
}

proof fn lemma_civil_days_small(y: int, m: int, day: int)
    requires
        0 <= y <= 1_000_000,
        0 <= m <= 10_000,
        0 <= day <= 10_000,
    ensures
        -1_000_000 <= civil_days(y, m, day) <= 400_000_000,
{
}

/// Reads an ISO-8601 timestamp: the seconds since 1970-01-01T00:00:00, the hour,
/// and the weekday (Monday is 0). A text of fewer than 19 bytes gives zeros.
pub fn parse_datetime(date_str: &str) -> (r: (i64, u8, u8))
    ensures
        r.0 == timestamp_epoch(date_str.spec_bytes()),
        r.1 == timestamp_hour(date_str.spec_bytes()),
        r.2 == timestamp_weekday(date_str.spec_bytes()),
{
    let b: &[u8] = date_str.as_bytes();
    if b.len() < 19 {
        return (0, 0, 0);
    }
    let year: i64 = four_digit_value(b, 0);
    let month: i64 = two_digit_value(b, 5);
    let day: i64 = two_digit_value(b, 8);
    let hour: i64 = two_digit_value(b, 11);
    let min: i64 = two_digit_value(b, 14);
    let sec: i64 = two_digit_value(b, 17);
    proof {
        lemma_civil_days_small(year as int, month as int, day as int);
    }
    let days: i64 = days_from_civil(year, month, day);
    let epoch: i64 = days * 86400 + hour * 3600 + min * 60 + sec;
    (epoch, (hour % 256) as u8, weekday_of(days))
}

/// No timestamp is further than a few million years from 1970.
pub proof fn epochs_are_bounded(b: Seq<u8>)
    ensures
        -100_000_000_000 <= timestamp_epoch(b) <= 100_000_000_000_000,
{
    if b.len() >= 19 {
        lemma_civil_days_small(four_digits(b, 0), two_digits(b, 5), two_digits(b, 8));
    }
}

/// The count starts at 1970-01-01.
pub proof fn first_day_is_zero()
    ensures
        civil_days(1970, 1, 1) == 0,
        weekday(0) == 3,
{
}

proof fn lemma_march_year_length(y: int)
    ensures
        days_before_march_year(y + 1) == days_before_march_year(y) + if is_leap_year(y + 1) {
            366int
        } else {
            365int
        },
{
    assert((y + 1) / 4 == y / 4 + if (y + 1) % 4 == 0 { 1int } else { 0int });
    assert((y + 1) / 100 == y / 100 + if (y + 1) % 100 == 0 { 1int } else { 0int });
    assert((y + 1) / 400 == y / 400 + if (y + 1) % 400 == 0 { 1int } else { 0int });
    assert((y + 1) % 100 == 0 ==> (y + 1) % 4 == 0);
    assert((y + 1) % 400 == 0 ==> (y + 1) % 100 == 0);
}

proof fn lemma_march_years_grow(y1: int, y2: int)
    requires
        y1 <= y2,
    ensures
        days_before_march_year(y1) <= days_before_march_year(y2),
    decreases y2 - y1,
{
    if y1 < y2 {
        lemma_march_years_grow(y1, y2 - 1);
        lemma_march_year_length(y2 - 1);
    }
}

/// Each date is one day after the date before it.
pub proof fn next_date_is_one_day_later(y: int, m: int, d: int)
    requires
        is_date(y, m, d),
    ensures
        ({
            let (y2, m2, d2) = next_date(y, m, d);
            is_date(y2, m2, d2) && civil_days(y2, m2, d2) == civil_days(y, m, d) + 1
        }),
{
    if d == days_in_month(y, m) {
        if m == 2 {
            lemma_march_year_length(y - 1);
        } else if m < 12 {
            let a = march_month(m);
            assert((153 * (a + 1) + 2) / 5 == (153 * a + 2) / 5 + d);
        }
    }
}

/// The weekday moves on by one each day and comes back after seven.
pub proof fn weekdays_go_round(days: int)
    ensures
        0 <= weekday(days) <= 6,
        weekday(days + 1) == (weekday(days) + 1) % 7,
        weekday(days + 7) == weekday(days),
{
}

/// A later date has a larger day count.
pub proof fn later_dates_count_more(y1: int, m1: int, d1: int, y2: int, m2: int, d2: int)
    requires
        is_date(y1, m1, d1),
        is_date(y2, m2, d2),
        is_earlier_date(y1, m1, d1, y2, m2, d2),
    ensures
        civil_days(y1, m1, d1) < civil_days(y2, m2, d2),
{
    let a = march_year(y1, m1);
    let b = march_year(y2, m2);
    if a < b {
        lemma_march_year_length(a);
        lemma_march_years_grow(a + 1, b);
    }
}

/// A decimal digit as a byte.
pub open spec fn digit_byte(d: int) -> u8 {
    (0x30 + d) as u8
}

/// The timestamp `YYYY-MM-DDThh:mm:ss` of a date and a time.
pub open spec fn rendered(y: int, m: int, d: int, hour: int, minute: int, second: int) -> Seq<u8> {
    seq![
        digit_byte(y / 1000),
        digit_byte(y / 100 % 10),
        digit_byte(y / 10 % 10),
        digit_byte(y % 10),
        0x2d,
        digit_byte(m / 10),
        digit_byte(m % 10),
        0x2d,
        digit_byte(d / 10),
        digit_byte(d % 10),
        0x54,
        digit_byte(hour / 10),
        digit_byte(hour % 10),
        0x3a,
        digit_byte(minute / 10),
        digit_byte(minute % 10),
        0x3a,
        digit_byte(second / 10),
        digit_byte(second % 10),
    ]
}

proof fn lemma_two_digits_of(b: Seq<u8>, i: int, x: int)
    requires
        0 <= x <= 99,
        b[i] == digit_byte(x / 10),
        b[i + 1] == digit_byte(x % 10),
    ensures
        two_digits(b, i) == x,
{
}

proof fn lemma_four_digits_of(b: Seq<u8>, i: int, x: int)
    requires
        0 <= x <= 9999,
        b[i] == digit_byte(x / 1000),
        b[i + 1] == digit_byte(x / 100 % 10),
        b[i + 2] == digit_byte(x / 10 % 10),
        b[i + 3] == digit_byte(x % 10),
    ensures
        four_digits(b, i) == x,
{
    let tens = x / 10;
    let hundreds = tens / 10;
    assert(x / 100 == hundreds);
    assert(x / 1000 == hundreds / 10);
    assert(digit(b[i]) == hundreds / 10);
    assert(digit(b[i + 1]) == hundreds % 10);
    assert(digit(b[i + 2]) == tens % 10);
    assert(digit(b[i + 3]) == x % 10);
}

proof fn lemma_digits_of_rendered(
    y: int,
    m: int,
    d: int,
    hour: int,
    minute: int,
    second: int,
    text: Seq<u8>,
)
    requires
        0 <= y <= 9999,
        0 <= m <= 99,
        0 <= d <= 99,
        0 <= hour <= 99,
        0 <= minute <= 99,
        0 <= second <= 99,
        text.len() >= 19,
        text.take(19) == rendered(y, m, d, hour, minute, second),
    ensures
        four_digits(text, 0) == y,
        two_digits(text, 5) == m,
        two_digits(text, 8) == d,
        two_digits(text, 11) == hour,
        two_digits(text, 14) == minute,
        two_digits(text, 17) == second,
{
    assert forall|i: int| 0 <= i < 19 implies #[trigger] text[i] == rendered(
        y,
        m,
        d,
        hour,
        minute,
        second,
    )[i] by {
        assert(text.take(19)[i] == text[i]);
    }
    lemma_four_digits_of(text, 0, y);
    lemma_two_digits_of(text, 5, m);
    lemma_two_digits_of(text, 8, d);
    lemma_two_digits_of(text, 11, hour);
    lemma_two_digits_of(text, 14, minute);
    lemma_two_digits_of(text, 17, second);
}

/// A rendered timestamp is read back as the date and time that it was made
/// of, whatever zone or fraction follows it.
pub proof fn rendered_timestamp_is_read_back(
    y: int,
    m: int,
    d: int,
    hour: int,
    minute: int,
    second: int,
    rest: Seq<u8>,
)
    requires
        0 <= y <= 9999,
        0 <= m <= 99,
        0 <= d <= 99,
        0 <= hour <= 99,
        0 <= minute <= 99,
        0 <= second <= 99,
    ensures
        timestamp_epoch(rendered(y, m, d, hour, minute, second) + rest) == epoch_seconds(
            civil_days(y, m, d),
            hour,
            minute,
            second,
        ),
        timestamp_hour(rendered(y, m, d, hour, minute, second) + rest) == hour,
        timestamp_weekday(rendered(y, m, d, hour, minute, second) + rest) == weekday(
            civil_days(y, m, d),
        ),
{
    let prefix = rendered(y, m, d, hour, minute, second);
    assert((prefix + rest).take(19) =~= prefix);
    lemma_digits_of_rendered(y, m, d, hour, minute, second, prefix + rest);
}

/// Of a timestamp only the fourteen digits count: separators and whatever
/// follows the seconds make no difference.
pub proof fn only_the_digits_count(a: Seq<u8>, b: Seq<u8>)
    requires
        a.len() >= 19,
        b.len() >= 19,
        forall|i: int|
            0 <= i < 19 && i != 4 && i != 7 && i != 10 && i != 13 && i != 16 ==> #[trigger] a[i]
                == b[i],
    ensures
        timestamp_epoch(a) == timestamp_epoch(b),
        timestamp_hour(a) == timestamp_hour(b),
        timestamp_weekday(a) == timestamp_weekday(b),
{
}

/// Timestamps of later moments have larger epoch seconds.
pub proof fn later_moments_have_larger_epochs(
    y1: int,
    m1: int,
    d1: int,
    hour1: int,
    minute1: int,
    second1: int,
    y2: int,
    m2: int,
    d2: int,
    hour2: int,
    minute2: int,
    second2: int,
)
    requires
        is_date(y1, m1, d1),
        is_date(y2, m2, d2),
        0 <= hour1 < 24,
        0 <= minute1 < 60,
        0 <= second1 < 60,
        0 <= hour2 < 24,
        0 <= minute2 < 60,
        0 <= second2 < 60,
        is_earlier_date(y1, m1, d1, y2, m2, d2) || (y1 == y2 && m1 == m2 && d1 == d2 && (hour1
            < hour2 || (hour1 == hour2 && (minute1 < minute2 || (minute1 == minute2 && second1
            < second2))))),
    ensures
        epoch_seconds(civil_days(y1, m1, d1), hour1, minute1, second1) < epoch_seconds(
            civil_days(y2, m2, d2),
            hour2,
            minute2,
            second2,
        ),
{
    if is_earlier_date(y1, m1, d1, y2, m2, d2) {
        later_dates_count_more(y1, m1, d1, y2, m2, d2);
    }
}

/// A year has 366 days if four divides it, unless a hundred does and four hundred
/// does not; else 365.
pub proof fn length_of_a_year(y: int)
    ensures
        y % 4 == 0 && (y % 100 != 0 || y % 400 == 0) ==> civil_days(y + 1, 1, 1) == civil_days(
            y,
            1,
            1,
        ) + 366,
        !(y % 4 == 0 && (y % 100 != 0 || y % 400 == 0)) ==> civil_days(y + 1, 1, 1) == civil_days(
            y,
            1,
            1,
        ) + 365,
{
    lemma_march_year_length(y - 1);
}

/// The calendar repeats every four hundred years, which have 146097 days.
pub proof fn calendar_repeats(y: int, m: int, d: int)
    ensures
        civil_days(y + 400, m, d) == civil_days(y, m, d) + 146097,
{
    let a = march_year(y, m);
    assert(march_year(y + 400, m) == a + 400);
    assert((a + 400) / 4 == a / 4 + 100);
    assert((a + 400) / 100 == a / 100 + 4);
    assert((a + 400) / 400 == a / 400 + 1);
}

/// The months of a year have 31, 28 or 29, 31, 30, 31, 30, 31, 31, 30, 31, 30 and 31
/// days.
pub proof fn lengths_of_the_months(y: int)
    ensures
        civil_days(y, 2, 1) == civil_days(y, 1, 1) + 31,
        civil_days(y, 3, 1) == civil_days(y, 2, 1) + if y % 4 == 0 && (y % 100 != 0 || y % 400
            == 0) {
            29int
        } else {
            28int
        },
        civil_days(y, 4, 1) == civil_days(y, 3, 1) + 31,
        civil_days(y, 5, 1) == civil_days(y, 4, 1) + 30,
        civil_days(y, 6, 1) == civil_days(y, 5, 1) + 31,
        civil_days(y, 7, 1) == civil_days(y, 6, 1) + 30,
        civil_days(y, 8, 1) == civil_days(y, 7, 1) + 31,
        civil_days(y, 9, 1) == civil_days(y, 8, 1) + 31,
        civil_days(y, 10, 1) == civil_days(y, 9, 1) + 30,
        civil_days(y, 11, 1) == civil_days(y, 10, 1) + 31,
        civil_days(y, 12, 1) == civil_days(y, 11, 1) + 30,
        civil_days(y + 1, 1, 1) == civil_days(y, 12, 1) + 31,
{
    lemma_march_year_length(y - 1);
}

/// Days are counted on within a month, past its end and before its start.
pub proof fn days_count_on(y: int, m: int, d: int)
    ensures
        civil_days(y, m, d) == civil_days(y, m, 1) + d - 1,
{
}

/// Months past December go on in steps of five months with 153 days.
pub proof fn months_past_december(y: int, m: int, d: int)
    requires
        m > 2,
    ensures
        civil_days(y, m + 5, d) == civil_days(y, m, d) + 153,
{
    let a = 153 * (m - 3) + 2;
    assert((a + 765) / 5 == a / 5 + 153);
}

/// Months before January are those of the year before, back to its March. Further
/// back the fractions of the steps of 153 days are dropped the other way.
pub proof fn months_before_january(y: int, m: int, d: int)
    ensures
        -9 <= m <= 2 ==> civil_days(y, m, d) == civil_days(y - 1, m + 12, d),
        civil_days(y, -10, d) == civil_days(y - 1, 3, d) - 30,
        civil_days(y, -11, d) == civil_days(y - 1, 3, d) - 60,
        civil_days(y, -12, d) == civil_days(y - 1, 3, d) - 91,
        civil_days(y, -13, d) == civil_days(y - 1, 3, d) - 122,
        civil_days(y, -14, d) == civil_days(y - 1, 3, d) - 152,
        m <= -10 ==> civil_days(y, m - 5, d) == civil_days(y, m, d) - 153,
{
    let a = -(153 * (m + 9) + 2);
    assert((a + 765) / 5 == a / 5 + 153);
}

/// A timestamp is read from fourteen of its first nineteen bytes. `v` holds what each
/// byte is worth: its distance from the character 0, counted round in a byte, so
/// that a digit is worth itself. The year has the weights 1000, 100, 10 and 1, all
/// else 10 and 1; a day has 86400 seconds, an hour 3600 and a minute 60.
pub proof fn timestamp_by_its_digits(b: Seq<u8>, v: Seq<int>)
    requires
        v.len() == 19,
        forall|i: int| 0 <= i < 19 ==> 0 <= #[trigger] v[i] < 256,
        forall|i: int| 0 <= i < 19 ==> (#[trigger] v[i] - (b[i] - 48)) % 256 == 0,
    ensures
        b.len() >= 19 ==> ({
            let days = civil_days(
                1000 * v[0] + 100 * v[1] + 10 * v[2] + v[3],
                10 * v[5] + v[6],
                10 * v[8] + v[9],
            );
            &&& timestamp_epoch(b) == 86400 * days + 3600 * (10 * v[11] + v[12]) + 60 * (10 * v[14]
                + v[15]) + 10 * v[17] + v[18]
            &&& timestamp_hour(b) == (10 * v[11] + v[12]) % 256
            &&& timestamp_weekday(b) == (days + 3) % 7
        }),
        b.len() < 19 ==> timestamp_epoch(b) == 0 && timestamp_hour(b) == 0 && timestamp_weekday(b)
            == 0,
{
    assert forall|i: int| 0 <= i < 19 implies #[trigger] v[i] == digit(b[i]) by {
        lemma_worth(b[i], v[i]);
    }
}

proof fn lemma_worth(b: u8, v: int)
    requires
        0 <= v < 256,
        (v - (b - 48)) % 256 == 0,
    ensures
        v == digit(b),
{
}

} // verus!
