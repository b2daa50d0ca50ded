//! Human labels for rate-limit reset times: `14:30` when the reset lands
//! today (local time), a weekday abbreviation (`Thu`) otherwise.

use vstd::prelude::*;
use crate::text::{all_digits, digits_value, push_char, push_str};
use chrono::{Datelike, Timelike};

verus! {

/// Epochs after 2100-01-01 are taken to be milliseconds: a guard against
/// the seconds-versus-milliseconds drift of APIs.
pub const MS_EPOCH_THRESHOLD: i64 = 4_102_444_800;

/// A moment in local time, as the calendar and the clock show it.
#[derive(Debug, Clone, Copy, PartialEq, Eq)]
pub struct LocalTime {
    pub year: i32,
    pub month: u32,
    pub day: u32,
    pub hour: u32,
    pub minute: u32,
    /// Days since Monday: 0 for Monday, 6 for Sunday.
    pub weekday: u32,
}

/// The fields of a `LocalTime` are within the calendar's ranges.
pub open spec fn local_time_wf(t: LocalTime) -> bool {
    &&& 1 <= t.month <= 12
    &&& 1 <= t.day <= 31
    &&& t.hour < 24
    &&& t.minute < 60
    &&& t.weekday < 7
}

/// The earliest Unix time chrono represents: 1 January of year -262143,
/// 00:00:00 UTC (`NaiveDate::MIN`).
pub const MIN_UNIX_SECS: i64 = -8334601228800;

/// The latest whole Unix second chrono represents: 31 December of year
/// 262142, 23:59:59 UTC (`NaiveDate::MAX`).
pub const MAX_UNIX_SECS: i64 = 8210266876799;

/// A Unix time in seconds that chrono can represent as a date and time.
pub open spec fn representable_secs(secs: i64) -> bool {
    MIN_UNIX_SECS <= secs <= MAX_UNIX_SECS
}

/// The local time of the Unix time `secs`. Trusted: chrono's
/// `DateTime::from_timestamp(secs, 0)` taken to the `Local` time zone with
/// `with_timezone`, read through its calendar and clock fields.
/// `from_timestamp` returns `None` exactly when the day
/// `secs.div_euclid(86_400)` lies outside the dates chrono represents
/// (`NaiveDate::MIN..=NaiveDate::MAX`), which is the range
/// [`MIN_UNIX_SECS`]`..=`[`MAX_UNIX_SECS`]; `with_timezone` and the field
/// readers return no `Option`. The fields depend on the machine's time
/// zone, so only their ranges are stated.
#[verifier::external_body]
pub(crate) fn local_time(secs: i64) -> (r: Option<LocalTime>)
    ensures
        r is Some <==> representable_secs(secs),
        r matches Some(t) ==> local_time_wf(t),
{
    let t = chrono::DateTime::from_timestamp(secs, 0)?.with_timezone(&chrono::Local);
    Some(LocalTime {
        year: t.year(),
        month: t.month(),
        day: t.day(),
        hour: t.hour(),
        minute: t.minute(),
        weekday: t.weekday().num_days_from_monday(),
    })
}

/// Today's local date as `(year, month, day)`. Trusted: chrono's
/// `Local::now().date_naive()`; it depends on the clock and the time
/// zone, so only the ranges are stated.
#[verifier::external_body]
pub(crate) fn local_today() -> (r: (i32, u32, u32))
    ensures
        1 <= r.1 <= 12,
        1 <= r.2 <= 31,
{
    let d = chrono::Local::now().date_naive();
    (d.year(), d.month(), d.day())
}

/// Milliseconds are converted to seconds.
pub open spec fn normalize_epoch_spec(epoch: i64) -> i64 {
    if epoch > MS_EPOCH_THRESHOLD {
        (epoch / 1000) as i64
    } else {
        epoch
    }
}

/// The epoch in seconds: values after 2100-01-01 are read as milliseconds.
pub fn normalize_epoch(epoch: i64) -> (r: i64)
    ensures
        r == normalize_epoch_spec(epoch),
{
    if epoch > MS_EPOCH_THRESHOLD {
        epoch / 1000
    } else {
        epoch
    }
}

/// A reset time given in milliseconds denotes the same second as the same
/// time given in seconds, for every time from 1970-02-17 on that the
/// seconds form can express (up to 2100-01-01).
pub proof fn law_milliseconds_normalize(secs: i64)
    requires
        MS_EPOCH_THRESHOLD / 1000 < secs <= MS_EPOCH_THRESHOLD,
    ensures
        normalize_epoch_spec((secs * 1000) as i64) == normalize_epoch_spec(secs),
        normalize_epoch_spec(secs) == secs,
{
}

/// Two decimal digits, zero padded (`%H`, `%M`).
pub open spec fn two_digits(n: u32) -> Seq<char> {
    seq![((48 + n / 10) as u8) as char, ((48 + n % 10) as u8) as char]
}

/// `HH:MM`.
pub open spec fn clock_label(hour: u32, minute: u32) -> Seq<char> {
    two_digits(hour) + seq![':'] + two_digits(minute)
}

/// The English abbreviation of a weekday counted from Monday (`%a`).
pub open spec fn weekday_label(d: u32) -> Seq<char> {
    if d == 0 {
        seq!['M', 'o', 'n']
    } else if d == 1 {
        seq!['T', 'u', 'e']
    } else if d == 2 {
        seq!['W', 'e', 'd']
    } else if d == 3 {
        seq!['T', 'h', 'u']
    } else if d == 4 {
        seq!['F', 'r', 'i']
    } else if d == 5 {
        seq!['S', 'a', 't']
    } else {
        seq!['S', 'u', 'n']
    }
}

/// The label of a reset at local time `t` seen on the local date `today`:
/// the clock time when it is today, the weekday otherwise.
pub open spec fn label_spec(t: LocalTime, today: (i32, u32, u32)) -> Seq<char> {
    if (t.year, t.month, t.day) == today {
        clock_label(t.hour, t.minute)
    } else {
        weekday_label(t.weekday)
    }
}

/// A reset that lands today shows its local clock time on the 24-hour
/// clock: five characters `HH:MM` whose two digit pairs read back as the
/// hour (0 to 23, taken as is) and the minute.
pub proof fn law_today_shows_the_clock_time(t: LocalTime, today: (i32, u32, u32))
    requires
        local_time_wf(t),
        (t.year, t.month, t.day) == today,
    ensures
        ({
            let l = label_spec(t, today);
            &&& l.len() == 5
            &&& l[2] == ':'
            &&& all_digits(l.take(2)) && digits_value(l.take(2)) == t.hour
            &&& all_digits(l.skip(3)) && digits_value(l.skip(3)) == t.minute
        }),
{
    let l = label_spec(t, today);
    lemma_two_digits_read_back(t.hour);
    lemma_two_digits_read_back(t.minute);
    assert(l.take(2) =~= two_digits(t.hour));
    assert(l.skip(3) =~= two_digits(t.minute));
}

proof fn lemma_two_digits_read_back(n: u32)
    requires
        n < 100,
    ensures
        two_digits(n).len() == 2,
        all_digits(two_digits(n)),
        digits_value(two_digits(n)) == n,
{
    let s = two_digits(n);
    let hi = n / 10;
    let lo = n % 10;
    assert(((48 + hi) as u8) as char as u32 == 48 + hi);
    assert(((48 + lo) as u8) as char as u32 == 48 + lo);
    assert(s.drop_last() =~= seq![s[0]]);
    assert(seq![s[0]].drop_last() =~= Seq::<char>::empty());
    assert(hi < 10 && lo < 10);
    assert(s[0] == ((48 + hi) as u8) as char);
    assert(s[0] as u32 == 48 + hi);
    assert(seq![s[0]].last() == s[0]);
    assert(digits_value(Seq::<char>::empty()) == 0);
    assert(digits_value(seq![s[0]]) == digits_value(Seq::<char>::empty()) * 10 + ((s[0] as u32)
        - 48) as nat);
    assert(digits_value(seq![s[0]]) == hi);
    assert(hi * 10 + lo == n);
}

/// A label as reset times are shown: a clock time or a weekday.
pub open spec fn is_reset_label(l: Seq<char>) -> bool {
    (exists|h: u32, m: u32| h < 24 && m < 60 && l == clock_label(h, m)) || (exists|d: u32|
        d < 7 && l == weekday_label(d))
}

fn push_two(s: &mut String, n: u32)
    requires
        n < 100,
    ensures
        final(s)@ == old(s)@ + two_digits(n),
{
    push_char(s, (48u8 + (n / 10) as u8) as char);
    push_char(s, (48u8 + (n % 10) as u8) as char);
}

/// The label for a reset at local time `t`, seen on the local date `today`.
pub fn label_for(t: &LocalTime, today: (i32, u32, u32)) -> (r: String)
    requires
        local_time_wf(*t),
    ensures
        r@ == label_spec(*t, today),
{
    let mut s = String::new();
    if t.year == today.0 && t.month == today.1 && t.day == today.2 {
        push_two(&mut s, t.hour);
        push_char(&mut s, ':');
        push_two(&mut s, t.minute);
        assert(s@ =~= clock_label(t.hour, t.minute));
    } else {
        let name = if t.weekday == 0 {
            "Mon"
        } else if t.weekday == 1 {
            "Tue"
        } else if t.weekday == 2 {
            "Wed"
        } else if t.weekday == 3 {
            "Thu"
        } else if t.weekday == 4 {
            "Fri"
        } else if t.weekday == 5 {
            "Sat"
        } else {
            "Sun"
        };
        proof {
            reveal_strlit("Mon");
            reveal_strlit("Tue");
            reveal_strlit("Wed");
            reveal_strlit("Thu");
            reveal_strlit("Fri");
            reveal_strlit("Sat");
            reveal_strlit("Sun");
        }
        push_str(&mut s, name);
        assert(s@ =~= weekday_label(t.weekday));
    }
    s
}

/// The label of a rate-limit reset at `epoch` (seconds, or milliseconds
/// after 2100): `HH:MM` when the reset lands today in local time, the
/// weekday abbreviation otherwise; `None` exactly when the time in
/// seconds lies outside what chrono represents. Which of the two labels
/// applies depends on the clock and the time zone; [`label_for`] states
/// the choice exactly.
pub fn reset_label(epoch: i64) -> (r: Option<String>)
    ensures
        r is Some <==> representable_secs(normalize_epoch_spec(epoch)),
        r matches Some(l) ==> is_reset_label(l@),
{
    let secs = normalize_epoch(epoch);
    let t = match local_time(secs) {
        Some(t) => t,
        None => return None,
    };
    let today = local_today();
    let l = label_for(&t, today);
    proof {
        if (t.year, t.month, t.day) == today {
            assert(t.hour < 24 && t.minute < 60 && l@ == clock_label(t.hour, t.minute));
        } else {
            assert(t.weekday < 7 && l@ == weekday_label(t.weekday));
        }
    }
    Some(l)
}

} // verus!
