//! Dates and times: a date is milliseconds since the Unix epoch, as a double, and
//! a time is whole seconds since then with nanoseconds.
use crate::doubles::{
    double_is, exact_double, law_double_is_one_integer, magnitude_of, whole_double, EXACT,
};
use crate::value::{JsVal, Val};
use vstd::prelude::*;

verus! {

/// The milliseconds of a time, where they are whole.
pub open spec fn millis_of(seconds: int, nanoseconds: int) -> Option<int> {
    if nanoseconds % 1_000_000 == 0 {
        Some(1000 * seconds + nanoseconds / 1_000_000)
    } else {
        None
    }
}

/// Whether a time is a date for sure: its milliseconds are whole, and not too many to
/// be a double.
pub open spec fn has_date(seconds: int, nanoseconds: int) -> bool {
    millis_of(seconds, nanoseconds) matches Some(ms) && magnitude_of(ms) < EXACT
}

/// Whether a date is a time for sure.
pub open spec fn has_time(bits: u64) -> bool {
    exists|ms: int| magnitude_of(ms) < EXACT && #[trigger] double_is(bits, ms)
}

/// Every time of whole milliseconds that JavaScript has a date for is a date, and
/// every such date is a time: a hundred million days before and after the epoch.
pub proof fn law_every_date_is_a_time(seconds: int, nanoseconds: int, bits: u64, ms: int)
    requires
        0 <= nanoseconds,
        -8_640_000_000_000_000 <= ms <= 8_640_000_000_000_000,
    ensures
        1_000_000 * ms == 1_000_000_000 * seconds + nanoseconds ==> has_date(seconds, nanoseconds),
        double_is(bits, ms) ==> has_time(bits),
        nanoseconds % 1_000_000 != 0 ==> !has_date(seconds, nanoseconds),
        has_date(seconds, nanoseconds) ==> millis_of(seconds, nanoseconds)->0 < 9007199254740992
            && millis_of(seconds, nanoseconds)->0 > -9007199254740992,
{
    law_milliseconds_are_the_time(seconds, nanoseconds, ms);
}

/// A time as a date. `None` where its milliseconds are not whole, or too many to
/// be a double for sure.
pub fn time_to_jsval(seconds: i64, nanoseconds: u32) -> (r: Option<JsVal>)
    ensures
        r is Some <==> has_date(seconds as int, nanoseconds as int),
        r matches Some(v) ==> (v@ matches Val::Date(bits) && double_is(
            bits,
            millis_of(seconds as int, nanoseconds as int)->0,
        )),
{
    if nanoseconds % 1_000_000 != 0 {
        return None;
    }
    let ms: i128 = 1000 * seconds as i128 + (nanoseconds / 1_000_000) as i128;
    if -(EXACT as i128) < ms && ms < EXACT as i128 {
        Some(JsVal::Date(exact_double(ms as i64)))
    } else {
        None
    }
}

/// A date as a time: seconds and nanoseconds, the latter of one second at most.
/// `None` where its milliseconds are not whole, or so many that it is no date of
/// JavaScript.
pub fn time_of_date(bits: u64) -> (r: Option<(i64, u32)>)
    ensures
        r is Some <==> has_time(bits),
        match r {
            Some((seconds, nanoseconds)) => {
                &&& nanoseconds < 1_000_000_000
                &&& millis_of(seconds as int, nanoseconds as int) matches Some(ms)
                &&& magnitude_of(ms) < EXACT
                &&& double_is(bits, ms)
            },
            None => forall|ms: int| magnitude_of(ms) < EXACT ==> !#[trigger] double_is(bits, ms),
        },
{
    match whole_double(bits) {
        None => None,
        Some(ms) => {
            if ms >= 0 {
                let m: u64 = ms as u64;
                Some(((m / 1000) as i64, (m % 1000) as u32 * 1_000_000))
            } else {
                let m: u64 = (-ms) as u64;
                let whole: u64 = m / 1000;
                let part: u64 = m % 1000;
                if part == 0 {
                    Some((-(whole as i64), 0))
                } else {
                    Some((-(whole as i64) - 1, (1000 - part) as u32 * 1_000_000))
                }
            }
        },
    }
}

/// A date that crosses into Ruby and back is the same date, to the millisecond:
/// `a` is its time, and `b` the date that is made of that time.
pub proof fn law_date_comes_back(date: u64, a: (i64, u32), b: u64, ms: int)
    requires
        double_is(date, ms),
        millis_of(a.0 as int, a.1 as int) matches Some(n) && double_is(date, n) && double_is(b, n),
    ensures
        millis_of(a.0 as int, a.1 as int) == Some(ms),
        double_is(b, ms),
{
    law_double_is_one_integer(date, ms, millis_of(a.0 as int, a.1 as int)->0);
}

/// A time of whole milliseconds that crosses into JavaScript and back is the same
/// time: `b` is what is made of the date that `a` crossed as.
pub proof fn law_time_comes_back(a: (i64, u32), date: u64, b: (i64, u32))
    requires
        a.1 < 1_000_000_000,
        b.1 < 1_000_000_000,
        millis_of(a.0 as int, a.1 as int) matches Some(n) && double_is(date, n),
        millis_of(b.0 as int, b.1 as int) matches Some(m) && double_is(date, m),
    ensures
        a == b,
{
    law_double_is_one_integer(
        date,
        millis_of(a.0 as int, a.1 as int)->0,
        millis_of(b.0 as int, b.1 as int)->0,
    );
}

/// The milliseconds of a time are those that it lasts: a million nanoseconds each,
/// and a thousand to the second. They are whole exactly where nothing is left over.
pub proof fn law_milliseconds_are_the_time(seconds: int, nanoseconds: int, ms: int)
    requires
        0 <= nanoseconds,
    ensures
        millis_of(seconds, nanoseconds) == Some(ms) <==> 1_000_000 * ms == 1_000_000_000 * seconds
            + nanoseconds,
{
    if millis_of(seconds, nanoseconds) == Some(ms) {
        assert(nanoseconds == 1_000_000 * (nanoseconds / 1_000_000));
    }
    if 1_000_000 * ms == 1_000_000_000 * seconds + nanoseconds {
        assert(nanoseconds == 1_000_000 * (ms - 1000 * seconds));
        assert(nanoseconds % 1_000_000 == 0);
        assert(nanoseconds / 1_000_000 == ms - 1000 * seconds);
    }
}

} // verus!
