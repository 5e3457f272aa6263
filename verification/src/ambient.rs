//! What the control plane takes from its surroundings: the time, and fresh
//! identifiers.
use vstd::prelude::*;

verus! {

/// Nanoseconds since the Unix epoch of the first instant of the calendar.
pub const FIRST_INSTANT: i128 = -377_705_116_800_000_000_000;

/// Nanoseconds since the Unix epoch of the first instant past the calendar.
pub const CALENDAR_END: i128 = 253_402_300_800_000_000_000;

/// `t` is an instant of the calendar, from year -9999 to year 9999.
pub open spec fn in_calendar(t: int) -> bool {
    FIRST_INSTANT <= t < CALENDAR_END
}

/// `id` carries the marks of a random UUID: version 4, variant 1.
pub open spec fn is_random_uuid(id: u128) -> bool {
    (id >> 76u128) & 0xfu128 == 4u128 && (id >> 62u128) & 3u128 == 2u128
}

/// The present instant, in nanoseconds since the Unix epoch.
///
/// Calls `time::OffsetDateTime::now_utc` and its `unix_timestamp_nanos`. Claimed:
/// the instant lies in the calendar that the crate represents. Which instant it
/// is depends on the clock and is left open.
#[verifier::external_body]
pub(crate) fn now() -> (r: i128)
    ensures
        in_calendar(r as int),
{
    time::OffsetDateTime::now_utc().unix_timestamp_nanos()
}

/// A fresh identifier.
///
/// Calls `uuid::Uuid::new_v4`. Claimed: the version and variant bits, which that
/// function sets in every identifier. The other bits are random and left open.
#[verifier::external_body]
pub(crate) fn fresh_id() -> (r: u128)
    ensures
        is_random_uuid(r),
{
    uuid::Uuid::new_v4().as_u128()
}

/// The hexadecimal digit `d`, in lower case.
pub open spec fn hex_digit(d: int) -> char {
    if d < 10 {
        crate::text::digit_char(d)
    } else if d == 10 {
        'a'
    } else if d == 11 {
        'b'
    } else if d == 12 {
        'c'
    } else if d == 13 {
        'd'
    } else if d == 14 {
        'e'
    } else {
        'f'
    }
}

/// The `k`-th hexadecimal digit of a 128-bit number, the most significant first.
pub open spec fn nibble(id: u128, k: int) -> int {
    (id as int / vstd::arithmetic::power::pow(16, (31 - k) as nat)) % 16
}

/// An identifier in its hyphenated form: 32 hexadecimal digits in groups of 8,
/// 4, 4, 4 and 12.
pub open spec fn uuid_chars(id: u128) -> Seq<char> {
    Seq::new(
        36,
        |i: int|
            if i == 8 || i == 13 || i == 18 || i == 23 {
                '-'
            } else {
                hex_digit(
                    nibble(
                        id,
                        i - (if i > 23 {
                            4int
                        } else if i > 18 {
                            3
                        } else if i > 13 {
                            2
                        } else if i > 8 {
                            1
                        } else {
                            0
                        }),
                    ),
                )
            },
    )
}

/// An identifier as it is printed.
///
/// Calls `uuid::Uuid::to_string`, on the UUID with this 128-bit value. Claimed:
/// the result is the lower-case hyphenated form, most significant digit first.
#[verifier::external_body]
pub(crate) fn uuid_text(id: u128) -> (r: String)
    ensures
        r@ == uuid_chars(id),
{
    uuid::Uuid::from_u128(id).to_string()
}

} // verus!
