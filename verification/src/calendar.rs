use vstd::prelude::*;

verus! {

/// The highest millisecond reading an identifier can carry: its timestamp
/// field is 48 bits wide.
pub open spec fn fits_timestamp_field(ms: u64) -> bool {
    ms < 0x1_0000_0000_0000
}

/// The proleptic Gregorian UTC date of a millisecond reading since
/// 1970-01-01T00:00:00Z, as `(year, month, day, weekday)` with month in
/// `1..=12`, day in `1..=31` and weekday counted `0..=6` from Monday.
/// A pure function of the reading alone.
pub uninterp spec fn civil_of(ms: u64) -> (int, int, int, int);

/// Relies on `chrono::DateTime::from_timestamp_millis` and the `Datelike`
/// accessors `year`, `month`, `day` and `weekday` (as days from Monday):
/// the UTC calendar date of a millisecond timestamp.  Every 48-bit reading
/// is within chrono's supported range.
#[verifier::external_body]
pub(crate) fn civil_from_millis(ms: u64) -> (r: (i32, u8, u8, u8))
    requires
        fits_timestamp_field(ms),
    ensures
        r.0 as int == civil_of(ms).0,
        r.1 as int == civil_of(ms).1,
        r.2 as int == civil_of(ms).2,
        r.3 as int == civil_of(ms).3,
        1 <= r.1 <= 12,
        1 <= r.2 <= 31,
        r.3 <= 6,
{
    let dt = chrono::DateTime::from_timestamp_millis(ms as i64).unwrap();
    (
        chrono::Datelike::year(&dt),
        chrono::Datelike::month(&dt) as u8,
        chrono::Datelike::day(&dt) as u8,
        chrono::Datelike::weekday(&dt).num_days_from_monday() as u8,
    )
}

/// Relies on `chrono::Utc::now` and `timestamp_millis`: the wall-clock
/// instant of the call as milliseconds since 1970-01-01T00:00:00Z.  The
/// value depends on when the call happens, so nothing is promised of it.
#[verifier::external_body]
pub(crate) fn utc_now_millis() -> i64 {
    chrono::Utc::now().timestamp_millis()
}

} // verus!
