//! Wall-clock time as 64-bit NTP timestamps: seconds since 1900 in the high 32
//! bits, fractions of a second in the low 32 bits.
use std::time::{SystemTime, UNIX_EPOCH};
use vstd::prelude::*;

verus! {

/// Seconds between the NTP epoch (1900-01-01) and the Unix epoch (1970-01-01).
pub const NTP_UNIX_OFFSET: u64 = 2_208_988_800;

/// The NTP timestamp of a Unix time. The seconds count modulo 2^32, the length
/// of an NTP era.
pub open spec fn ntp_of_unix(secs: u64, nanos: u32) -> u64 {
    (((secs + NTP_UNIX_OFFSET) % 0x1_0000_0000) * 0x1_0000_0000 + nanos * 0x1_0000_0000
        / 1_000_000_000) as u64
}

/// A reading of the wall clock: seconds and nanoseconds since the Unix epoch, or
/// `None` for a clock before the epoch.
pub open spec fn is_reading(d: Option<(u64, u32)>) -> bool {
    d matches Some(t) ==> t.1 < 1_000_000_000
}

/// The NTP timestamp of a reading. A clock before the Unix epoch counts as the
/// epoch.
pub open spec fn ntp_of_reading(d: Option<(u64, u32)>) -> u64 {
    match d {
        Some(t) => ntp_of_unix(t.0, t.1),
        None => ntp_of_unix(0, 0),
    }
}

/// `std::time::SystemTime`, carried from the reading of the clock to its
/// conversion.
#[verifier::external_type_specification]
#[verifier::external_body]
pub struct ExSystemTime(SystemTime);

/// `std::time::SystemTime::now`. Nothing can be promised of the time.
pub assume_specification[ SystemTime::now ]() -> SystemTime;

/// `std::time::SystemTime::duration_since` the Unix epoch, as whole seconds and
/// nanoseconds. Trusted: the nanoseconds are less than a second. `None` is a time
/// before the epoch. Which time comes back is left unsaid: a `SystemTime` shows
/// nothing that a contract could name.
#[verifier::external_body]
fn since_unix_epoch(t: SystemTime) -> (r: Option<(u64, u32)>)
    ensures
        is_reading(r),
{
    t.duration_since(UNIX_EPOCH).ok().map(|d| (d.as_secs(), d.subsec_nanos()))
}

/// The NTP timestamp of a Unix time.
pub fn ntp_from_unix(secs: u64, nanos: u32) -> (r: u64)
    requires
        nanos < 1_000_000_000,
    ensures
        r == ntp_of_unix(secs, nanos),
{
    let ntp_secs: u64 = secs.wrapping_add(NTP_UNIX_OFFSET);
    let frac: u64 = (nanos as u64) * 0x1_0000_0000 / 1_000_000_000;
    let in_era: u64 = ntp_secs % 0x1_0000_0000;
    in_era * 0x1_0000_0000 + frac
}

/// The NTP timestamp of a reading of the wall clock.
pub fn ntp_from_reading(d: Option<(u64, u32)>) -> (r: u64)
    requires
        is_reading(d),
    ensures
        r == ntp_of_reading(d),
{
    match d {
        Some(t) => ntp_from_unix(t.0, t.1),
        None => ntp_from_unix(0, 0),
    }
}

/// The NTP timestamp of the wall clock now. The time is only known when the clock
/// is read, so `ntp_from_reading` says what is returned for each reading.
pub fn wall_clock_ntp() -> (r: u64)
    ensures
        exists|d: Option<(u64, u32)>| is_reading(d) && r == #[trigger] ntp_of_reading(d),
{
    ntp_from_reading(since_unix_epoch(SystemTime::now()))
}

/// The fraction stays below a second: the high half of a timestamp is exactly
/// the second.
pub proof fn ntp_seconds(secs: u64, nanos: u32)
    requires
        nanos < 1_000_000_000,
    ensures
        ntp_of_unix(secs, nanos) / 0x1_0000_0000 == (secs + NTP_UNIX_OFFSET) % 0x1_0000_0000,
        ntp_of_unix(secs, nanos) % 0x1_0000_0000 == nanos * 0x1_0000_0000 / 1_000_000_000,
{
}

/// Within an era a later time has a greater timestamp, to the nanosecond.
pub proof fn ntp_orders_time(secs: u64, nanos: u32, later_secs: u64, later_nanos: u32)
    requires
        nanos < 1_000_000_000,
        later_nanos < 1_000_000_000,
        secs < later_secs || secs == later_secs && nanos < later_nanos,
        (secs + NTP_UNIX_OFFSET) / 0x1_0000_0000 == (later_secs + NTP_UNIX_OFFSET)
            / 0x1_0000_0000,
    ensures
        ntp_of_unix(secs, nanos) < ntp_of_unix(later_secs, later_nanos),
{
    ntp_seconds(secs, nanos);
    ntp_seconds(later_secs, later_nanos);
}

/// A clock at or before the Unix epoch has the timestamp of the epoch, and no
/// reading within the era has a smaller one.
pub proof fn epoch_is_the_least_reading(d: Option<(u64, u32)>)
    requires
        is_reading(d),
    ensures
        ntp_of_reading(None) == 0x83aa_7e80_0000_0000,
        ntp_of_reading(Some((0, 0))) == ntp_of_reading(None),
        d matches Some(t) ==> t.0 + NTP_UNIX_OFFSET < 0x1_0000_0000 ==> ntp_of_reading(d)
            >= ntp_of_reading(None),
{
    ntp_seconds(0, 0);
    if let Some(t) = d {
        ntp_seconds(t.0, t.1);
    }
}

/// The nanoseconds can be recovered: the timestamp is less than a nanosecond
/// below the time that it stands for.
pub proof fn ntp_keeps_nanoseconds(secs: u64, nanos: u32)
    requires
        nanos < 1_000_000_000,
    ensures
        ({
            let frac = ntp_of_unix(secs, nanos) % 0x1_0000_0000;
            (frac * 1_000_000_000 + 0xffff_ffff) / 0x1_0000_0000 == nanos
        }),
{
    ntp_seconds(secs, nanos);
}

/// Every reading is stamped with its own second and with the last fraction that is
/// not after its nanosecond. A clock before the epoch is stamped with second zero.
pub proof fn reading_is_stamped_with_its_time(d: Option<(u64, u32)>, secs: u64, nanos: u32)
    requires
        nanos < 1_000_000_000,
        d == Some((secs, nanos)) || d is None && secs == 0 && nanos == 0,
    ensures
        is_reading(d),
        ({
            let ntp = ntp_of_reading(d);
            let second = ntp as int / 0x1_0000_0000;
            let fraction = ntp as int % 0x1_0000_0000;
            &&& (secs + 2_208_988_800 - second) % 0x1_0000_0000 == 0
            &&& fraction * 1_000_000_000 <= nanos * 0x1_0000_0000 < (fraction + 1) * 1_000_000_000
        }),
{
    ntp_seconds(secs, nanos);
}

} // verus!
