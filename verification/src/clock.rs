//! The wall clock.
use crate::output::Error;
use vstd::prelude::*;
use vstd::string::*;

verus! {

/// The whole seconds since the start of 1970 on the machine's clock, by
/// `std::time::SystemTime::now`; where the clock stands before that, the standard library's
/// words for it. Nothing is claimed of either.
#[verifier::external_body]
pub(crate) fn wall_clock() -> Result<u64, String> {
    match std::time::SystemTime::now().duration_since(std::time::UNIX_EPOCH) {
        Ok(elapsed) => Ok(elapsed.as_secs()),
        Err(e) => Err(e.to_string()),
    }
}

/// The whole seconds since the start of 1970, or zero where the clock stands before that.
pub(crate) fn unix_seconds() -> u64 {
    seconds_or_zero(&wall_clock())
}

/// The whole seconds since the start of 1970; an error where the clock stands before that.
pub(crate) fn unix_now() -> (r: Result<u64, Error>)
    ensures
        r is Err ==> "system clock is before the unix epoch: "@.is_prefix_of(r->Err_0.message@),
{
    seconds_or_error(&wall_clock())
}

/// What the clock says, or zero where it stands before the start of 1970. `reading` is what was
/// read from it: the seconds, or the words for why there are none.
pub fn seconds_or_zero(reading: &Result<u64, String>) -> (r: u64)
    ensures
        r == match *reading {
            Ok(secs) => secs,
            Err(_) => 0,
        },
{
    match reading {
        Ok(secs) => *secs,
        Err(_) => 0,
    }
}

/// What the clock says as a signed number, or zero where it stands before the start of 1970.
/// `reading` is what was read from it: the seconds, or the words for why there are none.
pub fn unix_time(reading: &Result<u64, String>) -> (r: i64)
    ensures
        r == match *reading {
            Ok(n) => n as i64,
            Err(_) => 0,
        },
{
    #[verifier::truncate]
    (seconds_or_zero(reading) as i64)
}

/// What the clock says, or an error where it stands before the start of 1970. `reading` is what
/// was read from it: the seconds, or the words for why there are none.
pub fn seconds_or_error(reading: &Result<u64, String>) -> (r: Result<u64, Error>)
    ensures
        match (*reading, r) {
            (Ok(secs), Ok(now)) => now == secs,
            (Err(words), Err(e)) => e.message@ == "system clock is before the unix epoch: "@ + words@,
            _ => false,
        },
{
    match reading {
        Ok(secs) => Ok(*secs),
        Err(words) => {
            let mut message = "system clock is before the unix epoch: ".to_owned();
            message.append(words.as_str());
            Err(Error { message })
        },
    }
}

} // verus!
