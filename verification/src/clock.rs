//! The system's clock.
use vstd::prelude::*;

verus! {

/// `SystemTime::now` against the epoch, by `SystemTime::duration_since`: the whole seconds and the
/// nanoseconds beyond them, none where the clock stands before the epoch. Only that the nanoseconds
/// make no further second is promised.
#[verifier::external_body]
pub(crate) fn since_epoch() -> (r: Option<(u64, u32)>)
    ensures
        r is Some ==> r->Some_0.1 < 1_000_000_000,
{
    let elapsed = std::time::SystemTime::now().duration_since(std::time::UNIX_EPOCH);
    elapsed.ok().map(|d| (d.as_secs(), d.subsec_nanos()))
}

/// A time since the epoch in whole milliseconds: zero for one before it, and no more than fit.
pub fn whole_millis(since: Option<(u64, u32)>) -> (r: u64)
    ensures
        r == match since {
            None => 0int,
            Some((secs, nanos)) => {
                let millis = secs * 1000 + nanos as int / 1_000_000;
                if millis <= u64::MAX {
                    millis
                } else {
                    u64::MAX as int
                }
            },
        },
{
    match since {
        None => 0,
        Some((secs, nanos)) => {
            let millis: u128 = secs as u128 * 1000 + (nanos / 1_000_000) as u128;
            if millis <= 0xffff_ffff_ffff_ffff {
                millis as u64
            } else {
                u64::MAX
            }
        },
    }
}

/// A time since the epoch in whole seconds: zero for one before it.
pub fn whole_seconds(since: Option<(u64, u32)>) -> (r: u64)
    ensures
        r == match since {
            None => 0,
            Some((secs, _)) => secs,
        },
{
    match since {
        None => 0,
        Some((secs, _)) => secs,
    }
}

} // verus!
