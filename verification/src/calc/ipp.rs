//! The hot-transition calculator: the integer timing behind its virtual
//! landing point.
use vstd::prelude::*;

verus! {

/// Why the arguments are refused.
#[derive(Clone, Copy, PartialEq, Eq, Structural, Debug)]
pub enum IppError {
    /// The transition time is negative.
    BadTime,
    /// The accelerated-wave length is negative.
    WaveLenNegative,
}

pub fn check_args(transition: i32, wave_len: Option<i32>) -> (r: Result<(), IppError>)
    ensures
        transition < 0 ==> r == Err::<(), IppError>(IppError::BadTime),
        transition >= 0 && (wave_len matches Some(w) && w < 0) ==> r == Err::<(), IppError>(
            IppError::WaveLenNegative,
        ),
        transition >= 0 && !(wave_len matches Some(w) && w < 0) ==> r is Ok,
{
    if transition < 0 {
        return Err(IppError::BadTime);
    }
    match wave_len {
        Some(w) if w < 0 => Err(IppError::WaveLenNegative),
        _ => Ok(()),
    }
}

/// The gargantuar's effective natural-speed time at the transition, in card
/// equivalence (1 ice is perfect predictive ice): frozen for 399 cs after the
/// ice, then slowed (counting half) for up to 1600 cs, then at full speed.
/// Without ice (`ice < 1`) it is simply `wave_len + transition`.
pub open spec fn effective_time(transition: int, wave_len: int, ice: int) -> int {
    let r3 = wave_len + ice - 1;
    let r4 = wave_len + transition;
    let r5 = r4 - r3;
    let r6 = if r5 - 399 > 0 {
        r5 - 399
    } else {
        0
    };
    let r7 = if r6 < 1600 {
        r6
    } else {
        1600
    };
    let r8 = r6 - r7;
    if ice - 1 >= 0 {
        r3 + r7 / 2 + r8
    } else {
        r4
    }
}

pub fn effective_cs(transition: i32, wave_len: i32, ice: i32) -> (r: i64)
    requires
        transition >= 0,
        wave_len >= 0,
    ensures
        r == effective_time(transition as int, wave_len as int, ice as int),
{
    let r3 = wave_len as i64 + ice as i64 - 1;
    let r4 = wave_len as i64 + transition as i64;
    let r5 = r4 - r3;
    let r6 = if r5 - 399 > 0 {
        r5 - 399
    } else {
        0
    };
    let r7 = if r6 < 1600 {
        r6
    } else {
        1600
    };
    let r8 = r6 - r7;
    if ice as i64 - 1 >= 0 {
        r3 + r7 / 2 + r8
    } else {
        r4
    }
}


/// With ice (`ice >= 1`), the gargantuar's effective time counts, from the
/// ice moment `wave_len + ice - 1`, nothing of the first 399 cs after the
/// ice (frozen), half of the next 1600 cs (slowed), and all of the rest; so
/// it never runs ahead of the plain time `wave_len + transition` once the
/// ice has come. Without ice it is the plain time.
pub proof fn lemma_effective_time_phases(transition: int, wave_len: int, ice: int)
    ensures
        ({
            let since = transition - (ice - 1);
            let iced = wave_len + ice - 1;
            &&& ice >= 1 && since <= 399 ==> effective_time(transition, wave_len, ice) == iced
            &&& ice >= 1 && 399 < since <= 1999 ==> effective_time(transition, wave_len, ice) == iced
                + (since - 399) / 2
            &&& ice >= 1 && since > 1999 ==> effective_time(transition, wave_len, ice) == iced + 800
                + (since - 1999)
            &&& ice >= 1 && since >= 0 ==> effective_time(transition, wave_len, ice) <= wave_len
                + transition
            &&& ice < 1 ==> effective_time(transition, wave_len, ice) == wave_len + transition
        }),
{
}

} // verus!
