//! The extreme slow / fast calculator: stacked zombies of one type in a lane.
use vstd::prelude::*;

verus! {

/// Slowest (least advanced) or fastest (most advanced) realization.
#[derive(Clone, Copy, PartialEq, Eq, Structural, Debug)]
pub enum Speed {
    Slow,
    Fast,
}

/// The zombie type stacked in the lane.
#[derive(Clone, Copy, PartialEq, Eq, Structural, Debug)]
pub enum ExtremeType {
    Garg,
    Ladder,
    Jack,
}

pub open spec fn extreme_col(t: ExtremeType) -> Seq<char> {
    match t {
        ExtremeType::Garg => "gargantuar"@,
        ExtremeType::Ladder => "ladder"@,
        ExtremeType::Jack => "jack"@,
    }
}

pub open spec fn extreme_name(t: ExtremeType) -> Seq<char> {
    match t {
        ExtremeType::Garg => "garg"@,
        ExtremeType::Ladder => "ladder"@,
        ExtremeType::Jack => "jack"@,
    }
}

impl ExtremeType {
    /// The type's column in the position tables.
    pub fn col(self) -> (r: &'static str)
        ensures
            r@ == extreme_col(self),
    {
        match self {
            ExtremeType::Garg => "gargantuar",
            ExtremeType::Ladder => "ladder",
            ExtremeType::Jack => "jack",
        }
    }

    /// The type's name in the result line.
    pub fn name(self) -> (r: &'static str)
        ensures
            r@ == extreme_name(self),
    {
        match self {
            ExtremeType::Garg => "garg",
            ExtremeType::Ladder => "ladder",
            ExtremeType::Jack => "jack",
        }
    }
}

/// Why the walk times are refused.
#[derive(Clone, Copy, PartialEq, Eq, Structural, Debug)]
pub enum WalkError {
    /// No walk time given.
    NeedWalk,
    /// A walk time is negative.
    BadTime,
}

/// The walk times must be given and none may be negative.
pub fn check_walk(walk: &[i32]) -> (r: Result<(), WalkError>)
    ensures
        walk@.len() == 0 ==> r == Err::<(), WalkError>(WalkError::NeedWalk),
        walk@.len() > 0 ==> (r == Err::<(), WalkError>(WalkError::BadTime) <==> exists|i: int|
            0 <= i < walk@.len() && walk@[i] < 0),
        walk@.len() > 0 ==> (r is Ok <==> forall|i: int| 0 <= i < walk@.len() ==> walk@[i] >= 0),
{
    if walk.len() == 0 {
        return Err(WalkError::NeedWalk);
    }
    let mut i: usize = 0;
    while i < walk.len()
        invariant
            i <= walk@.len(),
            forall|j: int| 0 <= j < i ==> walk@[j] >= 0,
        decreases walk@.len() - i,
    {
        if walk[i] < 0 {
            return Err(WalkError::BadTime);
        }
        i = i + 1;
    }
    Ok(())
}

/// The speed's name in the result line.
pub fn speed_name(s: Speed) -> (r: &'static str)
    ensures
        r@ == (match s {
            Speed::Slow => "slow"@,
            Speed::Fast => "fast"@,
        }),
{
    match s {
        Speed::Slow => "slow",
        Speed::Fast => "fast",
    }
}

} // verus!
