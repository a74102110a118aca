//! The landing and timing calculators: their argument kinds, and the integer
//! parts of their arithmetic (which rows an explosion reaches, which position
//! column a variant uses on a wave, the effective times). The position tables
//! they read hold fractional coordinates and stay with the program.
use vstd::prelude::*;
use crate::tables::{FlagMode, FlagModeV, Variant, VariantV};

pub mod extreme;
pub mod ipp;
pub mod time;

verus! {

#[derive(Clone, Copy, PartialEq, Eq, Structural, Debug)]
pub enum Wave {
    Normal,
    Flag,
}

#[derive(Clone, Copy, PartialEq, Eq, Structural, Debug)]
pub enum ExplodeKind {
    Cob,
    Doom,
}

#[derive(Clone, Copy, PartialEq, Eq, Structural, Debug)]
pub enum SceneArg {
    /// Front yard (5 rows).
    De,
    /// Backyard with pool (6 rows).
    Pe,
    /// Roof (5 rows).
    Re,
}

#[derive(Clone, Copy, PartialEq, Eq, Structural, Debug)]
pub enum Equiv {
    /// Cob-equivalent time (0 ice is perfect predictive ice).
    Cob,
    /// Card-equivalent time (1 ice is perfect predictive ice).
    Card,
}

/// The position column, the x offset and the earliest valid centisecond of a
/// variant on a wave; `None` where the variant does not appear on it.
pub open spec fn lookup_value(v: VariantV, wave: Wave) -> Option<(Seq<char>, i32, Option<i32>)> {
    match wave {
        Wave::Normal => match v.min_cs_normal {
            None => None,
            Some(_) => Some((v.pos_col, 0i32, v.min_cs_normal)),
        },
        Wave::Flag => match v.min_cs_flag {
            None => None,
            Some(_) => match v.flag {
                FlagModeV::Offset(o) => Some((v.pos_col, o, v.min_cs_flag)),
                FlagModeV::Column(c) => Some((c, 0i32, v.min_cs_flag)),
                FlagModeV::FlagOnly => Some((v.pos_col, 0i32, v.min_cs_flag)),
            },
        },
    }
}

pub fn wave_lookup(v: &Variant, wave: Wave) -> (r: Option<(String, i32, Option<i32>)>)
    ensures
        match (r, lookup_value(v@, wave)) {
            (Some(a), Some(b)) => a.0@ == b.0 && a.1 == b.1 && a.2 == b.2,
            (None, None) => true,
            _ => false,
        },
{
    let copy = |s: &str| -> (t: String)
        ensures
            t@ == s@,
        { crate::text::string_of(crate::text::chars_of(s).as_slice()) };
    match wave {
        Wave::Normal => {
            if v.min_cs_normal.is_none() {
                return None;
            }
            Some((copy(v.pos_col.as_str()), 0, v.min_cs_normal))
        },
        Wave::Flag => {
            if v.min_cs_flag.is_none() {
                return None;
            }
            match v.flag {
                FlagMode::Offset(o) => Some((copy(v.pos_col.as_str()), o, v.min_cs_flag)),
                FlagMode::Column(c) => Some((copy(c), 0, v.min_cs_flag)),
                FlagMode::FlagOnly => Some((copy(v.pos_col.as_str()), 0, v.min_cs_flag)),
            }
        },
    }
}

} // verus!
