//! Wave lines: `w[N] [ice...] [start~]length`.
use vstd::prelude::*;
use crate::seml::error::{err, mk_err, ErrKind, SemlError, SemlErrorV};
use crate::seml::parser::fields::{parse_wave_range, wave_range_value};
use crate::seml::string::{chop_prefix_chars, chopped_prefix, natural_value, parse_natural_chars};
use crate::seml::types::{Wave, WaveV};
use crate::text::{split, split_chars, views};

verus! {

/// The ice times `toks[i..end]`, each a natural number of at least `min`.
pub open spec fn ice_times_from(
    toks: Seq<Seq<char>>,
    i: int,
    end: int,
    acc: Seq<i32>,
    avz: bool,
    ln: usize,
) -> Result<Seq<i32>, SemlErrorV>
    decreases end - i,
{
    if i >= end {
        Ok(acc)
    } else {
        match natural_value(toks[i]) {
            Some(v) if v >= (if avz { 1i32 } else { 0i32 }) => ice_times_from(
                toks,
                i + 1,
                end,
                acc.push(v),
                avz,
                ln,
            ),
            _ => Err(
                mk_err(
                    ln,
                    if avz {
                        ErrKind::AvzTimeIcePositive
                    } else {
                        ErrKind::IceNonneg
                    },
                    toks[i],
                ),
            ),
        }
    }
}

/// The number a wave token asks for: `w` alone is the next wave, `wN` is `N`
/// (1 to 99).
pub open spec fn wave_number(token: Seq<char>, prev: int) -> Option<int> {
    if token == seq!['w'] {
        Some(prev + 1)
    } else {
        match natural_value(chopped_prefix(token, seq!['w'])) {
            Some(n) if 1 <= n <= 99 => Some(n as int),
            _ => None,
        }
    }
}

/// A wave line read after `nwaves` waves: the new wave, with no actions yet.
pub open spec fn wave_value(nwaves: usize, avz: bool, ln: usize, line: Seq<char>) -> Result<
    WaveV,
    SemlErrorV,
> {
    let toks = split(line, ' ');
    if toks.len() < 2 {
        Err(mk_err(ln, ErrKind::NeedWaveLength, line))
    } else {
        let wt = toks[0];
        match wave_number(wt, nwaves as int) {
            None => Err(mk_err(ln, ErrKind::WaveNumPositiveInt, wt)),
            Some(n) => if n - 1 < nwaves {
                Err(mk_err(ln, ErrKind::DupWaveNum, wt))
            } else if nwaves + 1 != n {
                Err(mk_err(ln, ErrKind::NeedSetWaveN { prev: nwaves }, wt))
            } else {
                match ice_times_from(toks, 1, toks.len() - 1, Seq::empty(), avz, ln) {
                    Err(e) => Err(e),
                    Ok(ice) => match wave_range_value(ln, toks.last()) {
                        Err(e) => Err(e),
                        Ok((start, len)) => if ice.len() > 0 && len < ice.last() {
                            Err(mk_err(ln, ErrKind::WaveLenGeLastIce, line))
                        } else {
                            Ok(
                                WaveV {
                                    ice_times: ice,
                                    wave_length: len,
                                    start_tick: start,
                                    actions: Seq::empty(),
                                },
                            )
                        },
                    },
                }
            },
        }
    }
}

fn is_bare_w(t: &[char]) -> (r: bool)
    ensures
        r == (t@ == seq!['w']),
{
    if t.len() == 1 && t[0] == 'w' {
        assert(t@ =~= seq!['w']);
        true
    } else {
        false
    }
}

/// Reads a wave line; `nwaves` waves precede it.
pub fn parse_wave(nwaves: usize, avz: bool, ln: usize, line: &[char]) -> (r: Result<
    Wave,
    SemlError,
>)
    ensures
        match (r, wave_value(nwaves, avz, ln, line@)) {
            (Ok(a), Ok(b)) => a@ == b,
            (Err(e), Err(f)) => e@ == f,
            _ => false,
        },
{
    let toks = split_chars(line, ' ');
    if toks.len() < 2 {
        return Err(err(ln, ErrKind::NeedWaveLength, line));
    }
    let ghost st = split(line@, ' ');
    let wt = &toks[0];
    assert(wt@ == st[0]);
    if !is_bare_w(wt.as_slice()) {
        let w: [char; 1] = ['w'];
        assert(w@ =~= seq!['w']);
        let chopped = chop_prefix_chars(wt.as_slice(), w.as_slice());
        match parse_natural_chars(chopped.as_slice()) {
            Some(n) if 1 <= n && n <= 99 => {
                let k = (n - 1) as usize;
                if k < nwaves {
                    return Err(err(ln, ErrKind::DupWaveNum, wt.as_slice()));
                }
                if k != nwaves {
                    return Err(err(ln, ErrKind::NeedSetWaveN { prev: nwaves }, wt.as_slice()));
                }
            },
            _ => {
                return Err(err(ln, ErrKind::WaveNumPositiveInt, wt.as_slice()));
            },
        }
    }
    assert(wave_number(st[0], nwaves as int) == Some(nwaves + 1));
    let end = toks.len() - 1;
    let mut ice: Vec<i32> = Vec::new();
    let mut i: usize = 1;
    while i < end
        invariant
            1 <= i <= end,
            end == toks@.len() - 1,
            views(toks@) == st,
            st == split(line@, ' '),
            st.len() >= 2,
            wave_number(st[0], nwaves as int) == Some(nwaves + 1),
            ice_times_from(st, 1, end as int, Seq::empty(), avz, ln) == ice_times_from(
                st,
                i as int,
                end as int,
                ice@,
                avz,
                ln,
            ),
        decreases end - i,
    {
        let t = &toks[i];
        assert(t@ == st[i as int]);
        let min: i32 = if avz {
            1
        } else {
            0
        };
        match parse_natural_chars(t.as_slice()) {
            Some(v) if v >= min => {
                ice.push(v);
            },
            _ => {
                let kind = if avz {
                    ErrKind::AvzTimeIcePositive
                } else {
                    ErrKind::IceNonneg
                };
                return Err(err(ln, kind, t.as_slice()));
            },
        }
        i = i + 1;
    }
    let last = &toks[end];
    assert(last@ == st.last());
    let (start, len) = match parse_wave_range(ln, last.as_slice()) {
        Err(e) => {
            return Err(e);
        },
        Ok(p) => p,
    };
    if ice.len() > 0 && len < ice[ice.len() - 1] {
        return Err(err(ln, ErrKind::WaveLenGeLastIce, line));
    }
    let w = Wave { ice_times: ice, wave_length: len, start_tick: start, actions: Vec::new() };
    assert(w@.actions =~= Seq::<crate::seml::types::ActionV>::empty());
    Ok(w)
}

} // verus!
