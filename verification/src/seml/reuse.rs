//! The cob-cannon reuse scheduler.
//!
//! Every cob shot of a document is placed on one absolute timeline (a wave
//! starts where the previous one ends). With `ncobs` cannons used first in,
//! first out, the shot at position `i` of that timeline fires the cannon that
//! shot `i - ncobs` fired last; the gap between the two is the recharge
//! interval, which must be at least 3475 cs. Under `loop:` the document's waves
//! repeat without end.
use vstd::prelude::*;
use crate::seml::error::{SemlError, SemlErrorV};
use crate::seml::parser::document::{parse, parse_value, ParsedV};
use crate::seml::types::{waves_view, Action, ActionV, Wave, WaveV};
use crate::text::{int_text, push_int_text, push_str, string_of};

verus! {

/// Recharge time of a cob cannon, in cs.
pub const RECHARGE: i128 = 3475;

/// One cannon shot on the absolute timeline: its wave (counted from 1), its
/// time within the wave, and its absolute time.
#[derive(Clone, Copy)]
pub struct Shot {
    pub wave: i128,
    pub tw: i32,
    pub abs: i128,
}

pub struct ShotV {
    pub wave: int,
    pub tw: int,
    pub abs: int,
}

impl View for Shot {
    type V = ShotV;

    open spec fn view(&self) -> ShotV {
        ShotV { wave: self.wave as int, tw: self.tw as int, abs: self.abs as int }
    }
}

/// A shot of a document with `n` waves: its wave is one of them and its
/// absolute time lies within `n + 1` times the largest `i32`.
pub open spec fn shot_bounded(s: ShotV, n: int) -> bool {
    &&& 1 <= s.wave <= n
    &&& -(n + 1) * 0x8000_0000 <= s.abs <= (n + 1) * 0x8000_0000
}

pub open spec fn all_bounded(v: Seq<Shot>, n: int) -> bool {
    forall|k: int| 0 <= k < v.len() ==> shot_bounded(#[trigger] v[k]@, n)
}

pub open spec fn shots_view(v: Seq<Shot>) -> Seq<ShotV> {
    Seq::new(v.len(), |i: int| v[i]@)
}

/// Start time of wave `n` (counted from 0): the lengths of the waves before it.
pub open spec fn wave_offset(waves: Seq<WaveV>, n: int) -> int
    decreases n,
{
    if n <= 0 || n > waves.len() {
        0
    } else {
        wave_offset(waves, n - 1) + waves[n - 1].wave_length
    }
}

/// The shots of one action: a cob fires one shot per landing position.
pub open spec fn cob_shots(a: ActionV, wave: int, offset: int) -> Seq<ShotV> {
    match a {
        ActionV::Cob { time, positions, .. } => Seq::new(
            positions.len(),
            |_i: int| ShotV { wave, tw: time as int, abs: offset + time },
        ),
        _ => Seq::empty(),
    }
}

/// The shots of the first `m` actions of a wave.
pub open spec fn action_shots(acts: Seq<ActionV>, m: int, wave: int, offset: int) -> Seq<ShotV>
    decreases m,
{
    if m <= 0 || m > acts.len() {
        Seq::empty()
    } else {
        action_shots(acts, m - 1, wave, offset) + cob_shots(acts[m - 1], wave, offset)
    }
}

/// The shots of the first `n` waves, in the order they are written.
pub open spec fn wave_shots(waves: Seq<WaveV>, n: int) -> Seq<ShotV>
    decreases n,
{
    if n <= 0 || n > waves.len() {
        Seq::empty()
    } else {
        wave_shots(waves, n - 1) + action_shots(
            waves[n - 1].actions,
            waves[n - 1].actions.len() as int,
            n,
            wave_offset(waves, n - 1),
        )
    }
}

/// Where a shot at absolute time `t` goes in `s`: after every shot that is
/// not later, counted from the end.
pub open spec fn shot_pos(s: Seq<ShotV>, t: int) -> int
    decreases s.len(),
{
    if s.len() == 0 {
        0
    } else if s.last().abs > t {
        shot_pos(s.drop_last(), t)
    } else {
        s.len() as int
    }
}

/// The shots ordered by absolute time; shots at the same time keep their order.
pub open spec fn sort_shots(s: Seq<ShotV>) -> Seq<ShotV>
    decreases s.len(),
{
    if s.len() == 0 {
        s
    } else {
        let t = sort_shots(s.drop_last());
        t.insert(shot_pos(t, s.last().abs), s.last())
    }
}

/// One cycle's shots on the absolute timeline.
pub open spec fn timeline(waves: Seq<WaveV>) -> Seq<ShotV> {
    sort_shots(wave_shots(waves, waves.len() as int))
}

fn cob_count(a: &Action) -> (r: (usize, i32))
    ensures
        cob_shots(a@, 0, 0).len() == r.0,
        r.0 > 0 ==> a@ is Cob && a@->Cob_time == r.1,
{
    match a {
        Action::Cob { time, positions, .. } => (positions.len(), *time),
        _ => (0, 0),
    }
}

/// The shots of a document's waves, in the order they are written.
fn collect_shots(waves: &Vec<Wave>) -> (r: (Vec<Shot>, i128))
    ensures
        shots_view(r.0@) == wave_shots(waves_view(waves@), waves@.len() as int),
        r.1 == wave_offset(waves_view(waves@), waves@.len() as int),
        -(waves@.len() as int) * 0x8000_0000 <= r.1 <= (waves@.len() as int) * 0x8000_0000,
        all_bounded(r.0@, waves@.len() as int),
{
    let ghost wv = waves_view(waves@);
    let mut base: Vec<Shot> = Vec::new();
    let mut offset: i128 = 0;
    let mut i: usize = 0;
    while i < waves.len()
        invariant
            i <= waves@.len(),
            wv == waves_view(waves@),
            offset == wave_offset(wv, i as int),
            -(i as int) * 0x8000_0000 <= offset <= (i as int) * 0x8000_0000,
            shots_view(base@) == wave_shots(wv, i as int),
            all_bounded(base@, waves@.len() as int),
        decreases waves@.len() - i,
    {
        let w = &waves[i];
        assert(wv[i as int] == w@);
        let ghost acts = w@.actions;
        let ghost before = shots_view(base@);
        let mut m: usize = 0;
        while m < w.actions.len()
            invariant
                m <= w.actions@.len(),
                acts == w@.actions,
                i < waves@.len(),
                -(i as int) * 0x8000_0000 <= offset <= (i as int) * 0x8000_0000,
                shots_view(base@) == before + action_shots(acts, m as int, i + 1, offset as int),
                all_bounded(base@, waves@.len() as int),
            decreases w.actions@.len() - m,
        {
            let a = &w.actions[m];
            assert(acts[m as int] == a@);
            let (n, time) = cob_count(a);
            let ghost mid = shots_view(base@);
            let mut c: usize = 0;
            while c < n
                invariant
                    c <= n,
                    n == cob_shots(a@, 0, 0).len(),
                    n > 0 ==> a@ is Cob && a@->Cob_time == time,
                    -(i as int) * 0x8000_0000 <= offset <= (i as int) * 0x8000_0000,
                    i < waves@.len(),
                    shots_view(base@) == mid + cob_shots(a@, i + 1, offset as int).take(c as int),
                    all_bounded(base@, waves@.len() as int),
                decreases n - c,
            {
                let ghost pv = shots_view(base@);
                let ghost cs = cob_shots(a@, i + 1, offset as int);
                let sh = Shot { wave: i as i128 + 1, tw: time, abs: offset + time as i128 };
                base.push(sh);
                assert(shots_view(base@) =~= pv.push(sh@));
                assert(sh@ == cs[c as int]);
                assert(cs.take(c + 1) =~= cs.take(c as int).push(cs[c as int]));
                c = c + 1;
                assert(shots_view(base@) =~= mid + cs.take(c as int));
            }
            assert(cob_shots(a@, i + 1, offset as int).take(n as int) =~= cob_shots(
                a@,
                i + 1,
                offset as int,
            ));
            m = m + 1;
            assert(shots_view(base@) =~= before + action_shots(acts, m as int, i + 1, offset as int));
        }
        assert(shots_view(base@) =~= wave_shots(wv, i + 1));
        offset = offset + w.wave_length as i128;
        i = i + 1;
    }
    (base, offset)
}

/// The shots ordered by absolute time, equal times keeping their order.
fn sort_shots_exec(v: &Vec<Shot>, Ghost(n): Ghost<int>) -> (r: Vec<Shot>)
    requires
        all_bounded(v@, n),
    ensures
        shots_view(r@) == sort_shots(shots_view(v@)),
        all_bounded(r@, n),
{
    let ghost s = shots_view(v@);
    let mut out: Vec<Shot> = Vec::new();
    let mut k: usize = 0;
    assert(s.take(0) =~= Seq::<ShotV>::empty());
    while k < v.len()
        invariant
            k <= v@.len(),
            s == shots_view(v@),
            shots_view(out@) == sort_shots(s.take(k as int)),
            all_bounded(v@, n),
            all_bounded(out@, n),
        decreases v@.len() - k,
    {
        let a = v[k];
        assert(a@ == s[k as int]);
        assert(shot_bounded(v@[k as int]@, n));
        let ghost ov = shots_view(out@);
        let ghost oo = out@;
        let mut j = out.len();
        assert(ov.take(j as int) =~= ov);
        while j > 0 && out[j - 1].abs > a.abs
            invariant
                j <= out@.len(),
                ov == shots_view(out@),
                shot_pos(ov, a.abs as int) == shot_pos(ov.take(j as int), a.abs as int),
            decreases j,
        {
            assert(ov.take(j as int).drop_last() =~= ov.take(j - 1));
            assert(ov.take(j as int).last() == out@[j - 1]@);
            j = j - 1;
        }
        proof {
            if j > 0 {
                assert(ov.take(j as int).last() == out@[j - 1]@);
            }
        }
        out.insert(j, a);
        assert(shots_view(out@) =~= ov.insert(j as int, s[k as int]));
        assert forall|q: int| 0 <= q < out@.len() implies shot_bounded(#[trigger] out@[q]@, n) by {
            if q < j {
                assert(out@[q] == oo[q]);
            } else if q > j {
                assert(out@[q] == oo[q - 1]);
            }
        }
        assert(s.take(k + 1).drop_last() =~= s.take(k as int));
        k = k + 1;
    }
    assert(s.take(k as int) =~= s);
    out
}

// --- the report ------------------------------------------------------------------

/// Whether the recharge gap from `src` to `dst` is too short.
pub open spec fn fails(src: ShotV, dst: ShotV) -> bool {
    dst.abs - src.abs < RECHARGE
}

/// `w<wave> <time> -> w<wave> <time>: <gap>cs`, with ` (!)` when the gap is too short.
pub open spec fn reuse_text(src: ShotV, dst: ShotV) -> Seq<char> {
    "w"@ + int_text(src.wave) + " "@ + int_text(src.tw) + " -> w"@ + int_text(dst.wave) + " "@
        + int_text(dst.tw) + ": "@ + int_text(dst.abs - src.abs) + "cs"@ + if fails(src, dst) {
        " (!)"@
    } else {
        Seq::empty()
    }
}

/// The line a reuse prints: every reuse, or in compact form only the failing ones.
pub open spec fn emitted(src: ShotV, dst: ShotV, compact: bool) -> Seq<Seq<char>> {
    if !compact || fails(src, dst) {
        seq![reuse_text(src, dst)]
    } else {
        Seq::empty()
    }
}

/// Without `loop:`, the reuses of shots `0..n`: shot `i` hands its cannon on to
/// shot `i + ncobs`, where there is one.
pub open spec fn fifo_lines(base: Seq<ShotV>, ncobs: int, compact: bool, n: int) -> Seq<Seq<char>>
    decreases n,
{
    if n <= 0 {
        Seq::empty()
    } else {
        fifo_lines(base, ncobs, compact, n - 1) + if n - 1 + ncobs < base.len() {
            emitted(base[n - 1], base[n - 1 + ncobs], compact)
        } else {
            Seq::empty()
        }
    }
}

pub open spec fn fifo_fails(base: Seq<ShotV>, ncobs: int) -> bool {
    exists|i: int| 0 <= i && i + ncobs < base.len() && #[trigger] fails(base[i], base[i + ncobs])
}

/// Under `loop:`, the shot that takes over the cannon of shot `i` of the first
/// cycle: shot `i + ncobs` of the endless repetition, `k` whole cycles later.
pub open spec fn cycle_target(base: Seq<ShotV>, ncobs: int, cycle_len: int, nwaves: int, i: int) -> ShotV {
    let j = i + ncobs;
    let k = j / (base.len() as int);
    let d = base[j % (base.len() as int)];
    ShotV { wave: d.wave + k * nwaves, tw: d.tw, abs: d.abs + k * cycle_len }
}

pub open spec fn loop_lines(
    base: Seq<ShotV>,
    ncobs: int,
    cycle_len: int,
    nwaves: int,
    compact: bool,
    n: int,
) -> Seq<Seq<char>>
    decreases n,
{
    if n <= 0 {
        Seq::empty()
    } else {
        loop_lines(base, ncobs, cycle_len, nwaves, compact, n - 1) + emitted(
            base[n - 1],
            cycle_target(base, ncobs, cycle_len, nwaves, n - 1),
            compact,
        )
    }
}

pub open spec fn loop_fails(base: Seq<ShotV>, ncobs: int, cycle_len: int, nwaves: int) -> bool {
    exists|i: int|
        0 <= i < base.len() && #[trigger] fails(
            base[i],
            cycle_target(base, ncobs, cycle_len, nwaves, i),
        )
}

/// The last shot that cannon `c` fires (first in, first out): the largest
/// index below `len` that leaves remainder `c` on division by `ncobs`.
pub open spec fn last_use(len: int, ncobs: int, c: int) -> int {
    c + ncobs * ((len - 1 - c) / ncobs)
}

/// Recharge still to go for cannon `c` when the last wave ends (negative once
/// it is ready).
pub open spec fn leftover(base: Seq<ShotV>, ncobs: int, cycle_len: int, c: int) -> int {
    RECHARGE - (cycle_len - base[last_use(base.len() as int, ncobs, c)].abs)
}

pub open spec fn min_int(a: int, b: int) -> int {
    if a < b {
        a
    } else {
        b
    }
}

/// The leftovers of the cannons that fired at all.
pub open spec fn leftovers(base: Seq<ShotV>, ncobs: int, cycle_len: int) -> Seq<int> {
    Seq::new(
        min_int(ncobs, base.len() as int) as nat,
        |c: int| leftover(base, ncobs, cycle_len, c),
    )
}

pub open spec fn insert_value(s: Seq<int>, x: int) -> Seq<int>
    decreases s.len(),
{
    if s.len() == 0 {
        seq![x]
    } else if s.last() <= x {
        s.push(x)
    } else {
        insert_value(s.drop_last(), x).push(s.last())
    }
}

/// The values in ascending order.
pub open spec fn sort_values(s: Seq<int>) -> Seq<int>
    decreases s.len(),
{
    if s.len() == 0 {
        s
    } else {
        insert_value(sort_values(s.drop_last()), s.last())
    }
}

/// Cells of the `next:` line: `-inf` for each cannon that never fired, then
/// the leftovers in ascending order.
pub open spec fn next_cells(base: Seq<ShotV>, ncobs: int, cycle_len: int) -> Seq<Seq<char>> {
    Seq::new((ncobs - min_int(ncobs, base.len() as int)) as nat, |_i: int| "-inf"@) + sort_values(
        leftovers(base, ncobs, cycle_len),
    ).map_values(|v: int| int_text(v))
}

/// The first `n` cells, each after a space.
pub open spec fn spaced(cells: Seq<Seq<char>>, n: int) -> Seq<char>
    decreases n,
{
    if n <= 0 {
        Seq::empty()
    } else {
        spaced(cells, n - 1) + " "@ + cells[n - 1]
    }
}

pub open spec fn next_line(base: Seq<ShotV>, ncobs: int, cycle_len: int) -> Seq<char> {
    let cells = next_cells(base, ncobs, cycle_len);
    "next:"@ + spaced(cells, cells.len() as int)
}

pub open spec fn header_line(ncobs: int, looping: bool) -> Seq<char> {
    "seml reuse ncobs="@ + int_text(ncobs) + " loop="@ + if looping {
        "true"@
    } else {
        "false"@
    }
}

/// Why no report could be made.
pub enum ReuseError {
    Parse(SemlError),
    /// No `ncobs:` header.
    MissingNcobs,
    /// The document fires no cob.
    NoCobs,
}

pub enum ReuseErrorV {
    Parse(SemlErrorV),
    MissingNcobs,
    NoCobs,
}

impl View for ReuseError {
    type V = ReuseErrorV;

    open spec fn view(&self) -> ReuseErrorV {
        match self {
            ReuseError::Parse(e) => ReuseErrorV::Parse(e@),
            ReuseError::MissingNcobs => ReuseErrorV::MissingNcobs,
            ReuseError::NoCobs => ReuseErrorV::NoCobs,
        }
    }
}

/// The report lines for a parsed document.
pub open spec fn report(p: ParsedV, compact: bool) -> Result<Seq<Seq<char>>, ReuseErrorV> {
    match p.params.ncobs {
        None => Err(ReuseErrorV::MissingNcobs),
        Some(ncobs) => {
            let waves = p.config.waves;
            let base = timeline(waves);
            let cycle_len = wave_offset(waves, waves.len() as int);
            let looping = p.params.looping == Some(true);
            if base.len() == 0 {
                Err(ReuseErrorV::NoCobs)
            } else if looping {
                let body = loop_lines(
                    base,
                    ncobs as int,
                    cycle_len,
                    waves.len() as int,
                    compact,
                    base.len() as int,
                );
                let ok = compact && !loop_fails(base, ncobs as int, cycle_len, waves.len() as int);
                Ok(
                    seq![header_line(ncobs as int, looping)] + body + if ok {
                        seq!["all ok"@]
                    } else {
                        Seq::empty()
                    },
                )
            } else {
                let body = fifo_lines(base, ncobs as int, compact, base.len() as int);
                let ok = compact && !fifo_fails(base, ncobs as int);
                Ok(
                    seq![header_line(ncobs as int, looping)] + body + if ok {
                        seq!["all ok"@]
                    } else {
                        Seq::empty()
                    } + seq![next_line(base, ncobs as int, cycle_len)],
                )
            }
        },
    }
}

/// What `run_text` reports for a document text.
pub open spec fn run_value(text: Seq<char>, compact: bool, strict: bool) -> Result<
    Seq<Seq<char>>,
    ReuseErrorV,
> {
    match parse_value(text, strict) {
        Err(e) => Err(ReuseErrorV::Parse(e)),
        Ok(p) => report(p, compact),
    }
}

// --- writing the report ----------------------------------------------------------------

pub open spec fn string_views(v: Seq<String>) -> Seq<Seq<char>> {
    Seq::new(v.len(), |i: int| v[i]@)
}


fn push_line(out: &mut Vec<String>, line: &Vec<char>)
    ensures
        string_views(final(out)@) == string_views(old(out)@).push(line@),
{
    let ghost o = string_views(out@);
    out.push(string_of(line.as_slice()));
    assert(string_views(out@) =~= o.push(line@));
}

fn shot_line(src: Shot, dst: Shot) -> (r: Vec<char>)
    requires
        i128::MIN <= dst.abs - src.abs <= i128::MAX,
    ensures
        r@ == reuse_text(src@, dst@),
{
    let mut t: Vec<char> = Vec::new();
    push_str(&mut t, "w");
    push_int_text(&mut t, src.wave);
    push_str(&mut t, " ");
    push_int_text(&mut t, src.tw as i128);
    push_str(&mut t, " -> w");
    push_int_text(&mut t, dst.wave);
    push_str(&mut t, " ");
    push_int_text(&mut t, dst.tw as i128);
    push_str(&mut t, ": ");
    let gap = dst.abs - src.abs;
    push_int_text(&mut t, gap);
    push_str(&mut t, "cs");
    if gap < RECHARGE {
        push_str(&mut t, " (!)");
    }
    assert(t@ =~= reuse_text(src@, dst@));
    t
}

/// Appends the reuse line of `src` handing its cannon to `dst`, if it is to be
/// shown; says whether the reuse fails.
fn emit_line(out: &mut Vec<String>, src: Shot, dst: Shot, compact: bool) -> (fail: bool)
    requires
        i128::MIN <= dst.abs - src.abs <= i128::MAX,
    ensures
        fail == fails(src@, dst@),
        string_views(final(out)@) == string_views(old(out)@) + emitted(src@, dst@, compact),
{
    let fail = dst.abs - src.abs < RECHARGE;
    let ghost o = string_views(out@);
    if !compact || fail {
        let t = shot_line(src, dst);
        push_line(out, &t);
        assert(string_views(out@) =~= o + emitted(src@, dst@, compact));
    } else {
        assert(string_views(out@) =~= o + emitted(src@, dst@, compact));
    }
    fail
}

fn fifo_exec(base: &Vec<Shot>, ncobs: usize, compact: bool, out: &mut Vec<String>, Ghost(n): Ghost<
    int,
>) -> (any_fail: bool)
    requires
        all_bounded(base@, n),
        0 <= n < 0x1_0000_0000_0000_0000,
    ensures
        any_fail == fifo_fails(shots_view(base@), ncobs as int),
        string_views(final(out)@) == string_views(old(out)@) + fifo_lines(
            shots_view(base@),
            ncobs as int,
            compact,
            base@.len() as int,
        ),
{
    let ghost bv = shots_view(base@);
    let mut any = false;
    let mut i: usize = 0;
    while i < base.len()
        invariant
            i <= base@.len(),
            bv == shots_view(base@),
            all_bounded(base@, n),
            0 <= n < 0x1_0000_0000_0000_0000,
            any == exists|q: int|
                0 <= q < i && q + ncobs < bv.len() && #[trigger] fails(bv[q], bv[q + ncobs]),
            string_views(out@) == string_views(old(out)@) + fifo_lines(
                bv,
                ncobs as int,
                compact,
                i as int,
            ),
        decreases base@.len() - i,
    {
        let ghost o = string_views(out@);
        if ncobs < base.len() - i {
            let src = base[i];
            let dst = base[i + ncobs];
            assert(shot_bounded(base@[i as int]@, n));
            assert(shot_bounded(base@[i + ncobs]@, n));
            let f = emit_line(out, src, dst, compact);
            assert(bv[i as int] == src@ && bv[i + ncobs] == dst@);
            any = any || f;
            assert(string_views(out@) =~= string_views(old(out)@) + fifo_lines(
                bv,
                ncobs as int,
                compact,
                i + 1,
            ));
        } else {
            assert(string_views(out@) =~= string_views(old(out)@) + fifo_lines(
                bv,
                ncobs as int,
                compact,
                i + 1,
            ));
        }
        i = i + 1;
    }
    any
}

proof fn lemma_cycles_bound(j: int, p: int)
    requires
        p >= 1,
        0 <= j < p + 0x8000_0000,
    ensures
        0 <= j / p <= 0x8000_0000,
{
    vstd::arithmetic::div_mod::lemma_fundamental_div_mod(j, p);
    let k = j / p;
    assert(0 <= j % p);
    assert(p * k <= j);
    assert(k >= 0) by (nonlinear_arith)
        requires
            p >= 1,
            p * k + j % p == j,
            j % p < p,
            j >= 0,
    ;
    assert(k <= 0x8000_0000) by (nonlinear_arith)
        requires
            p >= 1,
            p * k <= j,
            j < p + 0x8000_0000,
            k >= 0,
    ;
}

proof fn lemma_product_bound(k: int, x: int, b: int)
    requires
        0 <= k <= 0x8000_0000,
        -b <= x <= b,
    ensures
        -(0x8000_0000 * b) <= k * x <= 0x8000_0000 * b,
{
    assert(-(0x8000_0000 * b) <= k * x <= 0x8000_0000 * b) by (nonlinear_arith)
        requires
            0 <= k <= 0x8000_0000,
            -b <= x <= b,
    ;
}

fn loop_exec(
    base: &Vec<Shot>,
    ncobs: usize,
    cycle: i128,
    nwaves: usize,
    compact: bool,
    out: &mut Vec<String>,
) -> (any_fail: bool)
    requires
        all_bounded(base@, nwaves as int),
        base@.len() > 0,
        1 <= ncobs <= 0x7fff_ffff,
        -(nwaves as int) * 0x8000_0000 <= cycle <= (nwaves as int) * 0x8000_0000,
    ensures
        any_fail == loop_fails(shots_view(base@), ncobs as int, cycle as int, nwaves as int),
        string_views(final(out)@) == string_views(old(out)@) + loop_lines(
            shots_view(base@),
            ncobs as int,
            cycle as int,
            nwaves as int,
            compact,
            base@.len() as int,
        ),
{
    let ghost bv = shots_view(base@);
    let ghost n = nwaves as int;
    let per = base.len();
    let mut any = false;
    let mut i: usize = 0;
    while i < per
        invariant
            i <= per,
            per == base@.len(),
            per > 0,
            bv == shots_view(base@),
            n == nwaves,
            all_bounded(base@, n),
            1 <= ncobs <= 0x7fff_ffff,
            -n * 0x8000_0000 <= cycle <= n * 0x8000_0000,
            any == exists|q: int|
                0 <= q < i && #[trigger] fails(
                    bv[q],
                    cycle_target(bv, ncobs as int, cycle as int, n, q),
                ),
            string_views(out@) == string_views(old(out)@) + loop_lines(
                bv,
                ncobs as int,
                cycle as int,
                n,
                compact,
                i as int,
            ),
        decreases per - i,
    {
        let j: u128 = i as u128 + ncobs as u128;
        let p: u128 = per as u128;
        let k: u128 = j / p;
        let idx: usize = (j % p) as usize;
        proof {
            lemma_cycles_bound(j as int, p as int);
            lemma_product_bound(k as int, n, 0x1_0000_0000_0000_0000);
            lemma_product_bound(k as int, cycle as int, n * 0x8000_0000);
            assert(n * 0x8000_0000 <= 0x1_0000_0000_0000_0000 * 0x8000_0000);
        }
        let d = base[idx];
        assert(shot_bounded(base@[idx as int]@, n));
        assert(shot_bounded(base@[i as int]@, n));
        let kk = k as i128;
        let dst = Shot { wave: d.wave + kk * (nwaves as i128), tw: d.tw, abs: d.abs + kk * cycle };
        assert(bv[idx as int] == d@);
        assert(dst@ == cycle_target(bv, ncobs as int, cycle as int, n, i as int));
        let src = base[i];
        assert(bv[i as int] == src@);
        let f = emit_line(out, src, dst, compact);
        any = any || f;
        i = i + 1;
    }
    any
}

pub open spec fn ints(v: Seq<i128>) -> Seq<int> {
    v.map_values(|x: i128| x as int)
}

fn insert_value_exec(v: &mut Vec<i128>, x: i128)
    ensures
        ints(final(v)@) == insert_value(ints(old(v)@), x as int),
    decreases old(v)@.len(),
{
    let ghost o = v@;
    if v.len() == 0 {
        v.push(x);
        assert(ints(v@) =~= seq![x as int]);
    } else {
        let last = v[v.len() - 1];
        assert(ints(o).last() == last as int);
        if last <= x {
            v.push(x);
            assert(ints(v@) =~= ints(o).push(x as int));
        } else {
            let l = v.pop().unwrap();
            assert(ints(v@) =~= ints(o).drop_last());
            insert_value_exec(v, x);
            let ghost mid = v@;
            v.push(l);
            assert(ints(v@) =~= ints(mid).push(l as int));
        }
    }
}

fn sort_values_exec(v: &Vec<i128>) -> (r: Vec<i128>)
    ensures
        ints(r@) == sort_values(ints(v@)),
{
    let mut r: Vec<i128> = Vec::new();
    let mut i: usize = 0;
    assert(ints(v@).take(0) =~= Seq::<int>::empty());
    assert(ints(r@) =~= Seq::<int>::empty());
    while i < v.len()
        invariant
            i <= v@.len(),
            ints(r@) == sort_values(ints(v@).take(i as int)),
        decreases v@.len() - i,
    {
        assert(ints(v@).take(i + 1).drop_last() =~= ints(v@).take(i as int));
        assert(ints(v@).take(i + 1).last() == v@[i as int] as int);
        insert_value_exec(&mut r, v[i]);
        i = i + 1;
    }
    assert(ints(v@).take(i as int) =~= ints(v@));
    r
}

fn next_exec(base: &Vec<Shot>, ncobs: usize, cycle: i128, Ghost(n): Ghost<int>) -> (r: Vec<char>)
    requires
        all_bounded(base@, n),
        0 <= n < 0x1_0000_0000_0000_0000,
        base@.len() > 0,
        1 <= ncobs <= 0x7fff_ffff,
        -n * 0x8000_0000 <= cycle <= n * 0x8000_0000,
    ensures
        r@ == next_line(shots_view(base@), ncobs as int, cycle as int),
{
    let ghost bv = shots_view(base@);
    let len = base.len();
    let m = if ncobs < len {
        ncobs
    } else {
        len
    };
    let ghost lv = leftovers(bv, ncobs as int, cycle as int);
    let mut vals: Vec<i128> = Vec::new();
    let mut c: usize = 0;
    while c < m
        invariant
            c <= m,
            m <= len,
            m <= ncobs,
            len == base@.len(),
            m == min_int(ncobs as int, len as int),
            bv == shots_view(base@),
            lv == leftovers(bv, ncobs as int, cycle as int),
            all_bounded(base@, n),
            0 <= n < 0x1_0000_0000_0000_0000,
            1 <= ncobs,
            -n * 0x8000_0000 <= cycle <= n * 0x8000_0000,
            ints(vals@) == lv.take(c as int),
        decreases m - c,
    {
        let x = len - 1 - c;
        let q = x / ncobs;
        proof {
            vstd::arithmetic::div_mod::lemma_fundamental_div_mod(x as int, ncobs as int);
        }
        let li = c + ncobs * q;
        assert(li as int == last_use(len as int, ncobs as int, c as int));
        assert(shot_bounded(base@[li as int]@, n));
        let v = RECHARGE - (cycle - base[li].abs);
        assert(bv[li as int] == base@[li as int]@);
        let ghost before = ints(vals@);
        vals.push(v);
        assert(ints(vals@) =~= before.push(v as int));
        assert(lv[c as int] == leftover(bv, ncobs as int, cycle as int, c as int));
        assert(lv[c as int] == v as int);
        assert(lv.take(c + 1) =~= lv.take(c as int).push(lv[c as int]));
        assert(ints(vals@) =~= lv.take(c + 1));
        c = c + 1;
    }
    assert(lv.take(c as int) =~= lv);
    let sorted = sort_values_exec(&vals);
    let ghost sv = sort_values(lv);
    let ghost cells = next_cells(bv, ncobs as int, cycle as int);
    let ghost nones = (ncobs - m) as int;
    assert(cells.len() == nones + sv.len());
    let mut line: Vec<char> = Vec::new();
    push_str(&mut line, "next:");
    let mut t: usize = 0;
    while t < ncobs - m
        invariant
            t <= ncobs - m,
            nones == ncobs - m,
            cells == next_cells(bv, ncobs as int, cycle as int),
            cells.len() == nones + sv.len(),
            sv == sort_values(lv),
            lv == leftovers(bv, ncobs as int, cycle as int),
            m == min_int(ncobs as int, base@.len() as int),
            line@ == "next:"@ + spaced(cells, t as int),
        decreases ncobs - m - t,
    {
        assert(cells[t as int] == "-inf"@);
        push_str(&mut line, " -inf");
        t = t + 1;
        assert(" -inf"@ =~= " "@ + "-inf"@) by {
            reveal_strlit(" -inf");
            reveal_strlit(" ");
            reveal_strlit("-inf");
        }
        assert(line@ =~= "next:"@ + spaced(cells, t as int));
    }
    let mut q: usize = 0;
    while q < sorted.len()
        invariant
            q <= sorted@.len(),
            ints(sorted@) == sv,
            nones == ncobs - m,
            cells == next_cells(bv, ncobs as int, cycle as int),
            cells.len() == nones + sv.len(),
            sv == sort_values(lv),
            lv == leftovers(bv, ncobs as int, cycle as int),
            m == min_int(ncobs as int, base@.len() as int),
            line@ == "next:"@ + spaced(cells, nones + q),
        decreases sorted@.len() - q,
    {
        assert(cells[nones + q] == int_text(sorted@[q as int] as int));
        push_str(&mut line, " ");
        push_int_text(&mut line, sorted[q]);
        q = q + 1;
        assert(line@ =~= "next:"@ + spaced(cells, nones + q));
    }
    line
}

/// The reuse report of a SEML document: the lines to print, or why there are none.
pub fn run_text(text: &str, compact: bool, strict: bool) -> (r: Result<Vec<String>, ReuseError>)
    ensures
        match (r, run_value(text@, compact, strict)) {
            (Ok(a), Ok(b)) => string_views(a@) == b,
            (Err(e), Err(f)) => e@ == f,
            _ => false,
        },
{
    let parsed = match parse(text, strict) {
        Ok(p) => p,
        Err(e) => {
            return Err(ReuseError::Parse(e));
        },
    };
    proof {
        crate::seml::parser::document::lemma_parsed_ncobs(text@, strict);
    }
    let ncobs = match parsed.params.ncobs {
        Some(n) => n,
        None => {
            return Err(ReuseError::MissingNcobs);
        },
    };
    let looping = match parsed.params.looping {
        Some(b) => b,
        None => false,
    };
    let waves = &parsed.config.waves;
    let nwaves = waves.len();
    let (shots, cycle) = collect_shots(waves);
    let base = sort_shots_exec(&shots, Ghost(nwaves as int));
    if base.len() == 0 {
        return Err(ReuseError::NoCobs);
    }
    let mut out: Vec<String> = Vec::new();
    let mut head: Vec<char> = Vec::new();
    push_str(&mut head, "seml reuse ncobs=");
    push_int_text(&mut head, ncobs as i128);
    push_str(&mut head, " loop=");
    if looping {
        push_str(&mut head, "true");
    } else {
        push_str(&mut head, "false");
    }
    push_line(&mut out, &head);
    let nc = ncobs as usize;
    if looping {
        let any = loop_exec(&base, nc, cycle, nwaves, compact, &mut out);
        if compact && !any {
            let ok = crate::text::chars_of("all ok");
            push_line(&mut out, &ok);
        }
    } else {
        let any = fifo_exec(&base, nc, compact, &mut out, Ghost(nwaves as int));
        if compact && !any {
            let ok = crate::text::chars_of("all ok");
            push_line(&mut out, &ok);
        }
        let next = next_exec(&base, nc, cycle, Ghost(nwaves as int));
        push_line(&mut out, &next);
    }
    Ok(out)
}

} // verus!
