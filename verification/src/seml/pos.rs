//! The integer rows of the pos CSV: each wave's length above its first
//! column, each column's zombie type, the counts and totals, the tick bounds
//! of the arrival mode, and the rows that open the cumulative table.
use vstd::prelude::*;
use crate::seml::zombie::{name, name_spec};
use crate::seml::explode::commas;
use crate::text::{int_text, push_int_text, push_str, string_of};

verus! {

/// Column `k` is the first of its wave: its wave differs from the one
/// before it (for the first column, from the lowest wave index).
pub open spec fn starts_wave(cs: Seq<(i64, i64, i32)>, k: int) -> bool {
    if k == 0 {
        cs[0].0 != i64::MIN
    } else {
        cs[k].0 != cs[k - 1].0
    }
}

pub open spec fn wave_cells(cs: Seq<(i64, i64, i32)>, n: int) -> Seq<char>
    decreases n,
{
    if n <= 0 {
        Seq::empty()
    } else {
        wave_cells(cs, n - 1) + ","@ + if starts_wave(cs, n - 1) {
            int_text(cs[n - 1].1 as int)
        } else {
            Seq::empty()
        }
    }
}

pub open spec fn type_cells(cs: Seq<(i64, i64, i32)>, n: int) -> Seq<char>
    decreases n,
{
    if n <= 0 {
        Seq::empty()
    } else {
        type_cells(cs, n - 1) + ","@ + name_spec(cs[n - 1].2)
    }
}

/// Both rows for columns given as (wave index, wave length, zombie type).
pub open spec fn pos_head(cs: Seq<(i64, i64, i32)>) -> Seq<char> {
    wave_cells(cs, cs.len() as int) + "\n"@ + "僵尸类别"@ + type_cells(cs, cs.len() as int) + "\n"@
}

/// The pos CSV's wave-length row and zombie-type row.
pub fn pos_csv_head(columns: &Vec<(i64, i64, i32)>) -> (r: String)
    ensures
        r@ == pos_head(columns@),
{
    let mut out: Vec<char> = Vec::new();
    let mut prev: i64 = i64::MIN;
    let mut k: usize = 0;
    while k < columns.len()
        invariant
            k <= columns@.len(),
            k > 0 ==> prev == columns@[k - 1].0,
            k == 0 ==> prev == i64::MIN,
            out@ == wave_cells(columns@, k as int),
        decreases columns@.len() - k,
    {
        push_str(&mut out, ",");
        let (wi, len, _t) = columns[k];
        if wi != prev {
            push_int_text(&mut out, len as i128);
        }
        prev = wi;
        k = k + 1;
    }
    push_str(&mut out, "\n");
    push_str(&mut out, "僵尸类别");
    let ghost mid = out@;
    let mut k: usize = 0;
    while k < columns.len()
        invariant
            k <= columns@.len(),
            out@ == mid + type_cells(columns@, k as int),
        decreases columns@.len() - k,
    {
        push_str(&mut out, ",");
        let n = name(columns[k].2);
        push_str(&mut out, n.as_str());
        k = k + 1;
        assert(out@ =~= mid + type_cells(columns@, k as int));
    }
    push_str(&mut out, "\n");
    assert(out@ =~= pos_head(columns@));
    string_of(out.as_slice())
}


/// One column's counts: zombies that arrived, that stayed alive, in all, and
/// the first and last arrival tick.
#[derive(Clone, Copy)]
pub struct PosStat {
    pub arrived: i64,
    pub alive: i64,
    pub total: i64,
    pub min_tick: i64,
    pub max_tick: i64,
}

/// The count a column shows: arrivals in arrival mode, survivors otherwise.
pub open spec fn shown_count(time_mode: bool, s: PosStat) -> i64 {
    if time_mode {
        s.arrived
    } else {
        s.alive
    }
}

pub open spec fn count_cells(time_mode: bool, st: Seq<PosStat>, n: int) -> Seq<char>
    decreases n,
{
    if n <= 0 {
        Seq::empty()
    } else {
        count_cells(time_mode, st, n - 1) + ","@ + int_text(shown_count(time_mode, st[n - 1]) as int)
    }
}

pub open spec fn total_cells(st: Seq<PosStat>, n: int) -> Seq<char>
    decreases n,
{
    if n <= 0 {
        Seq::empty()
    } else {
        total_cells(st, n - 1) + ","@ + int_text(st[n - 1].total as int)
    }
}

/// The count row and the total row.
pub open spec fn pos_counts(time_mode: bool, st: Seq<PosStat>) -> Seq<char> {
    (if time_mode {
        "到达数"@
    } else {
        "存活数"@
    }) + count_cells(time_mode, st, st.len() as int) + "\n"@ + "总数"@ + total_cells(
        st,
        st.len() as int,
    ) + "\n"@
}

/// Each column's first (or last) arrival tick, blank where none arrived.
pub open spec fn bound_cells(st: Seq<PosStat>, n: int, first: bool) -> Seq<char>
    decreases n,
{
    if n <= 0 {
        Seq::empty()
    } else {
        bound_cells(st, n - 1, first) + ","@ + if st[n - 1].arrived > 0 {
            int_text(
                (if first {
                    st[n - 1].min_tick
                } else {
                    st[n - 1].max_tick
                }) as int,
            )
        } else {
            Seq::empty()
        }
    }
}

/// The two tick-bound rows of the arrival mode.
pub open spec fn pos_tick_bounds(st: Seq<PosStat>) -> Seq<char> {
    "时刻min"@ + bound_cells(st, st.len() as int, true) + "\n"@ + "时刻max"@ + bound_cells(
        st,
        st.len() as int,
        false,
    ) + "\n"@
}

/// A blank row and the `累积概率` row, each as wide as the `n` columns.
pub open spec fn pos_marker(n: nat) -> Seq<char> {
    commas(n) + "\n"@ + "累积概率"@ + commas(n) + "\n"@
}

/// The pos CSV's count and total rows.
pub fn pos_csv_counts(time_mode: bool, stats: &Vec<PosStat>) -> (r: String)
    ensures
        r@ == pos_counts(time_mode, stats@),
{
    let mut out: Vec<char> = Vec::new();
    if time_mode {
        push_str(&mut out, "到达数");
    } else {
        push_str(&mut out, "存活数");
    }
    let ghost a = out@;
    let mut k: usize = 0;
    while k < stats.len()
        invariant
            k <= stats@.len(),
            out@ == a + count_cells(time_mode, stats@, k as int),
        decreases stats@.len() - k,
    {
        push_str(&mut out, ",");
        let c = if time_mode {
            stats[k].arrived
        } else {
            stats[k].alive
        };
        push_int_text(&mut out, c as i128);
        k = k + 1;
        assert(out@ =~= a + count_cells(time_mode, stats@, k as int));
    }
    push_str(&mut out, "\n");
    push_str(&mut out, "总数");
    let ghost b = out@;
    let mut k: usize = 0;
    while k < stats.len()
        invariant
            k <= stats@.len(),
            out@ == b + total_cells(stats@, k as int),
        decreases stats@.len() - k,
    {
        push_str(&mut out, ",");
        push_int_text(&mut out, stats[k].total as i128);
        k = k + 1;
        assert(out@ =~= b + total_cells(stats@, k as int));
    }
    push_str(&mut out, "\n");
    assert(out@ =~= pos_counts(time_mode, stats@));
    string_of(out.as_slice())
}

fn push_bounds(out: &mut Vec<char>, stats: &Vec<PosStat>, first: bool)
    ensures
        final(out)@ == old(out)@ + bound_cells(stats@, stats@.len() as int, first),
{
    let mut k: usize = 0;
    while k < stats.len()
        invariant
            k <= stats@.len(),
            out@ == old(out)@ + bound_cells(stats@, k as int, first),
        decreases stats@.len() - k,
    {
        push_str(out, ",");
        let s = stats[k];
        if s.arrived > 0 {
            let v = if first {
                s.min_tick
            } else {
                s.max_tick
            };
            push_int_text(out, v as i128);
        }
        k = k + 1;
        assert(out@ =~= old(out)@ + bound_cells(stats@, k as int, first));
    }
}

/// The pos CSV's first- and last-arrival rows (arrival mode).
pub fn pos_csv_tick_bounds(stats: &Vec<PosStat>) -> (r: String)
    ensures
        r@ == pos_tick_bounds(stats@),
{
    let mut out: Vec<char> = Vec::new();
    push_str(&mut out, "时刻min");
    push_bounds(&mut out, stats, true);
    push_str(&mut out, "\n");
    push_str(&mut out, "时刻max");
    push_bounds(&mut out, stats, false);
    push_str(&mut out, "\n");
    assert(out@ =~= pos_tick_bounds(stats@));
    string_of(out.as_slice())
}

/// The blank row and the `累积概率` row that open the cumulative table.
pub fn pos_csv_marker(columns: usize) -> (r: String)
    ensures
        r@ == pos_marker(columns as nat),
{
    let mut out: Vec<char> = Vec::new();
    let mut k: usize = 0;
    while k < columns
        invariant
            k <= columns,
            out@ == commas(k as nat),
        decreases columns - k,
    {
        out.push(',');
        k = k + 1;
        assert(out@ =~= commas(k as nat));
    }
    push_str(&mut out, "\n");
    push_str(&mut out, "累积概率");
    let ghost m = out@;
    let mut k: usize = 0;
    while k < columns
        invariant
            k <= columns,
            out@ == m + commas(k as nat),
        decreases columns - k,
    {
        out.push(',');
        k = k + 1;
        assert(out@ =~= m + commas(k as nat));
    }
    push_str(&mut out, "\n");
    assert(out@ =~= pos_marker(columns as nat));
    string_of(out.as_slice())
}

} // verus!
