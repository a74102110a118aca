//! The explode CSV's layout: the header rows that stack each wave's action
//! descriptions, the span of ticks the table covers, where a tick falls in a
//! wave's losses, and which cell of a row is marked as the least loss.
use vstd::prelude::*;
use crate::seml::reuse::string_views;
use crate::text::{push_str, string_of};

verus! {

/// Each wave's action descriptions, as text.
pub open spec fn header_views(hs: Seq<Vec<String>>) -> Seq<Seq<Seq<char>>> {
    Seq::new(hs.len(), |i: int| string_views(hs[i]@))
}

/// `n` commas.
pub open spec fn commas(n: nat) -> Seq<char> {
    Seq::new(n, |_i: int| ',')
}

/// The first row: each section label after a comma, followed by one comma per wave.
pub open spec fn label_row(n: nat) -> Seq<char> {
    ","@ + "炮伤"@ + commas(n) + ","@ + "瞬伤"@ + commas(n) + ","@ + "损伤"@ + commas(n) + "\n"@
}

/// Description `hi` of a wave, or nothing where it has fewer.
pub open spec fn cell(h: Seq<Seq<char>>, hi: int) -> Seq<char> {
    if 0 <= hi < h.len() {
        h[hi]
    } else {
        Seq::empty()
    }
}

/// Description `hi` of the first `n` waves, each followed by a comma.
pub open spec fn cells(hs: Seq<Seq<Seq<char>>>, hi: int, n: int) -> Seq<char>
    decreases n,
{
    if n <= 0 {
        Seq::empty()
    } else {
        cells(hs, hi, n - 1) + cell(hs[n - 1], hi) + ","@
    }
}

/// Header row `hi` of `rows`: the tick label on the last one, then the
/// descriptions once for each of the three sections.
pub open spec fn header_row(hs: Seq<Seq<Seq<char>>>, hi: int, rows: int) -> Seq<char> {
    let group = cells(hs, hi, hs.len() as int) + ","@;
    (if hi == rows - 1 {
        "时刻"@
    } else {
        Seq::empty()
    }) + ","@ + group + group + group + "\n"@
}

pub open spec fn header_rows(hs: Seq<Seq<Seq<char>>>, rows: int, k: int) -> Seq<char>
    decreases k,
{
    if k <= 0 {
        Seq::empty()
    } else {
        header_rows(hs, rows, k - 1) + header_row(hs, k - 1, rows)
    }
}

/// The largest number of descriptions any wave has.
pub open spec fn most_descriptions(hs: Seq<Seq<Seq<char>>>) -> nat
    decreases hs.len(),
{
    if hs.len() == 0 {
        0
    } else {
        let m = most_descriptions(hs.drop_last());
        if hs.last().len() > m {
            hs.last().len()
        } else {
            m
        }
    }
}

pub open spec fn explode_header(hs: Seq<Seq<Seq<char>>>) -> Seq<char> {
    let rows = most_descriptions(hs) as int;
    label_row(hs.len()) + header_rows(hs, rows, rows)
}

fn push_commas(out: &mut Vec<char>, n: usize)
    ensures
        final(out)@ == old(out)@ + commas(n as nat),
{
    let mut k: usize = 0;
    while k < n
        invariant
            k <= n,
            out@ == old(out)@ + commas(k as nat),
        decreases n - k,
    {
        out.push(',');
        k = k + 1;
        assert(out@ =~= old(out)@ + commas(k as nat));
    }
}

pub(crate) fn most_descriptions_exec(headers: &Vec<Vec<String>>) -> (m: usize)
    ensures
        m == most_descriptions(header_views(headers@)),
{
    let ghost hs = header_views(headers@);
    let mut m: usize = 0;
    let mut i: usize = 0;
    while i < headers.len()
        invariant
            i <= headers@.len(),
            hs == header_views(headers@),
            m == most_descriptions(hs.take(i as int)),
        decreases headers@.len() - i,
    {
        assert(hs.take(i + 1).drop_last() =~= hs.take(i as int));
        assert(hs.take(i + 1).last() == hs[i as int]);
        assert(hs[i as int].len() == headers@[i as int]@.len());
        if headers[i].len() > m {
            m = headers[i].len();
        }
        i = i + 1;
    }
    assert(hs.take(i as int) =~= hs);
    m
}

/// Description `hi` of every wave, each followed by a comma, then one more comma.
fn push_group(out: &mut Vec<char>, headers: &Vec<Vec<String>>, hi: usize)
    ensures
        final(out)@ == old(out)@ + cells(header_views(headers@), hi as int, headers@.len() as int)
            + ","@,
{
    let ghost hs = header_views(headers@);
    let n = headers.len();
    let mut w: usize = 0;
    while w < n
        invariant
            w <= n,
            n == headers@.len(),
            hs == header_views(headers@),
            out@ == old(out)@ + cells(hs, hi as int, w as int),
        decreases n - w,
    {
        assert(hs[w as int] == string_views(headers@[w as int]@));
        if hi < headers[w].len() {
            assert(cell(hs[w as int], hi as int) == headers@[w as int]@[hi as int]@);
            push_str(out, headers[w][hi].as_str());
        } else {
            assert(cell(hs[w as int], hi as int) =~= Seq::<char>::empty());
        }
        push_str(out, ",");
        w = w + 1;
        assert(out@ =~= old(out)@ + cells(hs, hi as int, w as int));
    }
    push_str(out, ",");
}

/// The description rows of the explode CSV: the section labels, then one
/// row per description index, the last one carrying the tick label.
pub fn explode_csv_header(headers: &Vec<Vec<String>>) -> (r: String)
    ensures
        r@ == explode_header(header_views(headers@)),
{
    let ghost hs = header_views(headers@);
    let n = headers.len();
    let rows = most_descriptions_exec(headers);
    let mut out: Vec<char> = Vec::new();
    push_str(&mut out, ",");
    push_str(&mut out, "炮伤");
    push_commas(&mut out, n);
    push_str(&mut out, ",");
    push_str(&mut out, "瞬伤");
    push_commas(&mut out, n);
    push_str(&mut out, ",");
    push_str(&mut out, "损伤");
    push_commas(&mut out, n);
    push_str(&mut out, "\n");
    assert(out@ =~= label_row(n as nat));
    let mut hi: usize = 0;
    while hi < rows
        invariant
            hi <= rows,
            n == headers@.len(),
            hs == header_views(headers@),
            rows == most_descriptions(hs),
            out@ == label_row(n as nat) + header_rows(hs, rows as int, hi as int),
        decreases rows - hi,
    {
        let mut row: Vec<char> = Vec::new();
        if hi + 1 == rows {
            push_str(&mut row, "时刻");
        }
        push_str(&mut row, ",");
        push_group(&mut row, headers, hi);
        push_group(&mut row, headers, hi);
        push_group(&mut row, headers, hi);
        push_str(&mut row, "\n");
        assert(row@ =~= header_row(hs, hi as int, rows as int));
        crate::text::append(&mut out, row.as_slice());
        assert(header_rows(hs, rows as int, hi + 1) == header_rows(hs, rows as int, hi as int)
            + header_row(hs, hi as int, rows as int));
        hi = hi + 1;
        assert(out@ =~= label_row(n as nat) + header_rows(hs, rows as int, hi as int));
    }
    string_of(out.as_slice())
}


/// The earliest first tick among the waves (`i64::MAX` for none).
pub open spec fn min_start(s: Seq<(i64, usize)>) -> int
    decreases s.len(),
{
    if s.len() == 0 {
        i64::MAX as int
    } else {
        let m = min_start(s.drop_last());
        if (s.last().0 as int) < m {
            s.last().0 as int
        } else {
            m
        }
    }
}

/// The latest tick any wave has a loss for (`i64::MIN` for none).
pub open spec fn max_end(s: Seq<(i64, usize)>) -> int
    decreases s.len(),
{
    if s.len() == 0 {
        i64::MIN as int
    } else {
        let m = max_end(s.drop_last());
        let e = s.last().0 + s.last().1 - 1;
        if s.last().1 > 0 && e > m {
            e
        } else {
            m
        }
    }
}

/// The ticks the table covers, from the first to the last inclusive, for
/// waves given as (first tick, number of ticks with losses); `(0, -1)`, an
/// empty span, where there is no wave.
pub open spec fn tick_span(s: Seq<(i64, usize)>) -> (int, int) {
    if s.len() == 0 {
        (0, -1)
    } else {
        (min_start(s), max_end(s))
    }
}

/// The span of ticks the explode CSV covers.
pub fn tick_range(waves: &Vec<(i64, usize)>) -> (r: (i64, i64))
    requires
        forall|i: int|
            0 <= i < waves@.len() ==> waves@[i].1 <= i64::MAX && waves@[i].0 + waves@[i].1 - 1
                <= i64::MAX,
    ensures
        (r.0 as int, r.1 as int) == tick_span(waves@),
{
    if waves.len() == 0 {
        return (0, -1);
    }
    let mut first: i64 = i64::MAX;
    let mut last: i64 = i64::MIN;
    let mut i: usize = 0;
    while i < waves.len()
        invariant
            i <= waves@.len(),
            forall|j: int|
                0 <= j < waves@.len() ==> waves@[j].1 <= i64::MAX && waves@[j].0 + waves@[j].1 - 1
                    <= i64::MAX,
            first == min_start(waves@.take(i as int)),
            last == max_end(waves@.take(i as int)),
        decreases waves@.len() - i,
    {
        assert(waves@.take(i + 1).drop_last() =~= waves@.take(i as int));
        let (start, len) = waves[i];
        if start < first {
            first = start;
        }
        if len > 0 {
            let e = start + ((len - 1) as i64);
            if e > last {
                last = e;
            }
        }
        i = i + 1;
    }
    assert(waves@.take(i as int) =~= waves@);
    (first, last)
}

/// Where `tick` falls among the losses of a wave that starts at `start` and
/// has `len` of them: their index, or `None` outside the wave.
pub fn loss_index(start: i64, len: usize, tick: i64) -> (r: Option<usize>)
    ensures
        match r {
            Some(k) => start <= tick && tick - start < len && k == tick - start,
            None => tick < start || tick - start >= len,
        },
{
    if tick < start {
        return None;
    }
    let d: i128 = tick as i128 - start as i128;
    if d >= len as i128 {
        None
    } else {
        Some(d as usize)
    }
}

/// How many cells of a row hold a value.
pub open spec fn present(v: Seq<Option<i64>>) -> nat
    decreases v.len(),
{
    if v.len() == 0 {
        0
    } else {
        present(v.drop_last()) + if v.last() is Some {
            1nat
        } else {
            0nat
        }
    }
}

/// Cell `i` holds the least value of the row, and no later cell holds it too.
pub open spec fn marks_least(v: Seq<Option<i64>>, i: int) -> bool {
    &&& 0 <= i < v.len()
    &&& v[i] is Some
    &&& forall|j: int| 0 <= j < v.len() && v[j] is Some ==> v[i]->0 <= v[j]->0
    &&& forall|j: int| i < j < v.len() && v[j] is Some ==> v[i]->0 < v[j]->0
}

/// The cell of a row to mark as the least: where two or more cells hold a
/// value, the last one holding the least of them; else none.
pub fn least_marker(v: &Vec<Option<i64>>) -> (r: Option<usize>)
    ensures
        match r {
            None => present(v@) <= 1,
            Some(i) => present(v@) > 1 && marks_least(v@, i as int),
        },
{
    let mut count: usize = 0;
    let mut k: usize = 0;
    while k < v.len()
        invariant
            k <= v@.len(),
            count == present(v@.take(k as int)),
            count <= k,
        decreases v@.len() - k,
    {
        assert(v@.take(k + 1).drop_last() =~= v@.take(k as int));
        if v[k].is_some() {
            count = count + 1;
        }
        k = k + 1;
    }
    assert(v@.take(k as int) =~= v@);
    if count <= 1 {
        return None;
    }
    let mut best: Option<usize> = None;
    let mut k: usize = 0;
    while k < v.len()
        invariant
            k <= v@.len(),
            present(v@) > 1,
            match best {
                None => forall|j: int| 0 <= j < k ==> v@[j] is None,
                Some(b) => {
                    &&& b < k
                    &&& v@[b as int] is Some
                    &&& forall|j: int| 0 <= j < k && v@[j] is Some ==> v@[b as int]->0 <= v@[j]->0
                    &&& forall|j: int| b < j < k && v@[j] is Some ==> v@[b as int]->0 < v@[j]->0
                },
            },
        decreases v@.len() - k,
    {
        if let Some(x) = v[k] {
            match best {
                None => {
                    best = Some(k);
                },
                Some(b) => {
                    if let Some(m) = v[b] {
                        if x <= m {
                            best = Some(k);
                        }
                    }
                },
            }
        }
        k = k + 1;
    }
    proof {
        if best is None {
            lemma_present_none(v@);
        }
    }
    best
}

proof fn lemma_present_none(v: Seq<Option<i64>>)
    requires
        forall|j: int| 0 <= j < v.len() ==> v[j] is None,
    ensures
        present(v) == 0,
    decreases v.len(),
{
    if v.len() > 0 {
        lemma_present_none(v.drop_last());
    }
}


/// The number of header rows is the largest number of descriptions a wave
/// has: no wave has more, some wave (where there is one) has that many, and
/// with no wave there are none. So every description of every wave has a row.
pub proof fn lemma_most_descriptions_is_largest(hs: Seq<Seq<Seq<char>>>)
    ensures
        forall|i: int| 0 <= i < hs.len() ==> (#[trigger] hs[i]).len() <= most_descriptions(hs),
        hs.len() > 0 ==> exists|i: int| 0 <= i < hs.len() && (#[trigger] hs[i]).len() == most_descriptions(hs),
        hs.len() == 0 ==> most_descriptions(hs) == 0,
    decreases hs.len(),
{
    if hs.len() > 0 {
        let d = hs.drop_last();
        lemma_most_descriptions_is_largest(d);
        assert forall|i: int| 0 <= i < hs.len() implies (#[trigger] hs[i]).len() <= most_descriptions(hs) by {
            if i < d.len() {
                assert(hs[i] == d[i]);
            }
        }
        if hs.last().len() > most_descriptions(d) {
            assert(hs[hs.len() - 1].len() == most_descriptions(hs));
        } else if d.len() > 0 {
            let j = choose|j: int| 0 <= j < d.len() && (#[trigger] d[j]).len() == most_descriptions(d);
            assert(hs[j] == d[j]);
        } else {
            assert(hs[0].len() == most_descriptions(hs));
        }
    }
}

/// Each description of each wave stands in the header: description `hi` of
/// wave `w` is the cell of wave `w` in header row `hi`, in each of the three
/// sections.
pub proof fn lemma_header_holds_every_description(hs: Seq<Seq<Seq<char>>>, w: int, hi: int)
    requires
        0 <= w < hs.len(),
        0 <= hi < hs[w].len(),
    ensures
        hi < most_descriptions(hs),
        cell(hs[w], hi) == hs[w][hi],
{
    lemma_most_descriptions_is_largest(hs);
}


/// A count that no wave exceeds and some wave reaches (0 with no wave) is the
/// largest number of descriptions.
pub proof fn lemma_largest_is_most(hs: Seq<Seq<Seq<char>>>, m: int)
    requires
        forall|i: int| 0 <= i < hs.len() ==> (#[trigger] hs[i]).len() <= m,
        hs.len() > 0 ==> exists|i: int| 0 <= i < hs.len() && (#[trigger] hs[i]).len() == m,
        hs.len() == 0 ==> m == 0,
    ensures
        m == most_descriptions(hs),
{
    lemma_most_descriptions_is_largest(hs);
    if hs.len() > 0 {
        let i = choose|i: int| 0 <= i < hs.len() && (#[trigger] hs[i]).len() == m;
        let j = choose|j: int| 0 <= j < hs.len() && (#[trigger] hs[j]).len() == most_descriptions(hs);
        assert(hs[i].len() <= most_descriptions(hs));
        assert(hs[j].len() <= m);
    }
}

/// The explode header has one description row for each description of the
/// wave that has the most: the section labels, then rows `0..m` for the
/// largest count `m`.
pub proof fn lemma_explode_header_rows(hs: Seq<Seq<Seq<char>>>, m: int)
    requires
        forall|i: int| 0 <= i < hs.len() ==> (#[trigger] hs[i]).len() <= m,
        hs.len() > 0 ==> exists|i: int| 0 <= i < hs.len() && (#[trigger] hs[i]).len() == m,
        hs.len() == 0 ==> m == 0,
    ensures
        explode_header(hs) == label_row(hs.len()) + header_rows(hs, m, m),
{
    lemma_largest_is_most(hs, m);
}

} // verus!
