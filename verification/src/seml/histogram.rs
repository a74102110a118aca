//! The cumulative table of the pos CSV: the keys that any column's histogram
//! has, in increasing order, and for each key and column how many samples
//! fell at or below it.
use vstd::prelude::*;

verus! {

/// One column's histogram: each key with its count, where the entry holds one.
pub type Histogram = Vec<(i64, Option<i64>)>;

pub open spec fn hist_views(hs: Seq<Histogram>) -> Seq<Seq<(i64, Option<i64>)>> {
    Seq::new(hs.len(), |c: int| hs[c]@)
}

/// One of the first `n` entries of `h` has key `k`.
pub open spec fn in_column(h: Seq<(i64, Option<i64>)>, k: i64, n: int) -> bool {
    exists|e: int| 0 <= e < n && e < h.len() && #[trigger] h[e].0 == k
}

/// One of the first `n` columns has key `k`.
pub open spec fn in_columns(hs: Seq<Seq<(i64, Option<i64>)>>, k: i64, n: int) -> bool {
    exists|c: int| 0 <= c < n && c < hs.len() && #[trigger] in_column(hs[c], k, hs[c].len() as int)
}

pub open spec fn increasing(s: Seq<i64>) -> bool {
    forall|i: int, j: int| 0 <= i < j < s.len() ==> s[i] < s[j]
}

/// The counts of `h` whose key is at most `k`, added up.
pub open spec fn count_upto(h: Seq<(i64, Option<i64>)>, k: int) -> int
    decreases h.len(),
{
    if h.len() == 0 {
        0
    } else {
        count_upto(h.drop_last(), k) + match h.last().1 {
            Some(c) => if h.last().0 <= k {
                c as int
            } else {
                0
            },
            None => 0,
        }
    }
}

/// All the counts of `h`, added up.
pub open spec fn count_all(h: Seq<(i64, Option<i64>)>) -> int
    decreases h.len(),
{
    if h.len() == 0 {
        0
    } else {
        count_all(h.drop_last()) + match h.last().1 {
            Some(c) => c as int,
            None => 0,
        }
    }
}

/// The cumulative table: the keys in increasing order, and a row per key
/// with each column's running count.
pub struct Cumulative {
    pub keys: Vec<i64>,
    pub rows: Vec<Vec<i128>>,
}

/// `r` is the cumulative table of the histograms `hs`.
pub open spec fn is_cumulative(hs: Seq<Seq<(i64, Option<i64>)>>, r: Cumulative) -> bool {
    &&& increasing(r.keys@)
    &&& forall|k: i64| r.keys@.contains(k) <==> in_columns(hs, k, hs.len() as int)
    &&& r.rows@.len() == r.keys@.len()
    &&& forall|i: int|
        0 <= i < r.rows@.len() ==> {
            &&& (#[trigger] r.rows@[i])@.len() == hs.len()
            &&& forall|c: int| 0 <= c < hs.len() ==> r.rows@[i]@[c] == count_upto(hs[c], r.keys@[i] as int)
        }
}

/// Adds `x` to an increasing list of keys, keeping it increasing.
fn insert_key(v: &mut Vec<i64>, x: i64)
    requires
        increasing(old(v)@),
    ensures
        increasing(final(v)@),
        forall|y: i64| final(v)@.contains(y) <==> (old(v)@.contains(y) || y == x),
{
    let mut p: usize = 0;
    while p < v.len() && v[p] < x
        invariant
            p <= v@.len(),
            v@ == old(v)@,
            increasing(v@),
            forall|j: int| 0 <= j < p ==> v@[j] < x,
        decreases v@.len() - p,
    {
        p = p + 1;
    }
    if p < v.len() && v[p] == x {
        assert(v@[p as int] == x);
    } else {
        let ghost o = v@;
        v.insert(p, x);
        assert(v@ == o.insert(p as int, x));
        assert forall|y: i64| #[trigger] v@.contains(y) <==> (o.contains(y) || y == x) by {
            if v@.contains(y) {
                let j = choose|j: int| 0 <= j < v@.len() && v@[j] == y;
                if j < p {
                    assert(o[j] == y);
                } else if j > p {
                    assert(o[j - 1] == y);
                }
            }
            if o.contains(y) {
                let j = choose|j: int| 0 <= j < o.len() && o[j] == y;
                if j < p {
                    assert(v@[j] == y);
                } else {
                    assert(v@[j + 1] == y);
                }
            }
            if y == x {
                assert(v@[p as int] == x);
            }
        }
    }
}

/// The running count of one column at key `k`.
fn count_upto_exec(h: &Histogram, k: i64) -> (r: i128)
    ensures
        r == count_upto(h@, k as int),
{
    let mut acc: i128 = 0;
    let mut e: usize = 0;
    while e < h.len()
        invariant
            e <= h@.len(),
            acc == count_upto(h@.take(e as int), k as int),
            -(e as int) * 0x8000_0000_0000_0000 <= acc <= (e as int) * 0x7fff_ffff_ffff_ffff,
        decreases h@.len() - e,
    {
        assert(h@.take(e + 1).drop_last() =~= h@.take(e as int));
        let (key, cnt) = h[e];
        proof {
            assert(e < 0x1_0000_0000_0000_0000);
            assert(-(e as int) * 0x8000_0000_0000_0000 - 0x8000_0000_0000_0000 == -(e + 1) * 0x8000_0000_0000_0000);
            assert((e as int) * 0x7fff_ffff_ffff_ffff + 0x7fff_ffff_ffff_ffff == (e + 1) * 0x7fff_ffff_ffff_ffff);
            assert((e + 1) * 0x7fff_ffff_ffff_ffff <= 0x1_0000_0000_0000_0000 * 0x7fff_ffff_ffff_ffff) by (nonlinear_arith)
                requires e < 0x1_0000_0000_0000_0000;
            assert((e + 1) * 0x8000_0000_0000_0000 <= 0x1_0000_0000_0000_0000 * 0x8000_0000_0000_0000) by (nonlinear_arith)
                requires e < 0x1_0000_0000_0000_0000;
        }
        if let Some(c) = cnt {
            if key <= k {
                acc = acc + c as i128;
            }
        }
        e = e + 1;
    }
    assert(h@.take(e as int) =~= h@);
    acc
}

/// The cumulative table of the columns' histograms: every key any column
/// has, once and in increasing order, with each column's count of samples
/// at or below it.
pub fn cumulative(hists: &Vec<Histogram>) -> (r: Cumulative)
    ensures
        is_cumulative(hist_views(hists@), r),
{
    let ghost hs = hist_views(hists@);
    let mut keys: Vec<i64> = Vec::new();
    let mut c: usize = 0;
    while c < hists.len()
        invariant
            c <= hists@.len(),
            hs == hist_views(hists@),
            increasing(keys@),
            forall|k: i64| keys@.contains(k) <==> in_columns(hs, k, c as int),
        decreases hists@.len() - c,
    {
        let h = &hists[c];
        assert(hs[c as int] == h@);
        let mut e: usize = 0;
        while e < h.len()
            invariant
                e <= h@.len(),
                c < hists@.len(),
                hs == hist_views(hists@),
                hs[c as int] == h@,
                increasing(keys@),
                forall|k: i64|
                    keys@.contains(k) <==> (in_columns(hs, k, c as int) || in_column(h@, k, e as int)),
            decreases h@.len() - e,
        {
            let ghost old_keys = keys@;
            insert_key(&mut keys, h[e].0);
            assert forall|k: i64|
                keys@.contains(k) <==> (in_columns(hs, k, c as int) || in_column(h@, k, e + 1)) by {
                if in_column(h@, k, e + 1) && !in_column(h@, k, e as int) {
                    let w = choose|w: int| 0 <= w < e + 1 && w < h@.len() && #[trigger] h@[w].0 == k;
                    assert(w == e);
                }
                if in_column(h@, k, e as int) {
                    let w = choose|w: int| 0 <= w < e && w < h@.len() && #[trigger] h@[w].0 == k;
                    assert(in_column(h@, k, e + 1));
                }
                if k == h@[e as int].0 {
                    assert(in_column(h@, k, e + 1));
                }
            }
            e = e + 1;
        }
        assert forall|k: i64| keys@.contains(k) <==> in_columns(hs, k, c + 1) by {
            if in_columns(hs, k, c + 1) && !in_columns(hs, k, c as int) {
                let w = choose|w: int|
                    0 <= w < c + 1 && w < hs.len() && #[trigger] in_column(hs[w], k, hs[w].len() as int);
                assert(w == c);
            }
            if in_column(h@, k, e as int) {
                assert(in_column(hs[c as int], k, hs[c as int].len() as int));
            }
        }
        c = c + 1;
    }
    let mut rows: Vec<Vec<i128>> = Vec::new();
    let mut i: usize = 0;
    while i < keys.len()
        invariant
            i <= keys@.len(),
            hs == hist_views(hists@),
            rows@.len() == i,
            forall|j: int|
                0 <= j < i ==> {
                    &&& (#[trigger] rows@[j])@.len() == hs.len()
                    &&& forall|c: int| 0 <= c < hs.len() ==> rows@[j]@[c] == count_upto(hs[c], keys@[j] as int)
                },
        decreases keys@.len() - i,
    {
        let mut row: Vec<i128> = Vec::new();
        let mut c: usize = 0;
        while c < hists.len()
            invariant
                c <= hists@.len(),
                i < keys@.len(),
                hs == hist_views(hists@),
                row@.len() == c,
                forall|d: int| 0 <= d < c ==> row@[d] == count_upto(hs[d], keys@[i as int] as int),
            decreases hists@.len() - c,
        {
            assert(hs[c as int] == hists@[c as int]@);
            row.push(count_upto_exec(&hists[c], keys[i]));
            c = c + 1;
        }
        rows.push(row);
        i = i + 1;
    }
    Cumulative { keys, rows }
}

/// Where no count is negative, a column's running count never falls as the
/// key grows.
pub proof fn lemma_count_upto_monotone(h: Seq<(i64, Option<i64>)>, k1: int, k2: int)
    requires
        k1 <= k2,
        forall|e: int| 0 <= e < h.len() && h[e].1 is Some ==> h[e].1->0 >= 0,
    ensures
        count_upto(h, k1) <= count_upto(h, k2),
    decreases h.len(),
{
    if h.len() > 0 {
        lemma_count_upto_monotone(h.drop_last(), k1, k2);
        assert(h.last() == h[h.len() - 1]);
    }
}

/// At a key no smaller than any of the column's keys, the running count is
/// the column's total.
pub proof fn lemma_count_upto_total(h: Seq<(i64, Option<i64>)>, k: int)
    requires
        forall|e: int| 0 <= e < h.len() ==> h[e].0 <= k,
    ensures
        count_upto(h, k) == count_all(h),
    decreases h.len(),
{
    if h.len() > 0 {
        lemma_count_upto_total(h.drop_last(), k);
        assert(h.last() == h[h.len() - 1]);
    }
}


/// Where a column has no negative count, its running count never falls from
/// one row of the cumulative table to a later one.
pub proof fn lemma_rows_never_fall(
    hs: Seq<Seq<(i64, Option<i64>)>>,
    r: Cumulative,
    i: int,
    j: int,
    c: int,
)
    requires
        is_cumulative(hs, r),
        0 <= i <= j < r.keys@.len(),
        0 <= c < hs.len(),
        forall|e: int| 0 <= e < hs[c].len() && hs[c][e].1 is Some ==> hs[c][e].1->0 >= 0,
    ensures
        r.rows@[i]@[c] <= r.rows@[j]@[c],
{
    assert(r.keys@[i] <= r.keys@[j]);
    assert(r.rows@[i]@.len() == hs.len());
    assert(r.rows@[j]@.len() == hs.len());
    lemma_count_upto_monotone(hs[c], r.keys@[i] as int, r.keys@[j] as int);
}

/// The last row of the cumulative table holds each column's total count.
pub proof fn lemma_last_row_total(hs: Seq<Seq<(i64, Option<i64>)>>, r: Cumulative, c: int)
    requires
        is_cumulative(hs, r),
        r.keys@.len() > 0,
        0 <= c < hs.len(),
    ensures
        r.rows@.last()@[c] == count_all(hs[c]),
{
    let n = r.keys@.len() - 1;
    let top = r.keys@[n];
    assert forall|e: int| 0 <= e < hs[c].len() implies hs[c][e].0 <= top by {
        let k = hs[c][e].0;
        assert(in_column(hs[c], k, hs[c].len() as int));
        assert(in_columns(hs, k, hs.len() as int));
        assert(r.keys@.contains(k));
        let m = choose|m: int| 0 <= m < r.keys@.len() && r.keys@[m] == k;
        if m < n {
            assert(r.keys@[m] < r.keys@[n]);
        }
    }
    assert(r.rows@[n]@.len() == hs.len());
    lemma_count_upto_total(hs[c], top as int);
}


/// Whether a cumulative cell is shown for `key`: the column counted some
/// zombies (`count`) out of a positive total, and `key` lies within its
/// known bounds.
pub open spec fn in_range(count: i64, total: i64, min: Option<i64>, max: Option<i64>, key: i64) -> bool {
    &&& count > 0
    &&& total > 0
    &&& min matches Some(m) && key >= m
    &&& max matches Some(m) && key <= m
}

pub fn key_in_range(count: i64, total: i64, min: Option<i64>, max: Option<i64>, key: i64) -> (r: bool)
    ensures
        r == in_range(count, total, min, max, key),
{
    if count <= 0 || total <= 0 {
        return false;
    }
    match (min, max) {
        (Some(lo), Some(hi)) => key >= lo && key <= hi,
        _ => false,
    }
}

} // verus!
