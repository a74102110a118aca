//! The pogo table: for each tick, the landing ranges that collect the pogo
//! zombies of the row above, the same row and the row below.
use vstd::prelude::*;
use crate::seml::names::joined;
use crate::text::{int_text, push_int_text, push_str, string_of};

verus! {

/// One tick of the pogo result: the ranges for the rows above, same and
/// below, each `None` where the emulator found none.
pub struct PogoTick {
    pub tick: i64,
    pub ranges: Vec<Option<(i64, i64)>>,
}

pub struct PogoTickV {
    pub tick: i64,
    pub ranges: Seq<Option<(i64, i64)>>,
}

impl View for PogoTick {
    type V = PogoTickV;

    open spec fn view(&self) -> PogoTickV {
        PogoTickV { tick: self.tick, ranges: self.ranges@ }
    }
}

pub open spec fn ticks_view(v: Seq<PogoTick>) -> Seq<PogoTickV> {
    Seq::new(v.len(), |i: int| v[i]@)
}

/// Range `k` of a tick as CSV cells: `min,max,`, or `ERR,ERR,` where there is none.
pub open spec fn csv_range(r: Seq<Option<(i64, i64)>>, k: int) -> Seq<char> {
    if 0 <= k < r.len() {
        match r[k] {
            Some((a, b)) => int_text(a as int) + ","@ + int_text(b as int) + ","@,
            None => "ERR,ERR,"@,
        }
    } else {
        "ERR,ERR,"@
    }
}

/// A CSV row: the tick, then the ranges from the row below up to the row above.
pub open spec fn csv_row(t: PogoTickV) -> Seq<char> {
    int_text(t.tick as int) + ","@ + csv_range(t.ranges, 2) + csv_range(t.ranges, 1) + csv_range(
        t.ranges,
        0,
    ) + "\n"@
}

pub open spec fn csv_rows(ts: Seq<PogoTickV>, n: int) -> Seq<char>
    decreases n,
{
    if n <= 0 {
        Seq::empty()
    } else {
        csv_rows(ts, n - 1) + csv_row(ts[n - 1])
    }
}

pub open spec fn pogo_csv_text(ts: Seq<PogoTickV>) -> Seq<char> {
    "时刻,收上行跳跳左,右,收本行跳跳左,右,收下行跳跳左,右,\n"@ + csv_rows(ts, ts.len() as int)
}

fn push_csv_range(out: &mut Vec<char>, r: &Vec<Option<(i64, i64)>>, k: usize)
    ensures
        final(out)@ == old(out)@ + csv_range(r@, k as int),
{
    if k < r.len() {
        if let Some((a, b)) = r[k] {
            push_int_text(out, a as i128);
            push_str(out, ",");
            push_int_text(out, b as i128);
            push_str(out, ",");
            return;
        }
    }
    push_str(out, "ERR,ERR,");
}

/// The pogo CSV body.
pub fn pogo_csv(ticks: &Vec<PogoTick>) -> (r: String)
    ensures
        r@ == pogo_csv_text(ticks_view(ticks@)),
{
    let ghost tv = ticks_view(ticks@);
    let mut out: Vec<char> = Vec::new();
    push_str(&mut out, "时刻,收上行跳跳左,右,收本行跳跳左,右,收下行跳跳左,右,\n");
    let mut i: usize = 0;
    while i < ticks.len()
        invariant
            i <= ticks@.len(),
            tv == ticks_view(ticks@),
            out@ == "时刻,收上行跳跳左,右,收本行跳跳左,右,收下行跳跳左,右,\n"@ + csv_rows(tv, i as int),
        decreases ticks@.len() - i,
    {
        let t = &ticks[i];
        assert(tv[i as int] == t@);
        push_int_text(&mut out, t.tick as i128);
        push_str(&mut out, ",");
        push_csv_range(&mut out, &t.ranges, 2);
        push_csv_range(&mut out, &t.ranges, 1);
        push_csv_range(&mut out, &t.ranges, 0);
        push_str(&mut out, "\n");
        i = i + 1;
        assert(out@ =~= "时刻,收上行跳跳左,右,收本行跳跳左,右,收下行跳跳左,右,\n"@ + csv_rows(tv, i as int));
    }
    string_of(out.as_slice())
}

/// Whether a tick has some range at all.
pub open spec fn visible(t: PogoTickV) -> bool {
    exists|k: int| 0 <= k < t.ranges.len() && t.ranges[k] is Some
}

/// The text padded with spaces to at least `w` characters (`{:<w}`).
pub open spec fn pad(s: Seq<char>, w: int) -> Seq<char> {
    if s.len() >= w {
        s
    } else {
        s + Seq::new((w - s.len()) as nat, |_i: int| ' ')
    }
}

/// Range `k` of a tick in the table: `min~max`, or `ERR`.
pub open spec fn table_range(r: Seq<Option<(i64, i64)>>, k: int) -> Seq<char> {
    if 0 <= k < r.len() {
        match r[k] {
            Some((a, b)) => int_text(a as int) + "~"@ + int_text(b as int),
            None => "ERR"@,
        }
    } else {
        "ERR"@
    }
}

pub open spec fn table_line(t: PogoTickV) -> Seq<char> {
    "  "@ + pad(int_text(t.tick as int), 8) + " "@ + pad(table_range(t.ranges, 0), 14) + " "@ + pad(
        table_range(t.ranges, 1),
        14,
    ) + " "@ + pad(table_range(t.ranges, 2), 14)
}

/// The ticks that have some range, in order.
pub open spec fn visible_ticks(ts: Seq<PogoTickV>) -> Seq<PogoTickV> {
    ts.filter(|t: PogoTickV| visible(t))
}

/// The table lines of the ticks that have some range; in compact form only
/// the first, the last and every fiftieth tick among them.
/// The first tick that has a range (`start` where none has).
pub open spec fn first_shown(ts: Seq<PogoTickV>, start: i64) -> i64 {
    let vis = visible_ticks(ts);
    if vis.len() > 0 {
        vis[0].tick
    } else {
        start
    }
}

/// The last tick that has a range (`start` where none has).
pub open spec fn last_shown(ts: Seq<PogoTickV>, start: i64) -> i64 {
    let vis = visible_ticks(ts);
    if vis.len() > 0 {
        vis.last().tick
    } else {
        start
    }
}

/// Whether a tick's line stays: always in full form; in compact form at the
/// ends and on every fiftieth tick.
pub open spec fn kept(t: PogoTickV, compact: bool, first: i64, last: i64) -> bool {
    !compact || (t.tick == first || t.tick == last || t.tick % 50 == 0)
}

pub open spec fn table_lines(ts: Seq<PogoTickV>, start: i64, compact: bool) -> Seq<Seq<char>> {
    visible_ticks(ts).filter(
        |t: PogoTickV| kept(t, compact, first_shown(ts, start), last_shown(ts, start)),
    ).map_values(|t: PogoTickV| table_line(t))
}

fn push_padded(out: &mut Vec<char>, s: &Vec<char>, w: usize)
    ensures
        final(out)@ == old(out)@ + pad(s@, w as int),
{
    crate::text::append(out, s.as_slice());
    let mut n = s.len();
    let ghost base = old(out)@ + s@;
    while n < w
        invariant
            s@.len() <= n <= w || (n == s@.len() && n >= w),
            out@ == base + Seq::new((n - s@.len()) as nat, |_i: int| ' '),
        decreases w - n,
    {
        out.push(' ');
        n = n + 1;
        assert(out@ =~= base + Seq::new((n - s@.len()) as nat, |_i: int| ' '));
    }
    assert(out@ =~= old(out)@ + pad(s@, w as int));
}

fn range_cell(r: &Vec<Option<(i64, i64)>>, k: usize) -> (c: Vec<char>)
    ensures
        c@ == table_range(r@, k as int),
{
    let mut c: Vec<char> = Vec::new();
    if k < r.len() {
        if let Some((a, b)) = r[k] {
            push_int_text(&mut c, a as i128);
            push_str(&mut c, "~");
            push_int_text(&mut c, b as i128);
            return c;
        }
    }
    push_str(&mut c, "ERR");
    c
}

fn is_visible(t: &PogoTick) -> (r: bool)
    ensures
        r == visible(t@),
{
    let mut k: usize = 0;
    while k < t.ranges.len()
        invariant
            k <= t.ranges@.len(),
            forall|j: int| 0 <= j < k ==> t.ranges@[j] is None,
        decreases t.ranges@.len() - k,
    {
        if t.ranges[k].is_some() {
            return true;
        }
        k = k + 1;
    }
    false
}

/// The body lines of the pogo table.
pub fn pogo_lines(ticks: &Vec<PogoTick>, start: i64, compact: bool) -> (r: Vec<String>)
    ensures
        crate::seml::reuse::string_views(r@) == table_lines(ticks_view(ticks@), start, compact),
{
    let ghost tv = ticks_view(ticks@);
    let ghost vpred = |t: PogoTickV| visible(t);
    let mut vis: Vec<usize> = Vec::new();
    let mut i: usize = 0;
    assert(tv.take(0).filter(vpred) =~= Seq::<PogoTickV>::empty()) by {
        reveal(Seq::filter);
    }
    while i < ticks.len()
        invariant
            i <= ticks@.len(),
            tv == ticks_view(ticks@),
            vpred == (|t: PogoTickV| visible(t)),
            forall|j: int| 0 <= j < vis@.len() ==> vis@[j] < ticks@.len(),
            Seq::new(vis@.len(), |j: int| tv[vis@[j] as int]) == tv.take(i as int).filter(vpred),
        decreases ticks@.len() - i,
    {
        let ghost before = Seq::new(vis@.len(), |j: int| tv[vis@[j] as int]);
        assert(tv.take(i + 1) =~= tv.take(i as int).push(tv[i as int]));
        proof {
            tv.take(i as int).lemma_filter_push(tv[i as int], vpred);
        }
        assert(tv[i as int] == ticks@[i as int]@);
        if is_visible(&ticks[i]) {
            vis.push(i);
            assert(Seq::new(vis@.len(), |j: int| tv[vis@[j] as int]) =~= before.push(tv[i as int]));
        } else {
            assert(Seq::new(vis@.len(), |j: int| tv[vis@[j] as int]) =~= before);
        }
        i = i + 1;
    }
    assert(tv.take(i as int) =~= tv);
    let ghost vs = visible_ticks(tv);
    assert(Seq::new(vis@.len(), |j: int| tv[vis@[j] as int]) == vs);
    let first = if vis.len() > 0 {
        ticks[vis[0]].tick
    } else {
        start
    };
    let last = if vis.len() > 0 {
        ticks[vis[vis.len() - 1]].tick
    } else {
        start
    };
    proof {
        if vis@.len() > 0 {
            assert(vs[0] == tv[vis@[0] as int]);
            assert(vs.last() == tv[vis@[vis@.len() - 1] as int]);
        }
    }
    assert(first == first_shown(tv, start) && last == last_shown(tv, start));
    let ghost keep = |t: PogoTickV| kept(t, compact, first_shown(tv, start), last_shown(tv, start));
    let ghost f = |t: PogoTickV| table_line(t);
    let mut out: Vec<String> = Vec::new();
    let mut k: usize = 0;
    assert(vs.take(0).filter(keep) =~= Seq::<PogoTickV>::empty()) by {
        reveal(Seq::filter);
    }
    while k < vis.len()
        invariant
            k <= vis@.len(),
            forall|j: int| 0 <= j < vis@.len() ==> vis@[j] < ticks@.len(),
            tv == ticks_view(ticks@),
            vs == Seq::new(vis@.len(), |j: int| tv[vis@[j] as int]),
            first == first_shown(tv, start),
            last == last_shown(tv, start),
            keep == (|t: PogoTickV| kept(t, compact, first_shown(tv, start), last_shown(tv, start))),
            f == (|t: PogoTickV| table_line(t)),
            crate::seml::reuse::string_views(out@) == vs.take(k as int).filter(keep).map_values(f),
        decreases vis@.len() - k,
    {
        let t = &ticks[vis[k]];
        assert(vs[k as int] == t@);
        assert(vs.take(k + 1) =~= vs.take(k as int).push(vs[k as int]));
        proof {
            vs.take(k as int).lemma_filter_push(vs[k as int], keep);
        }
        let ghost o = crate::seml::reuse::string_views(out@);
        if !compact || crate::seml::names::sample_tick(t.tick, first, last) {
            let mut line: Vec<char> = Vec::new();
            push_str(&mut line, "  ");
            let mut tt: Vec<char> = Vec::new();
            push_int_text(&mut tt, t.tick as i128);
            push_padded(&mut line, &tt, 8);
            push_str(&mut line, " ");
            let c0 = range_cell(&t.ranges, 0);
            push_padded(&mut line, &c0, 14);
            push_str(&mut line, " ");
            let c1 = range_cell(&t.ranges, 1);
            push_padded(&mut line, &c1, 14);
            push_str(&mut line, " ");
            let c2 = range_cell(&t.ranges, 2);
            push_padded(&mut line, &c2, 14);
            assert(line@ =~= table_line(t@));
            out.push(string_of(line.as_slice()));
            assert(crate::seml::reuse::string_views(out@) =~= o.push(table_line(t@)));
            assert(vs.take(k as int).filter(keep).push(vs[k as int]).map_values(f) =~= vs.take(
                k as int,
            ).filter(keep).map_values(f).push(f(vs[k as int])));
        }
        k = k + 1;
    }
    assert(vs.take(k as int) =~= vs);
    out
}


/// The compact table only leaves lines out: each of its lines is a line of
/// the full table.
pub proof fn lemma_compact_lines_in_full(ts: Seq<PogoTickV>, start: i64, i: int)
    requires
        0 <= i < table_lines(ts, start, true).len(),
    ensures
        table_lines(ts, start, false).contains(table_lines(ts, start, true)[i]),
{
    let vis = visible_ticks(ts);
    let keep_c = |t: PogoTickV| kept(t, true, first_shown(ts, start), last_shown(ts, start));
    let keep_f = |t: PogoTickV| kept(t, false, first_shown(ts, start), last_shown(ts, start));
    let f = |t: PogoTickV| table_line(t);
    let kc = vis.filter(keep_c);
    assert(table_lines(ts, start, true) == kc.map_values(f));
    assert(kc.contains(kc[i]));
    vis.lemma_filter_contains_rev(keep_c, kc[i]);
    let j = choose|j: int| 0 <= j < vis.len() && vis[j] == kc[i];
    lemma_filter_all(vis, keep_f);
    assert(table_lines(ts, start, false) == vis.filter(keep_f).map_values(f));
    assert(table_lines(ts, start, false)[j] == f(vis[j]));
}

proof fn lemma_filter_all(s: Seq<PogoTickV>, p: spec_fn(PogoTickV) -> bool)
    requires
        forall|t: PogoTickV| #[trigger] p(t),
    ensures
        s.filter(p) == s,
    decreases s.len(),
{
    reveal(Seq::filter);
    if s.len() > 0 {
        lemma_filter_all(s.drop_last(), p);
        assert(s.drop_last().push(s.last()) =~= s);
    }
}

/// The compact table keeps the first and the last tick that has a range.
pub proof fn lemma_compact_keeps_ends(ts: Seq<PogoTickV>, start: i64)
    requires
        visible_ticks(ts).len() > 0,
    ensures
        table_lines(ts, start, true).contains(table_line(visible_ticks(ts)[0])),
        table_lines(ts, start, true).contains(table_line(visible_ticks(ts).last())),
{
    let vis = visible_ticks(ts);
    let keep = |t: PogoTickV| kept(t, true, first_shown(ts, start), last_shown(ts, start));
    let f = |t: PogoTickV| table_line(t);
    let kc = vis.filter(keep);
    vis.lemma_filter_contains(keep, 0);
    vis.lemma_filter_contains(keep, vis.len() - 1);
    let a = choose|a: int| 0 <= a < kc.len() && kc[a] == vis[0];
    let b = choose|b: int| 0 <= b < kc.len() && kc[b] == vis[vis.len() - 1];
    assert(table_lines(ts, start, true) == kc.map_values(f));
    assert(kc.map_values(f)[a] == f(vis[0]));
    assert(kc.map_values(f)[b] == f(vis.last()));
}

} // verus!
