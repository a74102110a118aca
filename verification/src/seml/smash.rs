//! The smash CSV's layout: the wave header, the rate rows per protected
//! position, and the op-state table with its wave markers, counts and
//! per-row smashes. The rates themselves are fractional and come in as text.
use vstd::prelude::*;
use crate::seml::names::{op_state_text, op_state_to_string};
use crate::seml::reuse::string_views;
use crate::text::{int_text, push_int_text, push_str, string_of};

verus! {

/// The total of the first summary entry for `wave` from index `i` on, or 0.
pub open spec fn total_from(summary: Seq<(i64, i64)>, wave: i64, i: int) -> i64
    decreases summary.len() - i,
{
    if i >= summary.len() || i < 0 {
        0
    } else if summary[i].0 == wave {
        summary[i].1
    } else {
        total_from(summary, wave, i + 1)
    }
}

/// The gargantuar total of `wave` among (wave, total) summary entries: that
/// of the first entry for it, 0 where there is none.
pub fn wave_total(summary: &Vec<(i64, i64)>, wave: i64) -> (r: i64)
    ensures
        r == total_from(summary@, wave, 0),
{
    let mut i: usize = 0;
    while i < summary.len()
        invariant
            i <= summary@.len(),
            total_from(summary@, wave, 0) == total_from(summary@, wave, i as int),
        decreases summary@.len() - i,
    {
        if summary[i].0 == wave {
            return summary[i].1;
        }
        i = i + 1;
    }
    0
}

/// The smashes a per-row list gives for row `row` (rows count from 1): its
/// entry where there is one, 0 otherwise.
pub open spec fn row_count(by_row: Seq<i64>, row: i64) -> i64 {
    if 1 <= row <= by_row.len() {
        by_row[row - 1]
    } else {
        0
    }
}

pub fn smashed_in_row(by_row: &Vec<i64>, row: i64) -> (r: i64)
    requires
        row > i64::MIN,
    ensures
        r == row_count(by_row@, row),
{
    if row >= 1 {
        let k = (row - 1) as u64;
        if k < by_row.len() as u64 {
            return by_row[k as usize];
        }
    }
    0
}

/// The fractional rates of the CSV, already written out: one per summary
/// wave for the total row, one per protected position and summary wave, and
/// one per op-state row.
pub struct SmashRates {
    pub totals: Vec<String>,
    pub protect: Vec<Vec<String>>,
    pub table: Vec<String>,
}

pub struct SmashRatesV {
    pub totals: Seq<Seq<char>>,
    pub protect: Seq<Seq<Seq<char>>>,
    pub table: Seq<Seq<char>>,
}

impl View for SmashRates {
    type V = SmashRatesV;

    open spec fn view(&self) -> SmashRatesV {
        SmashRatesV {
            totals: string_views(self.totals@),
            protect: Seq::new(self.protect@.len(), |i: int| string_views(self.protect@[i]@)),
            table: string_views(self.table@),
        }
    }
}

pub open spec fn action_views(v: Seq<(i64, String)>) -> Seq<(i64, Seq<char>)> {
    Seq::new(v.len(), |i: int| (v[i].0, v[i].1@))
}

pub open spec fn table_views(v: Seq<(i64, i64, i64, Vec<i64>, Vec<i64>)>) -> Seq<
    (i64, i64, i64, Seq<i64>, Seq<i64>),
> {
    Seq::new(v.len(), |i: int| (v[i].0, v[i].1, v[i].2, v[i].3@, v[i].4@))
}

/// `w<wave>,` for each summary wave.
pub open spec fn wave_cells(waves: Seq<i64>, n: int) -> Seq<char>
    decreases n,
{
    if n <= 0 {
        Seq::empty()
    } else {
        wave_cells(waves, n - 1) + "w"@ + int_text(waves[n - 1] as int) + ","@
    }
}

/// Each text followed by a comma.
pub open spec fn text_cells(rs: Seq<Seq<char>>, n: int) -> Seq<char>
    decreases n,
{
    if n <= 0 {
        Seq::empty()
    } else {
        text_cells(rs, n - 1) + rs[n - 1] + ","@
    }
}

/// `<row>路<col>` and `炮,` for a cob, `普通,` for another plant.
pub open spec fn protect_label(p: (i64, i64, bool)) -> Seq<char> {
    int_text(p.0 as int) + "路"@ + int_text(p.1 as int) + if p.2 {
        "炮,"@
    } else {
        "普通,"@
    }
}

pub open spec fn protect_rows(protect: Seq<(i64, i64, bool)>, rates: Seq<Seq<Seq<char>>>, n: int) -> Seq<
    char,
>
    decreases n,
{
    if n <= 0 {
        Seq::empty()
    } else {
        protect_rows(protect, rates, n - 1) + protect_label(protect[n - 1]) + text_cells(
            rates[n - 1],
            rates[n - 1].len() as int,
        ) + "\n"@
    }
}

/// Action `k` opens a wave: its wave differs from the action before (for
/// the first, from the lowest wave number).
pub open spec fn opens_wave(acts: Seq<(i64, Seq<char>)>, k: int) -> bool {
    if k == 0 {
        acts[0].0 != i64::MIN
    } else {
        acts[k].0 != acts[k - 1].0
    }
}

/// Each action's description, after a `[w<wave>] ` marker where it
/// opens a wave, followed by a comma.
pub open spec fn action_cells(acts: Seq<(i64, Seq<char>)>, n: int) -> Seq<char>
    decreases n,
{
    if n <= 0 {
        Seq::empty()
    } else {
        action_cells(acts, n - 1) + (if opens_wave(acts, n - 1) {
            "[w"@ + int_text(acts[n - 1].0 as int) + "] "@
        } else {
            Seq::empty()
        }) + acts[n - 1].1 + ","@
    }
}

/// `<row>路,` for each protected position.
pub open spec fn row_heads(protect: Seq<(i64, i64, bool)>, n: int) -> Seq<char>
    decreases n,
{
    if n <= 0 {
        Seq::empty()
    } else {
        row_heads(protect, n - 1) + int_text(protect[n - 1].0 as int) + "路,"@
    }
}

pub open spec fn op_cells(ops: Seq<i64>, n: int) -> Seq<char>
    decreases n,
{
    if n <= 0 {
        Seq::empty()
    } else {
        op_cells(ops, n - 1) + op_state_text(ops[n - 1]) + ","@
    }
}

/// For each protected position, the smashes its row took.
pub open spec fn smash_cells(by_row: Seq<i64>, protect: Seq<(i64, i64, bool)>, n: int) -> Seq<char>
    decreases n,
{
    if n <= 0 {
        Seq::empty()
    } else {
        smash_cells(by_row, protect, n - 1) + int_text(row_count(by_row, protect[n - 1].0) as int)
            + ","@
    }
}

/// One op-state row: wave, rate, smashed, total, the op states, then the
/// smashes per protected row.
pub open spec fn table_row(
    r: (i64, i64, i64, Seq<i64>, Seq<i64>),
    rate: Seq<char>,
    protect: Seq<(i64, i64, bool)>,
) -> Seq<char> {
    int_text(r.0 as int) + ","@ + rate + ","@ + int_text(r.1 as int) + ","@ + int_text(r.2 as int)
        + ","@ + op_cells(r.3, r.3.len() as int) + smash_cells(r.4, protect, protect.len() as int)
        + "\n"@
}

pub open spec fn table_rows(
    table: Seq<(i64, i64, i64, Seq<i64>, Seq<i64>)>,
    rates: Seq<Seq<char>>,
    protect: Seq<(i64, i64, bool)>,
    n: int,
) -> Seq<char>
    decreases n,
{
    if n <= 0 {
        Seq::empty()
    } else {
        table_rows(table, rates, protect, n - 1) + table_row(table[n - 1], rates[n - 1], protect)
    }
}

/// The whole smash CSV.
pub open spec fn smash_csv_text(
    waves: Seq<i64>,
    protect: Seq<(i64, i64, bool)>,
    acts: Seq<(i64, Seq<char>)>,
    table: Seq<(i64, i64, i64, Seq<i64>, Seq<i64>)>,
    rates: SmashRatesV,
) -> Seq<char> {
    "单波砸率,"@ + wave_cells(waves, waves.len() as int) + "\n"@ + "总和,"@ + text_cells(
        rates.totals,
        rates.totals.len() as int,
    ) + "\n"@ + protect_rows(protect, rates.protect, protect.len() as int)
        + "\n出生波数,单波砸率,砸炮数,总数,"@ + action_cells(acts, acts.len() as int) + row_heads(
        protect,
        protect.len() as int,
    ) + "\n"@ + table_rows(table, rates.table, protect, table.len() as int)
}

fn push_text_cells(out: &mut Vec<char>, rs: &Vec<String>)
    ensures
        final(out)@ == old(out)@ + text_cells(string_views(rs@), rs@.len() as int),
{
    let ghost v = string_views(rs@);
    let mut k: usize = 0;
    while k < rs.len()
        invariant
            k <= rs@.len(),
            v == string_views(rs@),
            out@ == old(out)@ + text_cells(v, k as int),
        decreases rs@.len() - k,
    {
        push_str(out, rs[k].as_str());
        push_str(out, ",");
        k = k + 1;
        assert(out@ =~= old(out)@ + text_cells(v, k as int));
    }
}

fn push_protect_row(out: &mut Vec<char>, p: (i64, i64, bool), rates: &Vec<String>)
    ensures
        final(out)@ == old(out)@ + protect_label(p) + text_cells(
            string_views(rates@),
            rates@.len() as int,
        ) + "\n"@,
{
    let mut t: Vec<char> = Vec::new();
    push_int_text(&mut t, p.0 as i128);
    push_str(&mut t, "路");
    push_int_text(&mut t, p.1 as i128);
    if p.2 {
        push_str(&mut t, "炮,");
    } else {
        push_str(&mut t, "普通,");
    }
    assert(t@ =~= protect_label(p));
    push_text_cells(&mut t, rates);
    push_str(&mut t, "\n");
    crate::text::append(out, t.as_slice());
    assert(out@ =~= old(out)@ + protect_label(p) + text_cells(
        string_views(rates@),
        rates@.len() as int,
    ) + "\n"@);
}

fn push_table_row(
    out: &mut Vec<char>,
    r: &(i64, i64, i64, Vec<i64>, Vec<i64>),
    rate: &String,
    protect: &Vec<(i64, i64, bool)>,
)
    requires
        forall|j: int| 0 <= j < protect@.len() ==> protect@[j].0 > i64::MIN,
    ensures
        final(out)@ == old(out)@ + table_row((r.0, r.1, r.2, r.3@, r.4@), rate@, protect@),
{
    let mut t: Vec<char> = Vec::new();
    push_int_text(&mut t, r.0 as i128);
    push_str(&mut t, ",");
    push_str(&mut t, rate.as_str());
    push_str(&mut t, ",");
    push_int_text(&mut t, r.1 as i128);
    push_str(&mut t, ",");
    push_int_text(&mut t, r.2 as i128);
    push_str(&mut t, ",");
    let ghost a = t@;
    let mut k: usize = 0;
    while k < r.3.len()
        invariant
            k <= r.3@.len(),
            t@ == a + op_cells(r.3@, k as int),
        decreases r.3@.len() - k,
    {
        push_str(&mut t, op_state_to_string(r.3[k]));
        push_str(&mut t, ",");
        k = k + 1;
        assert(t@ =~= a + op_cells(r.3@, k as int));
    }
    let ghost b = t@;
    let mut k: usize = 0;
    while k < protect.len()
        invariant
            k <= protect@.len(),
            forall|j: int| 0 <= j < protect@.len() ==> protect@[j].0 > i64::MIN,
            t@ == b + smash_cells(r.4@, protect@, k as int),
        decreases protect@.len() - k,
    {
        let c = smashed_in_row(&r.4, protect[k].0);
        push_int_text(&mut t, c as i128);
        push_str(&mut t, ",");
        k = k + 1;
        assert(t@ =~= b + smash_cells(r.4@, protect@, k as int));
    }
    push_str(&mut t, "\n");
    assert(t@ =~= table_row((r.0, r.1, r.2, r.3@, r.4@), rate@, protect@));
    crate::text::append(out, t.as_slice());
}

/// The smash CSV: the wave header, the total rate row, a rate row per
/// protected position, then the op-state table, whose header marks each
/// wave's first action with `[w<wave>] ` and whose rows give, per protected
/// position, the smashes its row took (0 where the row has none listed).
pub fn smash_csv(
    waves: &Vec<i64>,
    protect: &Vec<(i64, i64, bool)>,
    actions: &Vec<(i64, String)>,
    table: &Vec<(i64, i64, i64, Vec<i64>, Vec<i64>)>,
    rates: &SmashRates,
) -> (r: String)
    requires
        rates.protect@.len() == protect@.len(),
        rates.table@.len() == table@.len(),
        forall|j: int| 0 <= j < protect@.len() ==> protect@[j].0 > i64::MIN,
    ensures
        r@ == smash_csv_text(waves@, protect@, action_views(actions@), table_views(table@), rates@),
{
    let ghost rv = rates@;
    let ghost tv = table_views(table@);
    let ghost av = action_views(actions@);
    let mut out: Vec<char> = Vec::new();
    push_str(&mut out, "单波砸率,");
    let ghost h = out@;
    let mut k: usize = 0;
    while k < waves.len()
        invariant
            k <= waves@.len(),
            out@ == h + wave_cells(waves@, k as int),
        decreases waves@.len() - k,
    {
        push_str(&mut out, "w");
        push_int_text(&mut out, waves[k] as i128);
        push_str(&mut out, ",");
        k = k + 1;
        assert(out@ =~= h + wave_cells(waves@, k as int));
    }
    push_str(&mut out, "\n");
    push_str(&mut out, "总和,");
    push_text_cells(&mut out, &rates.totals);
    push_str(&mut out, "\n");
    let ghost p0 = out@;
    let mut k: usize = 0;
    while k < protect.len()
        invariant
            k <= protect@.len(),
            rates.protect@.len() == protect@.len(),
            rv == rates@,
            out@ == p0 + protect_rows(protect@, rv.protect, k as int),
        decreases protect@.len() - k,
    {
        assert(rv.protect[k as int] == string_views(rates.protect@[k as int]@));
        push_protect_row(&mut out, protect[k], &rates.protect[k]);
        assert(protect_rows(protect@, rv.protect, k + 1) == protect_rows(protect@, rv.protect, k as int)
            + protect_label(protect@[k as int]) + text_cells(
            rv.protect[k as int],
            rv.protect[k as int].len() as int,
        ) + "\n"@);
        k = k + 1;
        assert(out@ =~= p0 + protect_rows(protect@, rv.protect, k as int));
    }
    push_str(&mut out, "\n出生波数,单波砸率,砸炮数,总数,");
    let ghost a0 = out@;
    let mut prev: i64 = i64::MIN;
    let mut k: usize = 0;
    while k < actions.len()
        invariant
            k <= actions@.len(),
            av == action_views(actions@),
            k > 0 ==> prev == actions@[k - 1].0,
            k == 0 ==> prev == i64::MIN,
            out@ == a0 + action_cells(av, k as int),
        decreases actions@.len() - k,
    {
        let w = actions[k].0;
        if w != prev {
            push_str(&mut out, "[w");
            push_int_text(&mut out, w as i128);
            push_str(&mut out, "] ");
        }
        prev = w;
        push_str(&mut out, actions[k].1.as_str());
        push_str(&mut out, ",");
        k = k + 1;
        assert(out@ =~= a0 + action_cells(av, k as int));
    }
    let ghost r0 = out@;
    let mut k: usize = 0;
    while k < protect.len()
        invariant
            k <= protect@.len(),
            out@ == r0 + row_heads(protect@, k as int),
        decreases protect@.len() - k,
    {
        push_int_text(&mut out, protect[k].0 as i128);
        push_str(&mut out, "路,");
        k = k + 1;
        assert(out@ =~= r0 + row_heads(protect@, k as int));
    }
    push_str(&mut out, "\n");
    let ghost t0 = out@;
    let mut k: usize = 0;
    while k < table.len()
        invariant
            k <= table@.len(),
            rates.table@.len() == table@.len(),
            rv == rates@,
            tv == table_views(table@),
            forall|j: int| 0 <= j < protect@.len() ==> protect@[j].0 > i64::MIN,
            out@ == t0 + table_rows(tv, rv.table, protect@, k as int),
        decreases table@.len() - k,
    {
        push_table_row(&mut out, &table[k], &rates.table[k], protect);
        k = k + 1;
        assert(out@ =~= t0 + table_rows(tv, rv.table, protect@, k as int));
    }
    assert(out@ =~= smash_csv_text(waves@, protect@, av, tv, rv));
    string_of(out.as_slice())
}

} // verus!
