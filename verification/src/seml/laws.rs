//! What holds of every document: the order of the actions the parser hands
//! out, what a lenient read gives of a document that reads strictly, and the
//! order and bookkeeping of the cannon timeline.
use vstd::prelude::*;
use vstd::seq_lib::{to_multiset_build, to_multiset_insert};
use crate::seml::parser::document::{
    action_step, finish, finish_wave, fixed_card_plant, header_step, insert_pos, is_fodder_symbol,
    is_header, parse_value, prev_time, run_lines, smart_card_plant,
    sort_by_time, step, DocStateV,
};
use crate::seml::parser::actions::{
    cob_value, fixed_card_value, fodder_value, replace_vars, smart_card_value,
};
use crate::seml::parser::fields::{rfind, rfind_before};
use crate::seml::parser::fields::{cob_kind, uppercase_of};
use crate::seml::string::{chopped_prefix, natural_value};
use crate::text::{split, starts_with};
use crate::seml::reuse::{
    action_shots, cob_shots, wave_shots, cycle_target, fails, fifo_fails, fifo_lines, last_use, loop_fails, loop_lines, report,
    reuse_text, run_value, shot_pos, sort_shots, timeline, wave_offset, ShotV,
};
use crate::text::ends_with;
use crate::seml::types::{action_time, ActionV, WaveV};

verus! {

/// Actions in order of firing time.
pub open spec fn time_sorted(s: Seq<ActionV>) -> bool {
    forall|i: int, j: int| 0 <= i < j < s.len() ==> action_time(s[i]) <= action_time(s[j])
}

/// The actions that fire at time `k`.
pub open spec fn at_time(k: i32) -> spec_fn(ActionV) -> bool {
    |a: ActionV| action_time(a) == k
}

proof fn lemma_insert_pos(s: Seq<ActionV>, t: i32)
    ensures
        0 <= insert_pos(s, t) <= s.len(),
        forall|i: int| insert_pos(s, t) <= i < s.len() ==> action_time(#[trigger] s[i]) > t,
        insert_pos(s, t) > 0 ==> action_time(s[insert_pos(s, t) - 1]) <= t,
    decreases s.len(),
{
    if s.len() > 0 && action_time(s.last()) > t {
        let d = s.drop_last();
        lemma_insert_pos(d, t);
        assert forall|i: int| insert_pos(s, t) <= i < s.len() implies action_time(
            #[trigger] s[i],
        ) > t by {
            if i < d.len() {
                assert(s[i] == d[i]);
            }
        }
    }
}

/// Ordering the actions of a wave by firing time gives them in ascending
/// order of time, loses and adds none, and keeps the written order of
/// actions that fire at the same time.
pub proof fn lemma_sort_by_time(s: Seq<ActionV>)
    ensures
        time_sorted(sort_by_time(s)),
        sort_by_time(s).to_multiset() == s.to_multiset(),
        forall|k: i32| #[trigger] sort_by_time(s).filter(at_time(k)) == s.filter(at_time(k)),
    decreases s.len(),
{
    if s.len() > 0 {
        let rest = s.drop_last();
        let x = s.last();
        let t = sort_by_time(rest);
        lemma_sort_by_time(rest);
        let p = insert_pos(t, action_time(x));
        lemma_insert_pos(t, action_time(x));
        let r = t.insert(p, x);
        assert(r == sort_by_time(s));
        t.insert_ensures(p, x);
        assert forall|i: int, j: int| 0 <= i < j < r.len() implies action_time(r[i]) <= action_time(
            r[j],
        ) by {
            if j < p {
                assert(r[i] == t[i] && r[j] == t[j]);
            } else if j == p {
                assert(r[i] == t[i]);
                assert(action_time(t[i]) <= action_time(t[p - 1]));
            } else if i < p {
                assert(r[i] == t[i] && r[j] == t[j - 1]);
            } else if i == p {
                assert(r[j] == t[j - 1]);
            } else {
                assert(r[i] == t[i - 1] && r[j] == t[j - 1]);
            }
        }
        to_multiset_insert(t, p, x);
        assert(s == rest.push(x));
        to_multiset_build(rest, x);
        assert forall|k: i32| #[trigger] r.filter(at_time(k)) == s.filter(at_time(k)) by {
            let f = at_time(k);
            let lo = t.subrange(0, p);
            let hi = t.subrange(p, t.len() as int);
            assert(t == lo + hi);
            assert(r == lo + seq![x] + hi);
            Seq::filter_distributes_over_add(lo + seq![x], hi, f);
            Seq::filter_distributes_over_add(lo, seq![x], f);
            Seq::filter_distributes_over_add(lo, hi, f);
            rest.lemma_filter_push(x, f);
            assert(seq![x] == Seq::<ActionV>::empty().push(x));
            Seq::<ActionV>::empty().lemma_filter_push(x, f);
            assert(Seq::<ActionV>::empty().filter(f) =~= Seq::<ActionV>::empty()) by {
                reveal(Seq::filter);
            }
            if f(x) {
                assert forall|i: int| 0 <= i < hi.len() implies !f(#[trigger] hi[i]) by {
                    assert(hi[i] == t[p + i]);
                }
                hi.lemma_all_neg_filter_empty(f);
                assert(hi.filter(f) =~= Seq::<ActionV>::empty());
                assert(t.filter(f) == lo.filter(f));
                assert(r.filter(f) =~= lo.filter(f).push(x));
            } else {
                assert(r.filter(f) =~= lo.filter(f) + hi.filter(f));
            }
        }
    }
}

/// In every wave of a parsed document the actions come in order of firing
/// time, and actions that fire at the same time keep the order they were
/// written in (after `avzTime` has moved instant cards one tick earlier).
pub proof fn lemma_parsed_actions_sorted(text: Seq<char>, strict: bool)
    ensures
        parse_value(text, strict) matches Ok(p) ==> forall|w: int|
            0 <= w < p.config.waves.len() ==> time_sorted(#[trigger] p.config.waves[w].actions),
{
    if let Ok(p) = parse_value(text, strict) {
        assert forall|w: int| 0 <= w < p.config.waves.len() implies time_sorted(
            #[trigger] p.config.waves[w].actions,
        ) by {
            let acts = p.config.waves[w].actions;
            let v = acts;
            assert(exists|src: WaveV, avz: bool| p.config.waves[w] == finish_wave(src, avz)) by {
                let lines = crate::seml::parser::lines::expand_lines(
                    crate::seml::parser::lines::numbered_lines(text),
                )->Ok_0;
                let avz = crate::seml::parser::document::avz_time(lines);
                let setting = crate::seml::parser::document::setting_value(lines)->Ok_0;
                let st = run_lines(
                    lines,
                    0,
                    crate::seml::parser::document::initial_state(setting),
                    strict,
                    avz,
                )->Ok_0;
                assert(p.config == finish(st.config, avz));
                assert(p.config.waves[w] == finish_wave(st.config.waves[w], avz));
            }
            let (src, avz) = choose|src: WaveV, avz: bool| p.config.waves[w] == finish_wave(src, avz);
            let shifted = if avz {
                crate::seml::parser::document::shift_wave(src)
            } else {
                src
            };
            lemma_sort_by_time(shifted.actions);
        }
    }
}

proof fn lemma_step_strict(st: DocStateV, ln: usize, line: Seq<char>, avz: bool)
    ensures
        step(st, ln, line, true, avz) matches Ok(next) ==> step(st, ln, line, false, avz) == Ok::<
            DocStateV,
            crate::seml::error::SemlErrorV,
        >(next),
{
    reveal(step);
}

proof fn lemma_run_strict(lines: Seq<(usize, Seq<char>)>, i: int, st: DocStateV, avz: bool)
    ensures
        run_lines(lines, i, st, true, avz) matches Ok(last) ==> run_lines(lines, i, st, false, avz)
            == Ok::<DocStateV, crate::seml::error::SemlErrorV>(last),
    decreases lines.len() - i,
{
    if i >= lines.len() || i < 0 {
    } else if crate::seml::parser::document::skipped(lines[i].1) {
        lemma_run_strict(lines, i + 1, st, avz);
    } else {
        let line = replace_vars(st.vars, lines[i].1);
        lemma_step_strict(st, lines[i].0, line, avz);
        if let Ok(next) = step(st, lines[i].0, line, true, avz) {
            lemma_run_strict(lines, i + 1, next, avz);
        }
    }
}

/// A document that reads in strict mode reads the same in the default,
/// lenient mode: leniency only lets unknown header lines pass.
pub proof fn lemma_strict_implies_lenient(text: Seq<char>)
    ensures
        parse_value(text, true) is Ok ==> parse_value(text, false) == parse_value(text, true),
{
    match crate::seml::parser::lines::expand_lines(crate::seml::parser::lines::numbered_lines(text)) {
        Err(_) => {},
        Ok(lines) => match crate::seml::parser::document::setting_value(lines) {
            Err(_) => {},
            Ok(setting) => {
                lemma_run_strict(
                    lines,
                    0,
                    crate::seml::parser::document::initial_state(setting),
                    crate::seml::parser::document::avz_time(lines),
                );
            },
        },
    }
}

/// Shots in order of absolute time.
pub open spec fn abs_sorted(s: Seq<ShotV>) -> bool {
    forall|i: int, j: int| 0 <= i < j < s.len() ==> s[i].abs <= s[j].abs
}

/// The shots at absolute time `k`.
pub open spec fn at_abs(k: int) -> spec_fn(ShotV) -> bool {
    |x: ShotV| x.abs == k
}

proof fn lemma_shot_pos(s: Seq<ShotV>, t: int)
    ensures
        0 <= shot_pos(s, t) <= s.len(),
        forall|i: int| shot_pos(s, t) <= i < s.len() ==> (#[trigger] s[i]).abs > t,
        shot_pos(s, t) > 0 ==> s[shot_pos(s, t) - 1].abs <= t,
    decreases s.len(),
{
    if s.len() > 0 && s.last().abs > t {
        let d = s.drop_last();
        lemma_shot_pos(d, t);
        assert forall|i: int| shot_pos(s, t) <= i < s.len() implies (#[trigger] s[i]).abs > t by {
            if i < d.len() {
                assert(s[i] == d[i]);
            }
        }
    }
}

/// The cannon timeline lists the shots in ascending absolute time, loses and
/// adds none, and keeps the written order of shots at the same time (a `PP`
/// cob's two shots stay side by side).
#[verifier::rlimit(40)]
pub proof fn lemma_sort_shots(s: Seq<ShotV>)
    ensures
        abs_sorted(sort_shots(s)),
        sort_shots(s).to_multiset() == s.to_multiset(),
        forall|k: int| #[trigger] sort_shots(s).filter(at_abs(k)) == s.filter(at_abs(k)),
    decreases s.len(),
{
    if s.len() > 0 {
        let rest = s.drop_last();
        let x = s.last();
        let t = sort_shots(rest);
        lemma_sort_shots(rest);
        let p = shot_pos(t, x.abs);
        lemma_shot_pos(t, x.abs);
        let r = t.insert(p, x);
        assert(r == sort_shots(s));
        t.insert_ensures(p, x);
        assert forall|i: int, j: int| 0 <= i < j < r.len() implies r[i].abs <= r[j].abs by {
            if j < p {
                assert(r[i] == t[i] && r[j] == t[j]);
            } else if j == p {
                assert(r[i] == t[i]);
                assert(t[i].abs <= t[p - 1].abs);
            } else if i < p {
                assert(r[i] == t[i] && r[j] == t[j - 1]);
            } else if i == p {
                assert(r[j] == t[j - 1]);
            } else {
                assert(r[i] == t[i - 1] && r[j] == t[j - 1]);
            }
        }
        to_multiset_insert(t, p, x);
        assert(s == rest.push(x));
        to_multiset_build(rest, x);
        assert forall|k: int| #[trigger] r.filter(at_abs(k)) == s.filter(at_abs(k)) by {
            let f = at_abs(k);
            let lo = t.subrange(0, p);
            let hi = t.subrange(p, t.len() as int);
            assert(t == lo + hi);
            assert(r == lo + seq![x] + hi);
            Seq::filter_distributes_over_add(lo + seq![x], hi, f);
            Seq::filter_distributes_over_add(lo, seq![x], f);
            Seq::filter_distributes_over_add(lo, hi, f);
            rest.lemma_filter_push(x, f);
            assert(seq![x] == Seq::<ShotV>::empty().push(x));
            Seq::<ShotV>::empty().lemma_filter_push(x, f);
            assert(Seq::<ShotV>::empty().filter(f) =~= Seq::<ShotV>::empty()) by {
                reveal(Seq::filter);
            }
            if f(x) {
                assert forall|i: int| 0 <= i < hi.len() implies !f(#[trigger] hi[i]) by {
                    assert(hi[i] == t[p + i]);
                }
                hi.lemma_all_neg_filter_empty(f);
                assert(hi.filter(f) =~= Seq::<ShotV>::empty());
                assert(r.filter(f) =~= lo.filter(f).push(x));
            } else {
                assert(r.filter(f) =~= lo.filter(f) + hi.filter(f));
            }
        }
    }
}

/// The cannon timeline of any list of waves is in ascending absolute time.
pub proof fn lemma_timeline_sorted(waves: Seq<WaveV>)
    ensures
        abs_sorted(timeline(waves)),
{
    lemma_sort_shots(crate::seml::reuse::wave_shots(waves, waves.len() as int));
}

/// First in, first out: among `len` shots and `ncobs` cannons, cannon `c`
/// (one that fires at all) last fires at the largest index below `len` that
/// leaves remainder `c` on division by `ncobs`.
pub proof fn lemma_last_use(len: int, ncobs: int, c: int)
    requires
        ncobs > 0,
        0 <= c < len,
        c < ncobs,
    ensures
        0 <= last_use(len, ncobs, c) < len,
        last_use(len, ncobs, c) % ncobs == c,
        last_use(len, ncobs, c) + ncobs >= len,
{
    let x = len - 1 - c;
    let q = x / ncobs;
    vstd::arithmetic::div_mod::lemma_fundamental_div_mod(x, ncobs);
    assert(x % ncobs < ncobs);
    assert(q >= 0) by (nonlinear_arith)
        requires
            ncobs > 0,
            ncobs * q + x % ncobs == x,
            x % ncobs < ncobs,
            x >= 0,
    ;
    assert(ncobs * q >= 0) by (nonlinear_arith)
        requires
            ncobs > 0,
            q >= 0,
    ;
    vstd::arithmetic::div_mod::lemma_mod_multiples_vanish(q, c, ncobs);
    vstd::arithmetic::div_mod::lemma_small_mod(c as nat, ncobs as nat);
    assert(last_use(len, ncobs, c) == c + ncobs * q);
    assert((ncobs * q + c) % ncobs == c % ncobs);
}

proof fn lemma_run_lenient_err(lines: Seq<(usize, Seq<char>)>, i: int, st: DocStateV, avz: bool)
    ensures
        run_lines(lines, i, st, false, avz) is Err ==> run_lines(lines, i, st, true, avz) is Err,
    decreases lines.len() - i,
{
    if i >= lines.len() || i < 0 {
    } else if crate::seml::parser::document::skipped(lines[i].1) {
        lemma_run_lenient_err(lines, i + 1, st, avz);
    } else {
        let line = replace_vars(st.vars, lines[i].1);
        lemma_step_strict(st, lines[i].0, line, avz);
        if let Ok(next) = step(st, lines[i].0, line, true, avz) {
            lemma_run_lenient_err(lines, i + 1, next, avz);
        }
    }
}

/// A document that the lenient reading refuses, the strict reading refuses too.
pub proof fn lemma_lenient_error_is_strict_error(text: Seq<char>)
    ensures
        parse_value(text, false) is Err ==> parse_value(text, true) is Err,
{
    match crate::seml::parser::lines::expand_lines(crate::seml::parser::lines::numbered_lines(text)) {
        Err(_) => {},
        Ok(lines) => match crate::seml::parser::document::setting_value(lines) {
            Err(_) => {},
            Ok(setting) => {
                lemma_run_lenient_err(
                    lines,
                    0,
                    crate::seml::parser::document::initial_state(setting),
                    crate::seml::parser::document::avz_time(lines),
                );
            },
        },
    }
}

/// Values in ascending order.
pub open spec fn ascending(s: Seq<int>) -> bool {
    forall|i: int, j: int| 0 <= i < j < s.len() ==> s[i] <= s[j]
}

proof fn lemma_insert_value(s: Seq<int>, x: int)
    requires
        ascending(s),
    ensures
        ascending(crate::seml::reuse::insert_value(s, x)),
        crate::seml::reuse::insert_value(s, x).to_multiset() == s.to_multiset().insert(x),
        crate::seml::reuse::insert_value(s, x).len() == s.len() + 1,
        forall|k: int|
            0 <= k < crate::seml::reuse::insert_value(s, x).len() ==> (
            #[trigger] crate::seml::reuse::insert_value(s, x)[k] == x || s.contains(
                crate::seml::reuse::insert_value(s, x)[k],
            )),
    decreases s.len(),
{
    let r = crate::seml::reuse::insert_value(s, x);
    if s.len() == 0 {
        assert(r =~= Seq::<int>::empty().push(x));
        assert(s =~= Seq::<int>::empty());
        to_multiset_build(Seq::<int>::empty(), x);
    } else if s.last() <= x {
        assert(r == s.push(x));
        to_multiset_build(s, x);
        assert forall|k: int| 0 <= k < r.len() implies (#[trigger] r[k] == x || s.contains(r[k])) by {
            if k < s.len() {
                assert(r[k] == s[k]);
            }
        }
    } else {
        let d = s.drop_last();
        lemma_insert_value(d, x);
        let t = crate::seml::reuse::insert_value(d, x);
        assert(r == t.push(s.last()));
        assert(s == d.push(s.last()));
        to_multiset_build(t, s.last());
        to_multiset_build(d, s.last());
        assert(t.to_multiset().insert(s.last()) =~= d.to_multiset().insert(x).insert(s.last()));
        assert(d.to_multiset().insert(s.last()).insert(x) =~= d.to_multiset().insert(x).insert(
            s.last(),
        ));
        assert forall|k: int| 0 <= k < r.len() implies (#[trigger] r[k] == x || s.contains(r[k])) by {
            if k < t.len() {
                assert(r[k] == t[k]);
                if t[k] != x {
                    let j = choose|j: int| 0 <= j < d.len() && d[j] == t[k];
                    assert(s[j] == d[j]);
                }
            } else {
                assert(s[s.len() - 1] == s.last());
            }
        }
        assert forall|i: int, j: int| 0 <= i < j < r.len() implies r[i] <= r[j] by {
            if j == r.len() - 1 {
                assert(r[j] == s.last());
                if i < t.len() {
                    assert(r[i] == t[i]);
                    if t[i] != x {
                        let m = choose|m: int| 0 <= m < d.len() && d[m] == t[i];
                        assert(s[m] == d[m]);
                        assert(s[m] <= s[s.len() - 1]);
                    }
                }
            } else {
                assert(r[i] == t[i] && r[j] == t[j]);
            }
        }
    }
}

/// The cannon leftovers on the `next:` line come in ascending order, none
/// lost and none added.
pub proof fn lemma_sort_values(s: Seq<int>)
    ensures
        ascending(crate::seml::reuse::sort_values(s)),
        crate::seml::reuse::sort_values(s).to_multiset() == s.to_multiset(),
    decreases s.len(),
{
    if s.len() > 0 {
        lemma_sort_values(s.drop_last());
        lemma_insert_value(crate::seml::reuse::sort_values(s.drop_last()), s.last());
        assert(s == s.drop_last().push(s.last()));
        to_multiset_build(s.drop_last(), s.last());
    }
}

/// Every ice time of every wave is at least `1` under `avzTime`, else at least `0`.
pub open spec fn ice_ok(waves: Seq<WaveV>, avz: bool) -> bool {
    forall|w: int, k: int|
        0 <= w < waves.len() && 0 <= k < waves[w].ice_times.len() ==> #[trigger] waves[w].ice_times[k]
            >= (if avz {
            1int
        } else {
            0int
        })
}

proof fn lemma_ice_times_from(
    toks: Seq<Seq<char>>,
    i: int,
    end: int,
    acc: Seq<i32>,
    avz: bool,
    ln: usize,
)
    requires
        forall|k: int| 0 <= k < acc.len() ==> #[trigger] acc[k] >= (if avz {
            1int
        } else {
            0int
        }),
    ensures
        crate::seml::parser::wave::ice_times_from(toks, i, end, acc, avz, ln) matches Ok(r)
            ==> forall|k: int| 0 <= k < r.len() ==> #[trigger] r[k] >= (if avz {
            1int
        } else {
            0int
        }),
    decreases end - i,
{
    if i < end {
        if let Some(v) = crate::seml::string::natural_value(toks[i]) {
            if v >= (if avz {
                1i32
            } else {
                0i32
            }) {
                let acc2 = acc.push(v);
                assert forall|k: int| 0 <= k < acc2.len() implies #[trigger] acc2[k] >= (if avz {
                    1int
                } else {
                    0int
                }) by {
                    if k < acc.len() {
                        assert(acc2[k] == acc[k]);
                    }
                }
                lemma_ice_times_from(toks, i + 1, end, acc2, avz, ln);
            }
        }
    }
}

proof fn lemma_step_ice(st: DocStateV, ln: usize, line: Seq<char>, strict: bool, avz: bool)
    requires
        ice_ok(st.config.waves, avz),
    ensures
        step(st, ln, line, strict, avz) matches Ok(next) ==> ice_ok(next.config.waves, avz),
{
    reveal(step);
    let toks = crate::text::split(line, ' ');
    if toks.len() >= 2 {
        lemma_ice_times_from(toks, 1, toks.len() - 1, Seq::empty(), avz, ln);
    }
    let ws = st.config.waves;
    if let Ok(next) = step(st, ln, line, strict, avz) {
        let nw = next.config.waves;
        if nw.len() == ws.len() + 1 {
            assert forall|w: int, k: int|
                0 <= w < nw.len() && 0 <= k < nw[w].ice_times.len() implies #[trigger] nw[w].ice_times[k]
                >= (if avz {
                1int
            } else {
                0int
            }) by {
                if w < ws.len() {
                    assert(nw[w] == ws[w]);
                }
            }
        } else if ws.len() > 0 && nw.len() == ws.len() {
            assert forall|w: int, k: int|
                0 <= w < nw.len() && 0 <= k < nw[w].ice_times.len() implies #[trigger] nw[w].ice_times[k]
                >= (if avz {
                1int
            } else {
                0int
            }) by {
                assert(nw[w].ice_times == ws[w].ice_times);
            }
        }
    }
}

proof fn lemma_run_ice(
    lines: Seq<(usize, Seq<char>)>,
    i: int,
    st: DocStateV,
    strict: bool,
    avz: bool,
)
    requires
        ice_ok(st.config.waves, avz),
    ensures
        run_lines(lines, i, st, strict, avz) matches Ok(last) ==> ice_ok(last.config.waves, avz),
    decreases lines.len() - i,
{
    if i >= lines.len() || i < 0 {
    } else if crate::seml::parser::document::skipped(lines[i].1) {
        lemma_run_ice(lines, i + 1, st, strict, avz);
    } else {
        let line = replace_vars(st.vars, lines[i].1);
        lemma_step_ice(st, lines[i].0, line, strict, avz);
        if let Ok(next) = step(st, lines[i].0, line, strict, avz) {
            lemma_run_ice(lines, i + 1, next, strict, avz);
        }
    }
}

/// Ice times in a parsed document are never negative: under `avzTime` they
/// are read as at least 1 and then moved one tick earlier.
pub proof fn lemma_parsed_ice_nonnegative(text: Seq<char>, strict: bool)
    ensures
        parse_value(text, strict) matches Ok(p) ==> forall|w: int, k: int|
            0 <= w < p.config.waves.len() && 0 <= k < p.config.waves[w].ice_times.len()
                ==> #[trigger] p.config.waves[w].ice_times[k] >= 0,
{
    match crate::seml::parser::lines::expand_lines(crate::seml::parser::lines::numbered_lines(text)) {
        Err(_) => {},
        Ok(lines) => match crate::seml::parser::document::setting_value(lines) {
            Err(_) => {},
            Ok(setting) => {
                let avz = crate::seml::parser::document::avz_time(lines);
                let st0 = crate::seml::parser::document::initial_state(setting);
                lemma_run_ice(lines, 0, st0, strict, avz);
                if let Ok(st) = run_lines(lines, 0, st0, strict, avz) {
                    let p = parse_value(text, strict)->Ok_0;
                    assert forall|w: int, k: int|
                        0 <= w < p.config.waves.len() && 0 <= k < p.config.waves[w].ice_times.len()
                            implies #[trigger] p.config.waves[w].ice_times[k] >= 0 by {
                        let src = st.config.waves[w];
                        assert(p.config.waves[w] == finish_wave(src, avz));
                        assert(src.ice_times[k] >= (if avz {
                            1int
                        } else {
                            0int
                        }));
                    }
                }
            },
        },
    }
}


/// Whether a reuse report line is marked as too short a recharge.
pub open spec fn flagged(l: Seq<char>) -> bool {
    ends_with(l, " (!)"@)
}

/// The marked lines, in order.
pub open spec fn flagged_lines(s: Seq<Seq<char>>) -> Seq<Seq<char>>
    decreases s.len(),
{
    if s.len() == 0 {
        Seq::empty()
    } else {
        flagged_lines(s.drop_last()) + if flagged(s.last()) {
            seq![s.last()]
        } else {
            Seq::empty()
        }
    }
}

/// A full report body in compact form: its marked lines, or `all ok` where
/// none is marked.
pub open spec fn compact_body(full: Seq<Seq<char>>) -> Seq<Seq<char>> {
    let f = flagged_lines(full);
    f + if f.len() == 0 {
        seq!["all ok"@]
    } else {
        Seq::empty()
    }
}

/// Whether the document reads and runs in `loop:` mode.
pub open spec fn looping_doc(text: Seq<char>, strict: bool) -> bool {
    parse_value(text, strict) matches Ok(p) && p.params.looping == Some(true)
}

proof fn lemma_flagged_text(src: ShotV, dst: ShotV)
    ensures
        flagged(reuse_text(src, dst)) == fails(src, dst),
{
    reveal_strlit(" (!)");
    reveal_strlit("cs");
    let t = reuse_text(src, dst);
    if !fails(src, dst) {
        assert(t.len() >= 2 && t[t.len() - 1] == 's');
        if flagged(t) {
            assert(t.subrange(t.len() - 4, t.len() as int)[3] == t[t.len() - 1]);
        }
    } else {
        assert(t.subrange(t.len() - 4, t.len() as int) =~= " (!)"@);
    }
}

proof fn lemma_flagged_push(s: Seq<Seq<char>>, x: Seq<Seq<char>>)
    requires
        x.len() <= 1,
    ensures
        flagged_lines(s + x) == flagged_lines(s) + flagged_lines(x),
{
    assert(flagged_lines(Seq::<Seq<char>>::empty()) == Seq::<Seq<char>>::empty());
    if x.len() == 1 {
        assert((s + x).drop_last() =~= s);
        assert((s + x).last() == x[0]);
        assert(x.drop_last() =~= Seq::<Seq<char>>::empty());
        assert(x.last() == x[0]);
        assert(flagged_lines(x) == flagged_lines(x.drop_last()) + if flagged(x.last()) {
            seq![x.last()]
        } else {
            Seq::empty()
        });
        assert(flagged_lines(s + x) =~= flagged_lines(s) + flagged_lines(x));
    } else {
        assert(s + x =~= s);
        assert(x =~= Seq::<Seq<char>>::empty());
        assert(flagged_lines(s) + flagged_lines(x) =~= flagged_lines(s));
    }
}

proof fn lemma_flagged_one(l: Seq<char>)
    ensures
        flagged_lines(seq![l]) == if flagged(l) {
            seq![l]
        } else {
            Seq::<Seq<char>>::empty()
        },
{
    assert(flagged_lines(Seq::<Seq<char>>::empty()) == Seq::<Seq<char>>::empty());
    assert(seq![l].drop_last() =~= Seq::<Seq<char>>::empty());
    assert(seq![l].last() == l);
    assert(flagged_lines(seq![l]) =~= (if flagged(l) {
        seq![l]
    } else {
        Seq::<Seq<char>>::empty()
    }));
}

proof fn lemma_fifo_compact(base: Seq<ShotV>, n: int, k: int)
    requires
        0 <= k,
    ensures
        fifo_lines(base, n, true, k) == flagged_lines(fifo_lines(base, n, false, k)),
        fifo_lines(base, n, true, k).len() == 0 <==> !(exists|i: int|
            0 <= i < k && i + n < base.len() && #[trigger] fails(base[i], base[i + n])),
    decreases k,
{
    if k > 0 {
        lemma_fifo_compact(base, n, k - 1);
        let i = k - 1;
        if i + n < base.len() {
            lemma_flagged_text(base[i], base[i + n]);
            lemma_flagged_push(fifo_lines(base, n, false, k - 1), seq![reuse_text(base[i], base[i + n])]);
            lemma_flagged_one(reuse_text(base[i], base[i + n]));
        } else {
            lemma_flagged_push(fifo_lines(base, n, false, k - 1), Seq::empty());
            assert(flagged_lines(Seq::<Seq<char>>::empty()) =~= Seq::<Seq<char>>::empty());
        }
    } else {
        assert(flagged_lines(Seq::<Seq<char>>::empty()) =~= Seq::<Seq<char>>::empty());
    }
}

proof fn lemma_loop_compact(base: Seq<ShotV>, n: int, cl: int, nw: int, k: int)
    requires
        0 <= k,
    ensures
        loop_lines(base, n, cl, nw, true, k) == flagged_lines(loop_lines(base, n, cl, nw, false, k)),
        loop_lines(base, n, cl, nw, true, k).len() == 0 <==> !(exists|i: int|
            0 <= i < k && #[trigger] fails(base[i], cycle_target(base, n, cl, nw, i))),
    decreases k,
{
    if k > 0 {
        lemma_loop_compact(base, n, cl, nw, k - 1);
        let i = k - 1;
        let d = cycle_target(base, n, cl, nw, i);
        lemma_flagged_text(base[i], d);
        lemma_flagged_push(loop_lines(base, n, cl, nw, false, k - 1), seq![reuse_text(base[i], d)]);
        lemma_flagged_one(reuse_text(base[i], d));
    } else {
        assert(flagged_lines(Seq::<Seq<char>>::empty()) =~= Seq::<Seq<char>>::empty());
    }
}

/// The compact reuse report is the full one with its body cut down to the
/// marked lines, `all ok` standing in where none is marked; the header, and
/// without `loop:` the closing `next:` line, are the same. A document refused
/// in one form is refused alike in the other.
pub proof fn lemma_compact_report(text: Seq<char>, strict: bool)
    ensures
        match (run_value(text, false, strict), run_value(text, true, strict)) {
            (Ok(full), Ok(c)) => if looping_doc(text, strict) {
                full.len() >= 1 && c == seq![full[0]] + compact_body(full.drop_first())
            } else {
                full.len() >= 2 && c == seq![full[0]] + compact_body(full.subrange(1, full.len() - 1))
                    + seq![full.last()]
            },
            (Err(a), Err(b)) => a == b,
            _ => false,
        },
{
    crate::seml::parser::document::lemma_parsed_ncobs(text, strict);
    match parse_value(text, strict) {
        Err(_) => {},
        Ok(p) => {
            match p.params.ncobs {
                None => {},
                Some(ncobs) => {
                    let waves = p.config.waves;
                    let base = timeline(waves);
                    let cl = wave_offset(waves, waves.len() as int);
                    let n = ncobs as int;
                    if base.len() > 0 {
                        if p.params.looping == Some(true) {
                            let nw = waves.len() as int;
                            lemma_loop_compact(base, n, cl, nw, base.len() as int);
                            let bf = loop_lines(base, n, cl, nw, false, base.len() as int);
                            let full = report(p, false)->Ok_0;
                            assert(full.drop_first() =~= bf);
                        } else {
                            lemma_fifo_compact(base, n, base.len() as int);
                            let bf = fifo_lines(base, n, false, base.len() as int);
                            let full = report(p, false)->Ok_0;
                            assert(full.subrange(1, full.len() - 1) =~= bf);
                            if fifo_fails(base, n) {
                                let i = choose|i: int|
                                    0 <= i && i + n < base.len() && #[trigger] fails(base[i], base[i + n]);
                                assert(i < base.len());
                            }
                        }
                    }
                },
            }
        },
    }
}


/// An action line (a cob, fodder, a card) whose time is written `+N` fires
/// `N` cs after the action written just before it in the same wave (the
/// wave's last action so far); where the wave has no action yet, the line is
/// refused.
pub proof fn lemma_delay_after_previous_action(
    st: DocStateV,
    ln: usize,
    line: Seq<char>,
    sym: Seq<char>,
    strict: bool,
    avz: bool,
    n: i32,
)
    requires
        sym == split(line, ' ')[0],
        !starts_with(sym, seq!['w']),
        cob_kind(uppercase_of(sym)) is Some || is_fodder_symbol(sym) || fixed_card_plant(sym) is Some
            || smart_card_plant(sym) is Some,
        split(line, ' ').len() >= 2,
        starts_with(split(line, ' ')[1], seq!['+']),
        forall|i: int|
            1 <= i < split(line, ' ')[1].len() ==> split(line, ' ')[1][i] != '+' && split(line, ' ')[1][i]
                != '~',
        natural_value(chopped_prefix(split(line, ' ')[1], seq!['+'])) == Some(n),
        action_step(st, ln, line, sym, strict, avz) is Ok,
    ensures
        ({
            let before = st.config.waves.last().actions;
            let after = action_step(st, ln, line, sym, strict, avz)->Ok_0.config.waves.last().actions;
            &&& before.len() > 0
            &&& after.len() == before.len() + 1
            &&& after.drop_last() == before
            &&& action_time(after.last()) == action_time(before.last()).wrapping_add(n)
        }),
{
    reveal_strlit("C");
    reveal_strlit("C_POS");
    reveal_strlit("C_NUM");
    reveal_strlit("G");
    reveal_strlit("A");
    reveal_strlit("J");
    reveal_strlit("a");
    reveal_strlit("W");
    reveal_strlit("N");
    reveal_strlit("A_NUM");
    reveal_strlit("J_NUM");
    reveal_strlit("a_NUM");
    reveal_strlit("W_NUM");
    let ws = st.config.waves;
    let scene = st.config.setting.scene;
    let prev = prev_time(ws);
    let tok = split(line, ' ')[1];
    lemma_rfind_lead(tok, '+', tok.len() as int);
    lemma_rfind_lead(tok, '~', tok.len() as int);
    let r = if cob_kind(uppercase_of(sym)) is Some {
        cob_value(scene, prev, ln, line, cob_kind(uppercase_of(sym))->0)
    } else if is_fodder_symbol(sym) {
        fodder_value(scene, prev, ws.len() as usize, ln, line)
    } else if fixed_card_plant(sym) is Some {
        assert(sym.len() == 1 && sym[0] != 'C');
        assert("C"@[0] == 'C' && "C_POS"@.len() == 5 && "C_NUM"@.len() == 5);
        assert(!is_fodder_symbol(sym));
        fixed_card_value(scene, prev, ln, line, fixed_card_plant(sym)->0)
    } else {
        assert(sym.len() == 5 && sym[0] != 'C');
        assert("C"@.len() == 1 && "C_POS"@[0] == 'C' && "C_NUM"@[0] == 'C');
        assert(!is_fodder_symbol(sym));
        smart_card_value(scene, prev, ln, line, smart_card_plant(sym)->0)
    };
    assert(r is Ok);
    let after = action_step(st, ln, line, sym, strict, avz)->Ok_0.config.waves.last().actions;
    assert(after =~= ws.last().actions.push(r->Ok_0));
    assert(after.drop_last() =~= ws.last().actions);
}


/// A shot sits where its wave puts it: its wave is one of the document's, and
/// its absolute time is that wave's start plus its time within the wave.
pub open spec fn placed(waves: Seq<WaveV>, s: ShotV) -> bool {
    &&& 1 <= s.wave <= waves.len()
    &&& s.abs == wave_offset(waves, s.wave - 1) + s.tw
}

/// The start of wave `w` (counted from 1) when the document repeats without
/// end: whole cycles before it, then the waves before it in its cycle.
pub open spec fn endless_wave_start(waves: Seq<WaveV>, w: int) -> int {
    let nw = waves.len() as int;
    ((w - 1) / nw) * wave_offset(waves, nw) + wave_offset(waves, (w - 1) % nw)
}

proof fn lemma_action_shots_placed(waves: Seq<WaveV>, n: int, m: int)
    requires
        1 <= n <= waves.len(),
    ensures
        forall|i: int|
            0 <= i < action_shots(waves[n - 1].actions, m, n, wave_offset(waves, n - 1)).len()
                ==> placed(
                waves,
                #[trigger] action_shots(waves[n - 1].actions, m, n, wave_offset(waves, n - 1))[i],
            ),
    decreases m,
{
    let acts = waves[n - 1].actions;
    let off = wave_offset(waves, n - 1);
    if m > 0 && m <= acts.len() {
        lemma_action_shots_placed(waves, n, m - 1);
        let a = action_shots(acts, m - 1, n, off);
        let b = cob_shots(acts[m - 1], n, off);
        assert forall|i: int| 0 <= i < (a + b).len() implies placed(waves, #[trigger] (a + b)[i]) by {
            if i >= a.len() {
                assert((a + b)[i] == b[i - a.len()]);
            } else {
                assert((a + b)[i] == a[i]);
            }
        }
    }
}

proof fn lemma_wave_shots_placed(waves: Seq<WaveV>, n: int)
    requires
        0 <= n <= waves.len(),
    ensures
        forall|i: int| 0 <= i < wave_shots(waves, n).len() ==> placed(waves, #[trigger] wave_shots(waves, n)[i]),
    decreases n,
{
    if n > 0 {
        lemma_wave_shots_placed(waves, n - 1);
        lemma_action_shots_placed(waves, n, waves[n - 1].actions.len() as int);
        let a = wave_shots(waves, n - 1);
        let b = action_shots(waves[n - 1].actions, waves[n - 1].actions.len() as int, n, wave_offset(waves, n - 1));
        assert forall|i: int| 0 <= i < (a + b).len() implies placed(waves, #[trigger] (a + b)[i]) by {
            if i >= a.len() {
                assert((a + b)[i] == b[i - a.len()]);
            } else {
                assert((a + b)[i] == a[i]);
            }
        }
    }
}

proof fn lemma_sort_placed(waves: Seq<WaveV>, s: Seq<ShotV>)
    requires
        forall|i: int| 0 <= i < s.len() ==> placed(waves, #[trigger] s[i]),
    ensures
        forall|i: int| 0 <= i < sort_shots(s).len() ==> placed(waves, #[trigger] sort_shots(s)[i]),
    decreases s.len(),
{
    if s.len() > 0 {
        let rest = s.drop_last();
        assert forall|i: int| 0 <= i < rest.len() implies placed(waves, #[trigger] rest[i]) by {
            assert(rest[i] == s[i]);
        }
        lemma_sort_placed(waves, rest);
        let t = sort_shots(rest);
        let x = s.last();
        let p = shot_pos(t, x.abs);
        lemma_shot_pos(t, x.abs);
        let u = t.insert(p, x);
        assert(placed(waves, x));
        assert forall|i: int| 0 <= i < u.len() implies placed(waves, #[trigger] u[i]) by {
            if i < p {
                assert(u[i] == t[i]);
            } else if i > p {
                assert(u[i] == t[i - 1]);
            }
        }
    }
}

/// Under `loop:`, the shot that takes over the cannon of first-cycle shot
/// `i` is shot `i + ncobs` of the document repeated without end: it lies in
/// cycle `(i + ncobs) / len` (counted from 0), in the same wave of its cycle
/// and at the same time within the wave as shot `(i + ncobs) % len`, and its
/// absolute time is the start of its wave in the endless repetition plus that
/// time. So the printed wave number and the printed recharge gap agree.
pub proof fn lemma_loop_target_in_its_cycle(waves: Seq<WaveV>, ncobs: int, i: int)
    requires
        waves.len() > 0,
        ncobs >= 0,
        0 <= i < timeline(waves).len(),
    ensures
        ({
            let base = timeline(waves);
            let nw = waves.len() as int;
            let j = i + ncobs;
            let d = cycle_target(base, ncobs, wave_offset(waves, nw), nw, i);
            let e = base[j % (base.len() as int)];
            &&& d.wave >= 1
            &&& (d.wave - 1) / nw == j / (base.len() as int)
            &&& (d.wave - 1) % nw + 1 == e.wave
            &&& d.tw == e.tw
            &&& d.abs == endless_wave_start(waves, d.wave) + d.tw
        }),
{
    let base = timeline(waves);
    let nw = waves.len() as int;
    let len = base.len() as int;
    let j = i + ncobs;
    let k = j / len;
    let e = base[j % len];
    lemma_wave_shots_placed(waves, nw);
    lemma_sort_placed(waves, wave_shots(waves, nw));
    assert(0 <= j % len < len) by (nonlinear_arith)
        requires
            len > 0,
    ;
    assert(k >= 0) by (nonlinear_arith)
        requires
            len > 0,
            j >= 0,
            k == j / len,
    ;
    assert(placed(waves, e));
    let w = e.wave + k * nw;
    assert(w - 1 == k * nw + (e.wave - 1));
    vstd::arithmetic::div_mod::lemma_fundamental_div_mod_converse(w - 1, nw, k, e.wave - 1);
    assert(k * nw >= 0) by (nonlinear_arith)
        requires
            k >= 0,
            nw > 0,
    ;
}


/// The full `loop:` report body has one line per first-cycle shot, in order:
/// line `i` is the reuse from shot `i` to the shot that takes over its cannon.
pub proof fn lemma_loop_lines_full(base: Seq<ShotV>, ncobs: int, cl: int, nw: int, n: int)
    requires
        0 <= n,
    ensures
        loop_lines(base, ncobs, cl, nw, false, n).len() == n,
        forall|i: int|
            0 <= i < n ==> #[trigger] loop_lines(base, ncobs, cl, nw, false, n)[i] == reuse_text(
                base[i],
                cycle_target(base, ncobs, cl, nw, i),
            ),
    decreases n,
{
    if n > 0 {
        lemma_loop_lines_full(base, ncobs, cl, nw, n - 1);
        let a = loop_lines(base, ncobs, cl, nw, false, n - 1);
        let b = seq![reuse_text(base[n - 1], cycle_target(base, ncobs, cl, nw, n - 1))];
        assert(loop_lines(base, ncobs, cl, nw, false, n) == a + b);
        assert forall|i: int| 0 <= i < n implies #[trigger] (a + b)[i] == reuse_text(
            base[i],
            cycle_target(base, ncobs, cl, nw, i),
        ) by {
            if i < n - 1 {
                assert((a + b)[i] == a[i]);
            }
        }
    }
}


/// In a text whose only `c` is its first character (if any), the last `c`
/// before `j` is at 0, or absent.
proof fn lemma_rfind_lead(s: Seq<char>, c: char, j: int)
    requires
        0 <= j <= s.len(),
        forall|i: int| 1 <= i < s.len() ==> s[i] != c,
    ensures
        rfind_before(s, c, j) <= 0,
        j == s.len() ==> rfind(s, c) <= 0,
    decreases j,
{
    if j > 1 {
        assert(s[j - 1] != c);
        lemma_rfind_lead(s, c, j - 1);
    } else if j == 1 {
        assert(rfind_before(s, c, 0) == -1);
    }
}

} // verus!
