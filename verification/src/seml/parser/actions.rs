//! Action lines (cobs, fodder, cards), `SET` variable definitions, and the
//! substitution of variables into later lines.
use vstd::prelude::*;
use crate::seml::error::{err, mk_err, ErrKind, SemlError, SemlErrorV};
use crate::seml::parser::decimal::{col_literal_ok, col_literal_ok_exec};
use crate::seml::parser::fields::{
    card_col_value, card_row_value, card_time_value, cob_rows_value, fodder_rows_value,
    max_rows, one, one_exec, parse_card_col, parse_card_row, parse_card_time_and_shovel,
    parse_cob_rows, parse_fodder_rows, parse_smart_card_rows, parse_time, smart_rows_value,
    time_value, contains_i32,
};
use crate::seml::parser::headers::{contains_name, lemma_views_push};
use crate::seml::string::{natural_value, parse_natural_chars};
use crate::seml::types::{Action, ActionV, CardPos, CobPos, CobPosV, Fodder, cob_positions_view};
use crate::text::{
    all_digits, chars_of, copy_range, eq_chars, eq_str, find_char, find_from, int_chars,
    int_text, is_digit, split, split_chars, starts_with, starts_with_str, string_of, trim,
    trim_chars, views,
};

verus! {

/// Pieces joined with single spaces (`[&str]::join(" ")`).
pub open spec fn join_space(s: Seq<Seq<char>>) -> Seq<char>
    decreases s.len(),
{
    if s.len() == 0 {
        Seq::empty()
    } else if s.len() == 1 {
        s[0]
    } else {
        join_space(s.drop_last()) + seq![' '] + s.last()
    }
}

/// The tokens from index `k` on, joined with spaces (empty when there are fewer than `k`).
pub open spec fn tail_from(toks: Seq<Seq<char>>, k: int) -> Seq<char> {
    if toks.len() >= k {
        join_space(toks.subrange(k, toks.len() as int))
    } else {
        Seq::empty()
    }
}

pub fn join_from(v: &Vec<Vec<char>>, from: usize) -> (r: Vec<char>)
    ensures
        r@ == tail_from(views(v@), from as int),
{
    if from > v.len() {
        return Vec::new();
    }
    let mut out: Vec<char> = Vec::new();
    let mut k = from;
    assert(views(v@).subrange(from as int, from as int).len() == 0);
    while k < v.len()
        invariant
            from <= k <= v@.len(),
            out@ == join_space(views(v@).subrange(from as int, k as int)),
        decreases v@.len() - k,
    {
        let ghost sub = views(v@).subrange(from as int, k + 1);
        assert(sub.drop_last() =~= views(v@).subrange(from as int, k as int));
        assert(sub.last() == v@[k as int]@);
        if k > from {
            out.push(' ');
        }
        let piece = &v[k];
        let mut j: usize = 0;
        let ghost base = out@;
        while j < piece.len()
            invariant
                j <= piece@.len(),
                out@ == base + piece@.subrange(0, j as int),
            decreases piece@.len() - j,
        {
            out.push(piece[j]);
            j = j + 1;
            assert(out@ =~= base + piece@.subrange(0, j as int));
        }
        assert(piece@.subrange(0, piece@.len() as int) =~= piece@);
        k = k + 1;
        assert(out@ =~= join_space(views(v@).subrange(from as int, k as int)));
    }
    out
}

/// `s` with every non-overlapping occurrence of `pat` (scanned left to right)
/// replaced by `rep` (`str::replace` for a non-empty pattern).
pub open spec fn replace_str(s: Seq<char>, pat: Seq<char>, rep: Seq<char>) -> Seq<char>
    decreases s.len(),
{
    if pat.len() == 0 || s.len() < pat.len() {
        s
    } else if s.subrange(0, pat.len() as int) == pat {
        rep + replace_str(s.subrange(pat.len() as int, s.len() as int), pat, rep)
    } else {
        seq![s[0]] + replace_str(s.subrange(1, s.len() as int), pat, rep)
    }
}

pub fn matches_at(s: &[char], i: usize, pat: &[char]) -> (r: bool)
    requires
        i <= s@.len(),
    ensures
        r == (pat@.len() <= s@.len() - i && s@.subrange(i as int, i + pat@.len()) == pat@),
{
    if pat.len() > s.len() - i {
        return false;
    }
    let n = s.len();
    let mut k: usize = 0;
    while k < pat.len()
        invariant
            n == s@.len(),
            i <= n,
            pat@.len() <= s@.len() - i,
            k <= pat@.len(),
            forall|j: int| 0 <= j < k ==> s@[i + j] == pat@[j],
        decreases pat@.len() - k,
    {
        if s[i + k] != pat[k] {
            assert(s@.subrange(i as int, i + pat@.len())[k as int] != pat@[k as int]);
            return false;
        }
        k = k + 1;
    }
    assert(s@.subrange(i as int, i + pat@.len()) =~= pat@);
    true
}

pub fn replace_exec(s: &[char], pat: &[char], rep: &[char]) -> (r: Vec<char>)
    ensures
        r@ == replace_str(s@, pat@, rep@),
{
    if pat.len() == 0 {
        return copy_range(s, 0, s.len());
    }
    let n = s.len();
    let mut out: Vec<char> = Vec::new();
    let mut i: usize = 0;
    assert(s@.subrange(0, n as int) =~= s@);
    while i < n
        invariant
            n == s@.len(),
            pat@.len() > 0,
            i <= n,
            out@ + replace_str(s@.subrange(i as int, n as int), pat@, rep@) == replace_str(
                s@,
                pat@,
                rep@,
            ),
        decreases n - i,
    {
        let ghost rest = s@.subrange(i as int, n as int);
        if matches_at(s, i, pat) {
            assert(rest.subrange(0, pat@.len() as int) =~= s@.subrange(i as int, i + pat@.len()));
            assert(rest.subrange(pat@.len() as int, rest.len() as int) =~= s@.subrange(
                i + pat@.len(),
                n as int,
            ));
            let ghost o = out@;
            let mut j: usize = 0;
            while j < rep.len()
                invariant
                    j <= rep@.len(),
                    out@ == o + rep@.subrange(0, j as int),
                decreases rep@.len() - j,
            {
                out.push(rep[j]);
                j = j + 1;
                assert(out@ =~= o + rep@.subrange(0, j as int));
            }
            assert(rep@.subrange(0, rep@.len() as int) =~= rep@);
            i = i + pat.len();
            assert(out@ + replace_str(s@.subrange(i as int, n as int), pat@, rep@) =~= o + (rep@
                + replace_str(rest.subrange(pat@.len() as int, rest.len() as int), pat@, rep@)));
        } else {
            proof {
                if rest.len() >= pat@.len() {
                    assert(rest.subrange(0, pat@.len() as int) =~= s@.subrange(
                        i as int,
                        i + pat@.len(),
                    ));
                }
            }
            assert(rest.subrange(1, rest.len() as int) =~= s@.subrange(i + 1, n as int));
            let ghost o = out@;
            out.push(s[i]);
            i = i + 1;
            assert(out@ + replace_str(s@.subrange(i as int, n as int), pat@, rep@) =~= o + (seq![
                rest[0],
            ] + replace_str(rest.subrange(1, rest.len() as int), pat@, rep@)));
        }
    }
    assert(s@.subrange(n as int, n as int).len() == 0);
    assert(out@ + Seq::<char>::empty() =~= out@);
    out
}

/// Every variable's value substituted, in definition order, into `tail`.
pub open spec fn replace_all(tail: Seq<char>, vars: Seq<(Seq<char>, i64)>) -> Seq<char>
    decreases vars.len(),
{
    if vars.len() == 0 {
        tail
    } else {
        replace_str(
            replace_all(tail, vars.drop_last()),
            vars.last().0,
            int_text(vars.last().1 as int),
        )
    }
}

/// A line with variables substituted: the symbol (and, for `SET`, the name
/// being defined) is kept, the rest has every variable replaced by its value.
pub open spec fn replace_vars(vars: Seq<(Seq<char>, i64)>, line: Seq<char>) -> Seq<char> {
    if vars.len() == 0 {
        line
    } else {
        let reserved: int = if starts_with(line, "SET"@) {
            2
        } else {
            1
        };
        let toks = split(line, ' ');
        let k = if toks.len() < reserved {
            toks.len() as int
        } else {
            reserved
        };
        let head = join_space(toks.subrange(0, k));
        let tail = join_space(toks.subrange(k, toks.len() as int));
        trim(head + seq![' '] + replace_all(tail, vars))
    }
}

pub open spec fn vars_view(v: Seq<(Vec<char>, i64)>) -> Seq<(Seq<char>, i64)> {
    Seq::new(v.len(), |i: int| (v[i].0@, v[i].1))
}

pub fn replace_vars_exec(vars: &Vec<(Vec<char>, i64)>, line: &[char]) -> (r: Vec<char>)
    ensures
        r@ == replace_vars(vars_view(vars@), line@),
{
    if vars.len() == 0 {
        return copy_range(line, 0, line.len());
    }
    let reserved: usize = if starts_with_str(line, "SET") {
        2
    } else {
        1
    };
    let toks = split_chars(line, ' ');
    let k = if toks.len() < reserved {
        toks.len()
    } else {
        reserved
    };
    let head_src: Vec<Vec<char>> = {
        let mut h: Vec<Vec<char>> = Vec::new();
        let mut j: usize = 0;
        while j < k
            invariant
                j <= k <= toks@.len(),
                views(h@) == views(toks@).subrange(0, j as int),
            decreases k - j,
        {
            let c = copy_range(toks[j].as_slice(), 0, toks[j].len());
            assert(toks[j as int]@.subrange(0, toks[j as int]@.len() as int) =~= toks[j as int]@);
            assert(views(toks@)[j as int] == c@);
            proof {
                lemma_views_push(h@, c);
            }
            h.push(c);
            j = j + 1;
            assert(views(h@) =~= views(toks@).subrange(0, j as int));
        }
        h
    };
    let head = join_from(&head_src, 0);
    assert(views(head_src@).subrange(0, views(head_src@).len() as int) =~= views(head_src@));
    let mut tail = join_from(&toks, k);
    assert(head@ == join_space(split(line@, ' ').subrange(0, k as int)));
    let ghost vv = vars_view(vars@);
    let mut i: usize = 0;
    assert(vv.subrange(0, 0) =~= Seq::<(Seq<char>, i64)>::empty());
    while i < vars.len()
        invariant
            i <= vars@.len(),
            vv == vars_view(vars@),
            views(toks@) == split(line@, ' '),
            k <= toks@.len(),
            head@ == join_space(split(line@, ' ').subrange(0, k as int)),
            tail@ == replace_all(join_space(split(line@, ' ').subrange(k as int, split(line@, ' ').len() as int)), vv.subrange(0, i as int)),
        decreases vars@.len() - i,
    {
        let val = int_chars(vars[i].1 as i128);
        let t2 = replace_exec(tail.as_slice(), vars[i].0.as_slice(), val.as_slice());
        assert(vv.subrange(0, i + 1).drop_last() =~= vv.subrange(0, i as int));
        tail = t2;
        i = i + 1;
    }
    assert(vv.subrange(0, vars@.len() as int) =~= vv);
    let ghost hv = head@;
    let mut all = head;
    all.push(' ');
    let ghost pre = all@;
    assert(pre =~= hv + seq![' ']);
    let mut j: usize = 0;
    while j < tail.len()
        invariant
            j <= tail@.len(),
            all@ == pre + tail@.subrange(0, j as int),
        decreases tail@.len() - j,
    {
        all.push(tail[j]);
        j = j + 1;
        assert(all@ =~= pre + tail@.subrange(0, j as int));
    }
    assert(tail@.subrange(0, tail@.len() as int) =~= tail@);
    assert(all@ =~= hv + seq![' '] + replace_all(
        join_space(split(line@, ' ').subrange(k as int, split(line@, ' ').len() as int)),
        vars_view(vars@),
    ));
    trim_chars(all.as_slice())
}

/// A cob line: `<symbol> <time> <rows> <col>`.
pub open spec fn cob_value(
    scene: Seq<char>,
    prev: Option<i32>,
    ln: usize,
    line: Seq<char>,
    cob_num: i32,
) -> Result<ActionV, SemlErrorV> {
    let toks = split(line, ' ');
    let symbol = toks[0];
    if toks.len() < 4 {
        Err(mk_err(ln, ErrKind::NeedCobArgs, line))
    } else if tail_from(toks, 4).len() > 0 {
        Err(mk_err(ln, ErrKind::RemoveExtraArgs, tail_from(toks, 4)))
    } else {
        let cob_col: Result<Option<i32>, SemlErrorV> = if symbol.len() > 0 && is_digit(
            symbol.last(),
        ) {
            if scene != "ME"@ {
                Err(mk_err(ln, ErrKind::CobTailRoofOnly, symbol))
            } else {
                match natural_value(one(symbol.last())) {
                    Some(v) if 1 <= v <= 8 => Ok(Some(v)),
                    _ => Err(mk_err(ln, ErrKind::CobTailRange, one(symbol.last()))),
                }
            }
        } else if scene == "ME"@ {
            Err(mk_err(ln, ErrKind::RoofNeedCol, symbol))
        } else {
            Ok(None)
        };
        match cob_col {
            Err(e) => Err(e),
            Ok(cc) => match time_value(ln, toks[1], prev) {
                Err(e) => Err(e),
                Ok(time) => match cob_rows_value(ln, toks[2], cob_num, max_rows(scene)) {
                    Err(e) => Err(e),
                    Ok(rows) => if !col_literal_ok(toks[3]) {
                        Err(mk_err(ln, ErrKind::LandingColRange, toks[3]))
                    } else {
                        Ok(
                            ActionV::Cob {
                                symbol,
                                time,
                                positions: Seq::new(
                                    rows.len(),
                                    |i: int| CobPosV { row: rows[i], col: toks[3] },
                                ),
                                cob_col: cc,
                            },
                        )
                    },
                },
            },
        }
    }
}

pub fn parse_cob(scene: &[char], prev: Option<i32>, ln: usize, line: &[char], cob_num: i32) -> (r:
    Result<Action, SemlError>)
    ensures
        match (r, cob_value(scene@, prev, ln, line@, cob_num)) {
            (Ok(a), Ok(b)) => a@ == b,
            (Err(e), Err(f)) => e@ == f,
            _ => false,
        },
{
    let toks = split_chars(line, ' ');
    proof {
        crate::text::lemma_split_from_len(line@, ' ', 0);
    }
    if toks.len() < 4 {
        return Err(err(ln, ErrKind::NeedCobArgs, line));
    }
    let tail = join_from(&toks, 4);
    if tail.len() > 0 {
        return Err(err(ln, ErrKind::RemoveExtraArgs, tail.as_slice()));
    }
    let symbol = &toks[0];
    let roof = eq_str(scene, "ME");
    let mut cob_col: Option<i32> = None;
    if symbol.len() > 0 && symbol[symbol.len() - 1] as u32 >= 48 && symbol[symbol.len() - 1] as u32
        <= 57 {
        if !roof {
            return Err(err(ln, ErrKind::CobTailRoofOnly, symbol.as_slice()));
        }
        let last = one_exec(symbol[symbol.len() - 1]);
        match parse_natural_chars(last.as_slice()) {
            Some(v) if 1 <= v && v <= 8 => {
                cob_col = Some(v);
            },
            _ => {
                return Err(err(ln, ErrKind::CobTailRange, last.as_slice()));
            },
        }
    } else if roof {
        return Err(err(ln, ErrKind::RoofNeedCol, symbol.as_slice()));
    }
    let time = match parse_time(ln, toks[1].as_slice(), prev) {
        Ok(t) => t,
        Err(e) => {
            return Err(e);
        },
    };
    let mr = crate::seml::parser::fields::max_rows_exec(scene);
    let rows = match parse_cob_rows(ln, toks[2].as_slice(), cob_num, mr) {
        Ok(r) => r,
        Err(e) => {
            return Err(e);
        },
    };
    let col = &toks[3];
    if !col_literal_ok_exec(col.as_slice()) {
        return Err(err(ln, ErrKind::LandingColRange, col.as_slice()));
    }
    let mut positions: Vec<CobPos> = Vec::new();
    let mut i: usize = 0;
    while i < rows.len()
        invariant
            i <= rows@.len(),
            positions@.len() == i,
            cob_positions_view(positions@) == Seq::new(
                i as nat,
                |j: int| CobPosV { row: rows@[j], col: col@ },
            ),
        decreases rows@.len() - i,
    {
        let ghost o = positions@;
        positions.push(CobPos { row: rows[i], col: string_of(col.as_slice()) });
        assert(positions@[i as int]@ == CobPosV { row: rows@[i as int], col: col@ });
        assert(cob_positions_view(positions@) =~= cob_positions_view(o).push(
            CobPosV { row: rows@[i as int], col: col@ },
        ));
        i = i + 1;
        assert(cob_positions_view(positions@) =~= Seq::new(
            i as nat,
            |j: int| CobPosV { row: rows@[j], col: col@ },
        ));
    }
    Ok(Action::Cob { symbol: string_of(symbol.as_slice()), time, positions, cob_col })
}

/// Wave numbers listed in a `waves:` argument, each within `1..=curr` and distinct.
pub open spec fn waves_list_from(
    parts: Seq<Seq<char>>,
    i: int,
    acc: Seq<i32>,
    curr: usize,
    ln: usize,
    value: Seq<char>,
) -> Result<Seq<i32>, SemlErrorV>
    decreases parts.len() - i,
{
    if i >= parts.len() || i < 0 {
        Ok(acc)
    } else {
        match natural_value(parts[i]) {
            Some(n) if 1 <= n && n as int <= curr => if acc.contains(n) {
                Err(mk_err(ln, ErrKind::DupWaves, int_text(n as int)))
            } else {
                waves_list_from(parts, i + 1, acc.push(n), curr, ln, value)
            },
            _ => Err(mk_err(ln, ErrKind::WavesRange { max: curr }, value)),
        }
    }
}

/// The `key:value` arguments of a smart fodder, from `toks[i]` on.
pub open spec fn fodder_args_from(
    toks: Seq<Seq<char>>,
    i: int,
    choose: Option<i32>,
    waves: Option<Seq<i32>>,
    keys: Seq<Seq<char>>,
    card_num: usize,
    curr: usize,
    ln: usize,
) -> Result<(Option<i32>, Option<Seq<i32>>), SemlErrorV>
    decreases toks.len() - i,
{
    if i >= toks.len() || i < 0 {
        Ok((choose, waves))
    } else {
        let tok = toks[i];
        let j = find_from(tok, ':', 0);
        if j >= tok.len() {
            Err(mk_err(ln, ErrKind::ParamFormat, tok))
        } else {
            let key = tok.subrange(0, j);
            let value = tok.subrange(j + 1, tok.len() as int);
            if key.len() == 0 {
                Err(mk_err(ln, ErrKind::ParamEmpty, tok))
            } else if value.len() == 0 {
                Err(mk_err(ln, ErrKind::ValueEmpty, tok))
            } else if keys.contains(key) {
                Err(mk_err(ln, ErrKind::DupParam, key))
            } else if key == "choose"@ {
                match natural_value(value) {
                    Some(n) if 1 <= n && n as int <= card_num => fodder_args_from(
                        toks,
                        i + 1,
                        Some(n),
                        waves,
                        keys.push(key),
                        card_num,
                        curr,
                        ln,
                    ),
                    _ => Err(mk_err(ln, ErrKind::ChooseRange { max: card_num }, value)),
                }
            } else if key == "waves"@ {
                match waves_list_from(split(value, ','), 0, Seq::empty(), curr, ln, value) {
                    Ok(ws) => fodder_args_from(
                        toks,
                        i + 1,
                        choose,
                        Some(ws),
                        keys.push(key),
                        card_num,
                        curr,
                        ln,
                    ),
                    Err(e) => Err(e),
                }
            } else {
                Err(mk_err(ln, ErrKind::UnknownParam, key))
            }
        }
    }
}

/// `choose:` (default: every row) and `waves:` (default: none listed) of a smart fodder.
pub open spec fn fodder_args_value(
    toks: Seq<Seq<char>>,
    card_num: usize,
    must_choose: bool,
    curr: usize,
    ln: usize,
) -> Result<(i32, Seq<i32>), SemlErrorV> {
    match fodder_args_from(toks, 0, None, None, Seq::empty(), card_num, curr, ln) {
        Err(e) => Err(e),
        Ok((c, w)) => if must_choose && c is None {
            Err(mk_err(ln, ErrKind::NeedChoose, Seq::empty()))
        } else {
            Ok(
                (
                    match c {
                        Some(n) => n,
                        None => card_num as i32,
                    },
                    match w {
                        Some(ws) => ws,
                        None => Seq::empty(),
                    },
                ),
            )
        },
    }
}

fn parse_waves_list(value: &[char], curr: usize, ln: usize) -> (r: Result<Vec<i32>, SemlError>)
    ensures
        match (r, waves_list_from(split(value@, ','), 0, Seq::empty(), curr, ln, value@)) {
            (Ok(a), Ok(b)) => a@ == b,
            (Err(e), Err(f)) => e@ == f,
            _ => false,
        },
{
    let parts = split_chars(value, ',');
    let mut ws: Vec<i32> = Vec::new();
    let mut i: usize = 0;
    while i < parts.len()
        invariant
            i <= parts@.len(),
            views(parts@) == split(value@, ','),
            waves_list_from(split(value@, ','), 0, Seq::empty(), curr, ln, value@)
                == waves_list_from(split(value@, ','), i as int, ws@, curr, ln, value@),
        decreases parts@.len() - i,
    {
        assert(parts@[i as int]@ == split(value@, ',')[i as int]);
        match parse_natural_chars(parts[i].as_slice()) {
            Some(n) if 1 <= n && n as usize <= curr => {
                if contains_i32(&ws, n) {
                    let t = int_chars(n as i128);
                    return Err(err(ln, ErrKind::DupWaves, t.as_slice()));
                }
                ws.push(n);
            },
            _ => {
                return Err(err(ln, ErrKind::WavesRange { max: curr }, value));
            },
        }
        i = i + 1;
    }
    Ok(ws)
}

fn parse_fodder_args(
    toks: &Vec<Vec<char>>,
    card_num: usize,
    must_choose: bool,
    curr: usize,
    ln: usize,
) -> (r: Result<(i32, Vec<i32>), SemlError>)
    requires
        toks@.len() >= 4,
    ensures
        match (r, fodder_args_value(
            views(toks@).subrange(4, toks@.len() as int),
            card_num,
            must_choose,
            curr,
            ln,
        )) {
            (Ok(a), Ok(b)) => a.0 == b.0 && a.1@ == b.1,
            (Err(e), Err(f)) => e@ == f,
            _ => false,
        },
{
    let ghost args = views(toks@).subrange(4, toks@.len() as int);
    let mut choose: Option<i32> = None;
    let mut waves: Option<Vec<i32>> = None;
    let mut keys: Vec<Vec<char>> = Vec::new();
    let mut i: usize = 4;
    assert(views(keys@) =~= Seq::<Seq<char>>::empty());
    while i < toks.len()
        invariant
            4 <= i <= toks@.len(),
            args == views(toks@).subrange(4, toks@.len() as int),
            fodder_args_from(args, 0, None, None, Seq::empty(), card_num, curr, ln)
                == fodder_args_from(
                args,
                i - 4,
                choose,
                crate::seml::types::opt_vec_view(waves),
                views(keys@),
                card_num,
                curr,
                ln,
            ),
        decreases toks@.len() - i,
    {
        let tok = &toks[i];
        assert(tok@ == args[i - 4]);
        let j = find_char(tok.as_slice(), ':', 0);
        if j >= tok.len() {
            return Err(err(ln, ErrKind::ParamFormat, tok.as_slice()));
        }
        let key = copy_range(tok.as_slice(), 0, j);
        let value = copy_range(tok.as_slice(), j + 1, tok.len());
        if key.len() == 0 {
            return Err(err(ln, ErrKind::ParamEmpty, tok.as_slice()));
        }
        if value.len() == 0 {
            return Err(err(ln, ErrKind::ValueEmpty, tok.as_slice()));
        }
        if contains_name(&keys, key.as_slice()) {
            return Err(err(ln, ErrKind::DupParam, key.as_slice()));
        }
        if eq_str(key.as_slice(), "choose") {
            match parse_natural_chars(value.as_slice()) {
                Some(n) if 1 <= n && n as usize <= card_num => {
                    choose = Some(n);
                },
                _ => {
                    return Err(err(ln, ErrKind::ChooseRange { max: card_num }, value.as_slice()));
                },
            }
        } else if eq_str(key.as_slice(), "waves") {
            match parse_waves_list(value.as_slice(), curr, ln) {
                Ok(ws) => {
                    waves = Some(ws);
                },
                Err(e) => {
                    return Err(e);
                },
            }
        } else {
            return Err(err(ln, ErrKind::UnknownParam, key.as_slice()));
        }
        proof {
            lemma_views_push(keys@, key);
        }
        keys.push(key);
        i = i + 1;
    }
    if must_choose && choose.is_none() {
        let empty: Vec<char> = Vec::new();
        return Err(err(ln, ErrKind::NeedChoose, empty.as_slice()));
    }
    let c = match choose {
        Some(n) => n,
        None => card_num as i32,
    };
    let w = match waves {
        Some(ws) => ws,
        None => Vec::new(),
    };
    Ok((c, w))
}

/// A fodder line: `C`, `C_POS` or `C_NUM`, then `<time[~shovel]> <rows> <col> [args]`.
pub open spec fn fodder_value(
    scene: Seq<char>,
    prev: Option<i32>,
    curr: usize,
    ln: usize,
    line: Seq<char>,
) -> Result<ActionV, SemlErrorV> {
    let toks = split(line, ' ');
    let symbol = toks[0];
    if toks.len() < 4 {
        Err(mk_err(ln, ErrKind::NeedCardArgs, line))
    } else {
        match card_time_value(ln, toks[1], prev) {
            Err(e) => Err(e),
            Ok((time, shovel)) => match fodder_rows_value(ln, toks[2], max_rows(scene)) {
                Err(e) => Err(e),
                Ok(rows) => match card_col_value(ln, toks[3]) {
                    Err(e) => Err(e),
                    Ok(col) => {
                        let fodders = Seq::new(rows.len(), |i: int| rows[i].1);
                        let positions = Seq::new(
                            rows.len(),
                            |i: int| CardPos { row: rows[i].0, col },
                        );
                        if symbol == "C"@ {
                            Ok(
                                ActionV::FixedFodder {
                                    symbol,
                                    time,
                                    shovel_time: shovel,
                                    fodders,
                                    positions,
                                },
                            )
                        } else if toks[2].len() < 2 {
                            Err(mk_err(ln, ErrKind::Need2CardRows, toks[2]))
                        } else {
                            match fodder_args_value(
                                toks.subrange(4, toks.len() as int),
                                rows.len() as usize,
                                symbol == "C_POS"@,
                                curr,
                                ln,
                            ) {
                                Err(e) => Err(e),
                                Ok((choose, waves)) => Ok(
                                    ActionV::SmartFodder {
                                        symbol,
                                        time,
                                        shovel_time: shovel,
                                        fodders,
                                        positions,
                                        choose,
                                        waves,
                                    },
                                ),
                            }
                        }
                    },
                },
            },
        }
    }
}

pub fn parse_fodder(
    scene: &[char],
    prev: Option<i32>,
    curr: usize,
    ln: usize,
    line: &[char],
) -> (r: Result<Action, SemlError>)
    ensures
        match (r, fodder_value(scene@, prev, curr, ln, line@)) {
            (Ok(a), Ok(b)) => a@ == b,
            (Err(e), Err(f)) => e@ == f,
            _ => false,
        },
{
    let toks = split_chars(line, ' ');
    proof {
        crate::text::lemma_split_from_len(line@, ' ', 0);
    }
    if toks.len() < 4 {
        return Err(err(ln, ErrKind::NeedCardArgs, line));
    }
    let symbol = &toks[0];
    let (time, shovel) = match parse_card_time_and_shovel(ln, toks[1].as_slice(), prev) {
        Ok(p) => p,
        Err(e) => {
            return Err(e);
        },
    };
    let mr = crate::seml::parser::fields::max_rows_exec(scene);
    let rows = match parse_fodder_rows(ln, toks[2].as_slice(), mr) {
        Ok(r) => r,
        Err(e) => {
            return Err(e);
        },
    };
    let col = match parse_card_col(ln, toks[3].as_slice()) {
        Ok(c) => c,
        Err(e) => {
            return Err(e);
        },
    };
    let mut fodders: Vec<Fodder> = Vec::new();
    let mut positions: Vec<CardPos> = Vec::new();
    let mut i: usize = 0;
    while i < rows.len()
        invariant
            i <= rows@.len(),
            fodders@ == Seq::new(i as nat, |j: int| rows@[j].1),
            positions@ == Seq::new(i as nat, |j: int| CardPos { row: rows@[j].0, col }),
        decreases rows@.len() - i,
    {
        fodders.push(rows[i].1);
        positions.push(CardPos { row: rows[i].0, col });
        i = i + 1;
        assert(fodders@ =~= Seq::new(i as nat, |j: int| rows@[j].1));
        assert(positions@ =~= Seq::new(i as nat, |j: int| CardPos { row: rows@[j].0, col }));
    }
    if eq_str(symbol.as_slice(), "C") {
        return Ok(
            Action::FixedFodder {
                symbol: string_of(symbol.as_slice()),
                time,
                shovel_time: shovel,
                fodders,
                positions,
            },
        );
    }
    if toks[2].len() < 2 {
        return Err(err(ln, ErrKind::Need2CardRows, toks[2].as_slice()));
    }
    let is_pos = eq_str(symbol.as_slice(), "C_POS");
    match parse_fodder_args(&toks, rows.len(), is_pos, curr, ln) {
        Err(e) => Err(e),
        Ok((choose, waves)) => Ok(
            Action::SmartFodder {
                symbol: string_of(symbol.as_slice()),
                time,
                shovel_time: shovel,
                fodders,
                positions,
                choose,
                waves,
            },
        ),
    }
}

/// A fixed card line: `<symbol> <time> <row> <col>`; garlic (`G`) takes a
/// shovel time too.
pub open spec fn fixed_card_value(
    scene: Seq<char>,
    prev: Option<i32>,
    ln: usize,
    line: Seq<char>,
    plant_type: i32,
) -> Result<ActionV, SemlErrorV> {
    let toks = split(line, ' ');
    let symbol = toks[0];
    if toks.len() < 4 {
        Err(mk_err(ln, ErrKind::NeedCardArgs, line))
    } else if tail_from(toks, 4).len() > 0 {
        Err(mk_err(ln, ErrKind::RemoveExtraArgs, tail_from(toks, 4)))
    } else {
        let tm: Result<(i32, Option<i32>), SemlErrorV> = if symbol == "G"@ {
            card_time_value(ln, toks[1], prev)
        } else {
            match time_value(ln, toks[1], prev) {
                Ok(t) => Ok((t, None)),
                Err(e) => Err(e),
            }
        };
        match tm {
            Err(e) => Err(e),
            Ok((time, shovel)) => match card_row_value(ln, toks[2], max_rows(scene)) {
                Err(e) => Err(e),
                Ok(row) => match card_col_value(ln, toks[3]) {
                    Err(e) => Err(e),
                    Ok(col) => Ok(
                        ActionV::FixedCard {
                            symbol,
                            time,
                            shovel_time: shovel,
                            plant_type,
                            position: CardPos { row, col },
                        },
                    ),
                },
            },
        }
    }
}

pub fn parse_fixed_card(
    scene: &[char],
    prev: Option<i32>,
    ln: usize,
    line: &[char],
    plant_type: i32,
) -> (r: Result<Action, SemlError>)
    ensures
        match (r, fixed_card_value(scene@, prev, ln, line@, plant_type)) {
            (Ok(a), Ok(b)) => a@ == b,
            (Err(e), Err(f)) => e@ == f,
            _ => false,
        },
{
    let toks = split_chars(line, ' ');
    proof {
        crate::text::lemma_split_from_len(line@, ' ', 0);
    }
    if toks.len() < 4 {
        return Err(err(ln, ErrKind::NeedCardArgs, line));
    }
    let tail = join_from(&toks, 4);
    if tail.len() > 0 {
        return Err(err(ln, ErrKind::RemoveExtraArgs, tail.as_slice()));
    }
    let symbol = &toks[0];
    let tm = if eq_str(symbol.as_slice(), "G") {
        parse_card_time_and_shovel(ln, toks[1].as_slice(), prev)
    } else {
        match parse_time(ln, toks[1].as_slice(), prev) {
            Ok(t) => Ok((t, None)),
            Err(e) => Err(e),
        }
    };
    let (time, shovel) = match tm {
        Ok(p) => p,
        Err(e) => {
            return Err(e);
        },
    };
    let mr = crate::seml::parser::fields::max_rows_exec(scene);
    let row = match parse_card_row(ln, toks[2].as_slice(), mr) {
        Ok(r) => r,
        Err(e) => {
            return Err(e);
        },
    };
    let col = match parse_card_col(ln, toks[3].as_slice()) {
        Ok(c) => c,
        Err(e) => {
            return Err(e);
        },
    };
    Ok(
        Action::FixedCard {
            symbol: string_of(symbol.as_slice()),
            time,
            shovel_time: shovel,
            plant_type,
            position: CardPos { row, col },
        },
    )
}

/// A smart card line: `<symbol> <time> <rows> <col>` with at least two rows.
pub open spec fn smart_card_value(
    scene: Seq<char>,
    prev: Option<i32>,
    ln: usize,
    line: Seq<char>,
    plant_type: i32,
) -> Result<ActionV, SemlErrorV> {
    let toks = split(line, ' ');
    let symbol = toks[0];
    if toks.len() < 4 {
        Err(mk_err(ln, ErrKind::NeedCardArgs, line))
    } else if tail_from(toks, 4).len() > 0 {
        Err(mk_err(ln, ErrKind::RemoveExtraArgs, tail_from(toks, 4)))
    } else {
        match smart_rows_value(ln, toks[2], max_rows(scene)) {
            Err(e) => Err(e),
            Ok(rows) => match time_value(ln, toks[1], prev) {
                Err(e) => Err(e),
                Ok(time) => match card_col_value(ln, toks[3]) {
                    Err(e) => Err(e),
                    Ok(col) => Ok(
                        ActionV::SmartCard {
                            symbol,
                            time,
                            plant_type,
                            positions: Seq::new(
                                rows.len(),
                                |i: int| CardPos { row: rows[i], col },
                            ),
                        },
                    ),
                },
            },
        }
    }
}

pub fn parse_smart_card(
    scene: &[char],
    prev: Option<i32>,
    ln: usize,
    line: &[char],
    plant_type: i32,
) -> (r: Result<Action, SemlError>)
    ensures
        match (r, smart_card_value(scene@, prev, ln, line@, plant_type)) {
            (Ok(a), Ok(b)) => a@ == b,
            (Err(e), Err(f)) => e@ == f,
            _ => false,
        },
{
    let toks = split_chars(line, ' ');
    proof {
        crate::text::lemma_split_from_len(line@, ' ', 0);
    }
    if toks.len() < 4 {
        return Err(err(ln, ErrKind::NeedCardArgs, line));
    }
    let tail = join_from(&toks, 4);
    if tail.len() > 0 {
        return Err(err(ln, ErrKind::RemoveExtraArgs, tail.as_slice()));
    }
    let symbol = &toks[0];
    let mr = crate::seml::parser::fields::max_rows_exec(scene);
    let rows = match parse_smart_card_rows(ln, toks[2].as_slice(), mr) {
        Ok(r) => r,
        Err(e) => {
            return Err(e);
        },
    };
    let time = match parse_time(ln, toks[1].as_slice(), prev) {
        Ok(t) => t,
        Err(e) => {
            return Err(e);
        },
    };
    let col = match parse_card_col(ln, toks[3].as_slice()) {
        Ok(c) => c,
        Err(e) => {
            return Err(e);
        },
    };
    let mut positions: Vec<CardPos> = Vec::new();
    let mut i: usize = 0;
    while i < rows.len()
        invariant
            i <= rows@.len(),
            positions@ == Seq::new(i as nat, |j: int| CardPos { row: rows@[j], col }),
        decreases rows@.len() - i,
    {
        positions.push(CardPos { row: rows[i], col });
        i = i + 1;
        assert(positions@ =~= Seq::new(i as nat, |j: int| CardPos { row: rows@[j], col }));
    }
    Ok(
        Action::SmartCard {
            symbol: string_of(symbol.as_slice()),
            time,
            plant_type,
            positions,
        },
    )
}

/// What `evalexpr::eval` gives for an expression text when that is an integer.
pub uninterp spec fn expr_int_value(expr: Seq<char>) -> Option<i64>;

/// `evalexpr::eval` on the expression text, keeping an integer result; any
/// other result or an evaluation error gives `None`. The result depends on
/// the text alone; the contract names it and says no more. With the digits,
/// operators and brackets that `SET` allows, a result that is not an integer
/// comes, for instance, from a literal beyond the range of `i64` (evalexpr
/// reads it as a float) or from an empty pair of brackets (no value); such an
/// expression is refused here as invalid.
#[verifier::external_body]
fn eval_int(expr: &str) -> (r: Option<i64>)
    ensures
        r == expr_int_value(expr@),
{
    match evalexpr::eval(expr) {
        Ok(evalexpr::Value::Int(i)) => Some(i),
        Ok(_) => None,
        Err(_) => None,
    }
}

pub open spec fn expr_char_ok(c: char) -> bool {
    ||| 48 <= (c as u32) <= 57
    ||| c == '+'
    ||| c == '-'
    ||| c == '*'
    ||| c == '/'
    ||| c == '('
    ||| c == ')'
}

/// Index of the variable named `name`.
pub open spec fn var_index(vars: Seq<(Seq<char>, i64)>, name: Seq<char>, i: int) -> Option<int>
    decreases vars.len() - i,
{
    if i >= vars.len() || i < 0 {
        None
    } else if vars[i].0 == name {
        Some(i)
    } else {
        var_index(vars, name, i + 1)
    }
}

/// Variables after assigning `v` to `name`.
pub open spec fn set_var(vars: Seq<(Seq<char>, i64)>, name: Seq<char>, v: i64) -> Seq<
    (Seq<char>, i64),
> {
    match var_index(vars, name, 0) {
        Some(i) => vars.update(i, (name, v)),
        None => vars.push((name, v)),
    }
}

/// A `SET <name> <expr>` line. Variables hold integers: an expression whose
/// value is not an integer (a literal beyond `i64`, which evalexpr reads as a
/// float, or an empty pair of brackets) is refused as invalid.
pub open spec fn set_value(vars: Seq<(Seq<char>, i64)>, ln: usize, line: Seq<char>) -> Result<
    Seq<(Seq<char>, i64)>,
    SemlErrorV,
> {
    let toks = split(line, ' ');
    if toks.len() < 2 {
        Err(mk_err(ln, ErrKind::NeedVarExpr, line))
    } else {
        let name = toks[1];
        let expr = tail_from(toks, 2);
        if name.len() == 0 {
            Err(mk_err(ln, ErrKind::VarNameEmpty, line))
        } else if all_digits(name) {
            Err(mk_err(ln, ErrKind::VarNameNotNumeric, name))
        } else if expr.len() == 0 {
            Err(mk_err(ln, ErrKind::ExprEmpty, line))
        } else if !(forall|i: int| 0 <= i < expr.len() ==> expr_char_ok(#[trigger] expr[i])) {
            Err(mk_err(ln, ErrKind::ExprChars, expr))
        } else {
            match expr_int_value(expr) {
                None => Err(mk_err(ln, ErrKind::ExprInvalid, expr)),
                Some(v) => Ok(set_var(vars, name, v)),
            }
        }
    }
}

pub fn parse_set(vars: &mut Vec<(Vec<char>, i64)>, ln: usize, line: &[char]) -> (r: Result<
    (),
    SemlError,
>)
    ensures
        match (r, set_value(vars_view(old(vars)@), ln, line@)) {
            (Ok(_), Ok(b)) => vars_view(final(vars)@) == b,
            (Err(e), Err(f)) => e@ == f,
            _ => false,
        },
{
    let toks = split_chars(line, ' ');
    if toks.len() < 2 {
        return Err(err(ln, ErrKind::NeedVarExpr, line));
    }
    let name = &toks[1];
    assert(name@ == split(line@, ' ')[1]);
    let expr = join_from(&toks, 2);
    if name.len() == 0 {
        return Err(err(ln, ErrKind::VarNameEmpty, line));
    }
    let mut k: usize = 0;
    let mut numeric = true;
    while k < name.len()
        invariant
            k <= name@.len(),
            numeric <==> (forall|j: int| 0 <= j < k ==> is_digit(#[trigger] name@[j])),
        decreases name@.len() - k,
    {
        let u = name[k] as u32;
        if u < 48 || u > 57 {
            numeric = false;
        }
        k = k + 1;
    }
    if numeric {
        return Err(err(ln, ErrKind::VarNameNotNumeric, name.as_slice()));
    }
    assert(!all_digits(name@));
    if expr.len() == 0 {
        return Err(err(ln, ErrKind::ExprEmpty, line));
    }
    let mut k: usize = 0;
    while k < expr.len()
        invariant
            k <= expr@.len(),
            forall|j: int| 0 <= j < k ==> expr_char_ok(#[trigger] expr@[j]),
            !all_digits(name@),
            name@.len() > 0,
            expr@.len() > 0,
            split(line@, ' ').len() >= 2,
            name@ == split(line@, ' ')[1],
            expr@ == tail_from(split(line@, ' '), 2),
            vars@ == old(vars)@,
        decreases expr@.len() - k,
    {
        let c = expr[k];
        let u = c as u32;
        if !((48 <= u && u <= 57) || c == '+' || c == '-' || c == '*' || c == '/' || c == '('
            || c == ')') {
            assert(!expr_char_ok(expr@[k as int]));
            assert(!(forall|i: int| 0 <= i < expr@.len() ==> expr_char_ok(#[trigger] expr@[i])));
            return Err(err(ln, ErrKind::ExprChars, expr.as_slice()));
        }
        k = k + 1;
    }
    let expr_text = string_of(expr.as_slice());
    let v = match eval_int(expr_text.as_str()) {
        None => {
            return Err(err(ln, ErrKind::ExprInvalid, expr.as_slice()));
        },
        Some(v) => v,
    };
    let ghost vv = vars_view(vars@);
    assert(set_value(vv, ln, line@) == Ok::<Seq<(Seq<char>, i64)>, SemlErrorV>(set_var(vv, name@, v)));
    let mut i: usize = 0;
    while i < vars.len()
        invariant
            i <= vars@.len(),
            vv == vars_view(vars@),
            var_index(vv, name@, 0) == var_index(vv, name@, i as int),
            set_value(vv, ln, line@) == Ok::<Seq<(Seq<char>, i64)>, SemlErrorV>(set_var(vv, name@, v)),
            vv == vars_view(old(vars)@),
        decreases vars@.len() - i,
    {
        if eq_chars(vars[i].0.as_slice(), name.as_slice()) {
            let nm = copy_range(name.as_slice(), 0, name.len());
            assert(name@.subrange(0, name@.len() as int) =~= name@);
            vars.set(i, (nm, v));
            assert(vars_view(vars@) =~= vv.update(i as int, (name@, v)));
            return Ok(());
        }
        i = i + 1;
    }
    let nm = copy_range(name.as_slice(), 0, name.len());
    assert(name@.subrange(0, name@.len() as int) =~= name@);
    vars.push((nm, v));
    assert(vars_view(vars@) =~= vv.push((name@, v)));
    Ok(())
}

} // verus!
