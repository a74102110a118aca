//! Line preprocessing: splitting the document into numbered lines, removing
//! comments and redundant blanks, and expanding `w<a>~<b>` wave ranges.
use vstd::prelude::*;
use crate::seml::error::{err, mk_err, ErrKind, SemlError, SemlErrorV};
use crate::seml::string::{natural_value, parse_natural_chars};
use crate::text::{
    collapse_ws, collapse_ws_chars, copy_range, find_char, find_from, first_token,
    first_token_of, has_char, has_char_exec, int_text, lemma_find_from_bounds, push_int_text,
    is_ws, lead_from, split, split_chars, starts_with, trail_from, trim, trim_chars, views,
};

verus! {

/// One numbered line of the document.
pub struct Line {
    pub line_num: usize,
    pub line: Vec<char>,
}

impl View for Line {
    type V = (usize, Seq<char>);

    open spec fn view(&self) -> (usize, Seq<char>) {
        (self.line_num, self.line@)
    }
}

pub open spec fn lines_view(v: Seq<Line>) -> Seq<(usize, Seq<char>)> {
    Seq::new(v.len(), |i: int| v[i]@)
}

pub fn copy_line(l: &Line) -> (r: Line)
    ensures
        r@ == l@,
{
    Line { line_num: l.line_num, line: copy_range(l.line.as_slice(), 0, l.line.len()) }
}

/// `s` without its trailing carriage returns.
pub open spec fn strip_cr(s: Seq<char>) -> Seq<char>
    decreases s.len(),
{
    if s.len() > 0 && s.last() == '\r' {
        strip_cr(s.drop_last())
    } else {
        s
    }
}

/// The part of a line before its first `#`.
pub open spec fn strip_comment(s: Seq<char>) -> Seq<char> {
    s.subrange(0, find_from(s, '#', 0))
}

/// A raw line with comment, surrounding blanks and repeated blanks removed.
pub open spec fn clean_line(s: Seq<char>) -> Seq<char> {
    collapse_ws(trim(strip_comment(strip_cr(s))))
}

proof fn lemma_find_from_at(s: Seq<char>, c: char, i: int, j: int)
    requires
        0 <= i <= j <= s.len(),
        j < s.len() ==> s[j] == c,
        forall|k: int| i <= k < j ==> s[k] != c,
    ensures
        find_from(s, c, i) == j,
    decreases j - i,
{
    if i < j {
        lemma_find_from_at(s, c, i + 1, j);
    }
}

proof fn lemma_strip_cr_after(l: Seq<char>, c: Seq<char>)
    requires
        l.len() > 0,
        l.last() != '\r',
    ensures
        strip_cr(l + c) == l + strip_cr(c),
    decreases c.len(),
{
    if c.len() == 0 {
        assert(l + c =~= l);
    } else if c.last() == '\r' {
        assert((l + c).drop_last() =~= l + c.drop_last());
        lemma_strip_cr_after(l, c.drop_last());
    }
}

proof fn lemma_strip_cr_prefix(l: Seq<char>)
    ensures
        strip_cr(l).len() <= l.len(),
        forall|k: int| 0 <= k < strip_cr(l).len() ==> strip_cr(l)[k] == l[k],
    decreases l.len(),
{
    if l.len() > 0 && l.last() == '\r' {
        lemma_strip_cr_prefix(l.drop_last());
        assert forall|k: int| 0 <= k < strip_cr(l).len() implies strip_cr(l)[k] == l[k] by {
            assert(l.drop_last()[k] == l[k]);
        }
    }
}

proof fn lemma_trail_from_le(s: Seq<char>, j: int)
    ensures
        j >= 0 ==> 0 <= trail_from(s, j) <= j,
    decreases j,
{
    if j > 0 && is_ws(s[j - 1]) {
        lemma_trail_from_le(s, j - 1);
    }
}

proof fn lemma_trail_from_extend(s: Seq<char>, t: Seq<char>, j: int)
    requires
        0 <= j <= s.len() <= t.len(),
        t.subrange(0, s.len() as int) == s,
    ensures
        trail_from(t, j) == trail_from(s, j),
    decreases j,
{
    if j > 0 {
        assert(t[j - 1] == t.subrange(0, s.len() as int)[j - 1]);
        lemma_trail_from_extend(s, t, j - 1);
    }
}

proof fn lemma_lead_from_ge(s: Seq<char>, i: int)
    requires
        0 <= i <= s.len(),
    ensures
        lead_from(s, i) >= i,
    decreases s.len() - i,
{
    if i < s.len() && is_ws(s[i]) {
        lemma_lead_from_ge(s, i + 1);
    }
}

proof fn lemma_lead_from_push(s: Seq<char>, w: char, i: int)
    requires
        is_ws(w),
        0 <= i <= s.len(),
    ensures
        lead_from(s, i) < s.len() ==> lead_from(s.push(w), i)
            == lead_from(s, i),
        lead_from(s, i) >= s.len() ==> lead_from(s.push(w), i) == s.len()
            + 1,
    decreases s.len() - i,
{
    if i < s.len() {
        assert(s.push(w)[i] == s[i]);
        if is_ws(s[i]) {
            lemma_lead_from_push(s, w, i + 1);
        }
    } else {
        assert(s.push(w)[i] == w);
        assert(lead_from(s.push(w), i + 1) == s.len() + 1);
    }
}

/// Trailing white space does not change what `trim` keeps.
proof fn lemma_trim_push_ws(s: Seq<char>, w: char)
    requires
        is_ws(w),
    ensures
        trim(s.push(w)) == trim(s),
{
    let t = s.push(w);
    let n = s.len() as int;
    assert(t.subrange(0, n) =~= s);
    assert(t[n] == w);
    assert(trail_from(t, n + 1) == trail_from(t, n));
    lemma_trail_from_extend(s, t, n);
    lemma_trail_from_le(s, n);
    lemma_lead_from_push(s, w, 0);
    lemma_lead_from_ge(s, 0);
    let a = lead_from(s, 0);
    let b = trail_from(s, n);
    if a < n && a < b {
        assert(t.subrange(a, b) =~= s.subrange(a, b));
    }
}

proof fn lemma_trim_strip_cr(l: Seq<char>)
    ensures
        trim(strip_cr(l)) == trim(l),
    decreases l.len(),
{
    if l.len() > 0 && l.last() == '\r' {
        lemma_trim_strip_cr(l.drop_last());
        assert(l.drop_last().push('\r') =~= l);
        lemma_trim_push_ws(l.drop_last(), '\r');
    }
}

/// A `#` opens a comment: a line cleans to what its part before the first
/// `#` cleans to, whatever the comment holds.
pub proof fn lemma_comment_ignored(code: Seq<char>, comment: Seq<char>)
    requires
        !has_char(code, '#'),
    ensures
        clean_line(code + seq!['#'] + comment) == clean_line(code),
{
    let head = code + seq!['#'];
    assert(code + seq!['#'] + comment =~= head + comment);
    lemma_strip_cr_after(head, comment);
    let x = head + strip_cr(comment);
    lemma_find_from_bounds(code, '#', 0);
    lemma_find_from_at(x, '#', 0, code.len() as int);
    assert(strip_comment(x) =~= code);
    let y = strip_cr(code);
    lemma_strip_cr_prefix(code);
    assert forall|k: int| 0 <= k < y.len() implies y[k] != '#' by {
        assert(y[k] == code[k]);
    }
    lemma_find_from_at(y, '#', 0, y.len() as int);
    assert(strip_comment(y) =~= y);
    lemma_trim_strip_cr(code);
}

/// The document's lines, numbered from 1 and cleaned.
pub open spec fn numbered_lines(text: Seq<char>) -> Seq<(usize, Seq<char>)> {
    let raw = split(text, '\n');
    Seq::new(raw.len(), |i: int| ((i + 1) as usize, clean_line(raw[i])))
}

fn strip_cr_exec(s: &[char]) -> (r: Vec<char>)
    ensures
        r@ == strip_cr(s@),
{
    let mut n = s.len();
    assert(s@.subrange(0, n as int) =~= s@);
    while n > 0 && s[n - 1] == '\r'
        invariant
            n <= s@.len(),
            strip_cr(s@) == strip_cr(s@.subrange(0, n as int)),
        decreases n,
    {
        assert(s@.subrange(0, n as int).drop_last() =~= s@.subrange(0, n - 1));
        n = n - 1;
    }
    assert(s@.subrange(0, n as int).len() == 0 || s@.subrange(0, n as int).last() != '\r');
    copy_range(s, 0, n)
}

pub fn clean_line_exec(s: &[char]) -> (r: Vec<char>)
    ensures
        r@ == clean_line(s@),
{
    assert(s@.subrange(0, s@.len() as int) =~= s@);
    let a = strip_cr_exec(s);
    let j = find_char(a.as_slice(), '#', 0);
    let b = copy_range(a.as_slice(), 0, j);
    let c = trim_chars(b.as_slice());
    collapse_ws_chars(c.as_slice())
}

pub fn number_lines(text: &[char]) -> (r: Vec<Line>)
    ensures
        lines_view(r@) == numbered_lines(text@),
{
    let raw = split_chars(text, '\n');
    let mut out: Vec<Line> = Vec::new();
    let mut i: usize = 0;
    while i < raw.len()
        invariant
            i <= raw@.len(),
            views(raw@) == split(text@, '\n'),
            out@.len() == i,
            forall|k: int|
                0 <= k < i ==> (#[trigger] out@[k])@ == ((k + 1) as usize, clean_line(
                    split(text@, '\n')[k],
                )),
        decreases raw@.len() - i,
    {
        let l = clean_line_exec(raw[i].as_slice());
        assert(raw@[i as int]@ == split(text@, '\n')[i as int]);
        out.push(Line { line_num: i + 1, line: l });
        i = i + 1;
    }
    assert(lines_view(out@) =~= numbered_lines(text@));
    out
}

/// Index of the last line of the block that starts at `c`: the block runs
/// until the next line that starts with `w`.
pub open spec fn block_end(orig: Seq<(usize, Seq<char>)>, c: int) -> int
    decreases orig.len() - c,
{
    if c + 1 < orig.len() && c >= 0 && !starts_with(orig[c + 1].1, seq!['w']) {
        block_end(orig, c + 1)
    } else {
        c
    }
}

pub proof fn lemma_block_end(orig: Seq<(usize, Seq<char>)>, c: int)
    requires
        0 <= c < orig.len(),
    ensures
        c <= block_end(orig, c) < orig.len(),
    decreases orig.len() - c,
{
    if c + 1 < orig.len() && !starts_with(orig[c + 1].1, seq!['w']) {
        lemma_block_end(orig, c + 1);
    }
}

/// A line of a wave-range block rewritten for wave `n`: a wave line gets
/// `w<n>` as its first token.
pub open spec fn populate(line: Seq<char>, n: int) -> Seq<char> {
    if starts_with(line, seq!['w']) {
        let j = find_from(line, ' ', 0);
        let rest = if j < line.len() {
            line.subrange(j + 1, line.len() as int)
        } else {
            Seq::empty()
        };
        trim(seq!['w'] + int_text(n) + seq![' '] + rest)
    } else {
        line
    }
}

/// Every line of the block rewritten for wave `n`.
pub open spec fn populated(block: Seq<(usize, Seq<char>)>, n: int) -> Seq<(usize, Seq<char>)> {
    Seq::new(block.len(), |i: int| (block[i].0, populate(block[i].1, n)))
}

/// The block repeated for waves `s..=e`.
pub open spec fn expand_block(block: Seq<(usize, Seq<char>)>, s: int, e: int) -> Seq<
    (usize, Seq<char>),
>
    decreases e - s + 1,
{
    if s > e {
        Seq::empty()
    } else {
        populated(block, s) + expand_block(block, s + 1, e)
    }
}

/// Lines from `cur` on, with every `w<a>~<b>` block expanded.
pub open spec fn expand_from(orig: Seq<(usize, Seq<char>)>, cur: int) -> Result<
    Seq<(usize, Seq<char>)>,
    SemlErrorV,
>
    decreases orig.len() - cur,
{
    if cur < 0 || cur >= orig.len() {
        Ok(Seq::empty())
    } else {
        let num = orig[cur].0;
        let line = orig[cur].1;
        let symbol = first_token(line);
        if !(starts_with(symbol, seq!['w']) && has_char(symbol, '~')) {
            match expand_from(orig, cur + 1) {
                Ok(rest) => Ok(seq![orig[cur]] + rest),
                Err(e) => Err(e),
            }
        } else {
            let tilde = find_from(symbol, '~', 0);
            let sw = natural_value(symbol.subrange(1, tilde));
            let ew = natural_value(symbol.subrange(tilde + 1, symbol.len() as int));
            if sw is None || ew is None {
                Err(mk_err(num, ErrKind::WaveNumPositiveInt, symbol))
            } else if sw.unwrap() > ew.unwrap() {
                Err(mk_err(num, ErrKind::StartWaveGtEnd, symbol))
            } else {
                let end = block_end(orig, cur);
                proof {
                    lemma_block_end(orig, cur);
                }
                match expand_from(orig, end + 1) {
                    Ok(rest) => Ok(
                        expand_block(
                            orig.subrange(cur, end + 1),
                            sw.unwrap() as int,
                            ew.unwrap() as int,
                        ) + rest,
                    ),
                    Err(e) => Err(e),
                }
            }
        }
    }
}

pub open spec fn expand_lines(orig: Seq<(usize, Seq<char>)>) -> Result<
    Seq<(usize, Seq<char>)>,
    SemlErrorV,
> {
    expand_from(orig, 0)
}

fn populate_exec(line: &[char], n: i32) -> (r: Vec<char>)
    ensures
        r@ == populate(line@, n as int),
{
    if line.len() > 0 && line[0] == 'w' {
        assert(starts_with(line@, seq!['w'])) by {
            assert(line@.subrange(0, 1) =~= seq!['w']);
        }
        let j = find_char(line, ' ', 0);
        let mut t: Vec<char> = Vec::new();
        t.push('w');
        push_int_text(&mut t, n as i128);
        t.push(' ');
        let ghost pre = t@;
        assert(pre =~= seq!['w'] + int_text(n as int) + seq![' ']);
        if j < line.len() {
            let mut k = j + 1;
            while k < line.len()
                invariant
                    j < k <= line@.len(),
                    t@ == pre + line@.subrange(j + 1, k as int),
                decreases line@.len() - k,
            {
                t.push(line[k]);
                k = k + 1;
                assert(t@ =~= pre + line@.subrange(j + 1, k as int));
            }
        } else {
            assert(t@ =~= pre + Seq::<char>::empty());
        }
        trim_chars(t.as_slice())
    } else {
        assert(!starts_with(line@, seq!['w'])) by {
            if line@.len() > 0 {
                assert(line@.subrange(0, 1)[0] == line@[0]);
            }
        }
        copy_range(line, 0, line.len())
    }
}

fn push_block(out: &mut Vec<Line>, orig: &Vec<Line>, lo: usize, hi: usize, n: i32)
    requires
        lo <= hi <= orig@.len(),
    ensures
        lines_view(final(out)@) == lines_view(old(out)@) + populated(
            lines_view(orig@).subrange(lo as int, hi as int),
            n as int,
        ),
{
    let ghost block = lines_view(orig@).subrange(lo as int, hi as int);
    let ghost base = lines_view(out@);
    let mut k = lo;
    while k < hi
        invariant
            lo <= k <= hi <= orig@.len(),
            block == lines_view(orig@).subrange(lo as int, hi as int),
            lines_view(out@) == base + populated(block, n as int).take(k - lo),
        decreases hi - k,
    {
        let l = populate_exec(orig[k].line.as_slice(), n);
        let ghost idx = k - lo;
        let ghost prev = lines_view(out@);
        assert(block[idx as int] == orig@[k as int]@);
        out.push(Line { line_num: orig[k].line_num, line: l });
        assert(lines_view(out@) =~= prev.push(populated(block, n as int)[idx as int]));
        assert(populated(block, n as int).take(idx + 1) =~= populated(block, n as int).take(
            idx as int,
        ).push(populated(block, n as int)[idx as int]));
        k = k + 1;
    }
    assert(populated(block, n as int).take(hi - lo) =~= populated(block, n as int));
}

pub proof fn lemma_expand_block_step(block: Seq<(usize, Seq<char>)>, s: int, e: int)
    requires
        s <= e,
    ensures
        expand_block(block, s, e) == populated(block, s) + expand_block(block, s + 1, e),
{
}

pub fn expand_lines_exec(orig: &Vec<Line>) -> (r: Result<Vec<Line>, SemlError>)
    ensures
        match (r, expand_lines(lines_view(orig@))) {
            (Ok(a), Ok(b)) => lines_view(a@) == b,
            (Err(e), Err(f)) => e@ == f,
            _ => false,
        },
{
    let ghost ov = lines_view(orig@);
    let nlen = orig.len();
    let mut out: Vec<Line> = Vec::new();
    let mut cur: usize = 0;
    while cur < nlen
        invariant
            nlen == orig@.len(),
            cur <= orig@.len(),
            ov == lines_view(orig@),
            expand_from(ov, 0) == (match expand_from(ov, cur as int) {
                Ok(rest) => Ok(lines_view(out@) + rest),
                Err(e) => Err(e),
            }),
        decreases orig@.len() - cur,
    {
        let line_num = orig[cur].line_num;
        let symbol = first_token_of(orig[cur].line.as_slice());
        assert(ov[cur as int].1 == orig@[cur as int].line@);
        let is_w = symbol.len() > 0 && symbol[0] == 'w';
        assert(is_w == starts_with(symbol@, seq!['w'])) by {
            if symbol@.len() > 0 {
                assert(symbol@.subrange(0, 1)[0] == symbol@[0]);
                if symbol@[0] == 'w' {
                    assert(symbol@.subrange(0, 1) =~= seq!['w']);
                }
            }
        }
        if !(is_w && has_char_exec(symbol.as_slice(), '~')) {
            let ghost old_out = lines_view(out@);
            out.push(copy_line(&orig[cur]));
            assert(lines_view(out@) =~= old_out + seq![ov[cur as int]]);
            cur = cur + 1;
            proof {
                match expand_from(ov, cur as int) {
                    Ok(rest) => {
                        assert(lines_view(out@) + rest =~= old_out + (seq![ov[cur - 1]] + rest));
                    },
                    Err(e) => {},
                }
            }
        } else {
            let tilde = find_char(symbol.as_slice(), '~', 0);
            proof {
                lemma_find_from_bounds(symbol@, '~', 0);
            }
            let s_tok = copy_range(symbol.as_slice(), 1, tilde);
            let e_tok = copy_range(symbol.as_slice(), tilde + 1, symbol.len());
            let sw = parse_natural_chars(s_tok.as_slice());
            let ew = parse_natural_chars(e_tok.as_slice());
            if sw.is_none() || ew.is_none() {
                return Err(err(line_num, ErrKind::WaveNumPositiveInt, symbol.as_slice()));
            }
            let sv = sw.unwrap();
            let ev = ew.unwrap();
            if sv > ev {
                return Err(err(line_num, ErrKind::StartWaveGtEnd, symbol.as_slice()));
            }
            let prev_cur = cur;
            while cur + 1 < nlen && !(orig[cur + 1].line.len() > 0 && orig[cur
                + 1].line[0] == 'w')
                invariant
                    nlen == orig@.len(),
                    prev_cur <= cur < orig@.len(),
                    ov == lines_view(orig@),
                    block_end(ov, prev_cur as int) == block_end(ov, cur as int),
                decreases orig@.len() - cur,
            {
                assert(!starts_with(ov[cur + 1].1, seq!['w'])) by {
                    let l = ov[cur + 1].1;
                    if l.len() > 0 {
                        assert(l.subrange(0, 1)[0] == l[0]);
                    }
                }
                cur = cur + 1;
            }
            assert(block_end(ov, cur as int) == cur) by {
                if cur + 1 < orig@.len() {
                    let l = ov[cur + 1].1;
                    assert(l.subrange(0, 1) =~= seq!['w']);
                }
            }
            let ghost block = ov.subrange(prev_cur as int, cur + 1);
            let ghost base = lines_view(out@);
            let mut k: i64 = sv as i64;
            while k <= ev as i64
                invariant
                    sv <= ev,
                    sv as i64 <= k <= ev as i64 + 1,
                    nlen == orig@.len(),
                    prev_cur <= cur < orig@.len(),
                    ov == lines_view(orig@),
                    block == ov.subrange(prev_cur as int, cur + 1),
                    base + expand_block(block, sv as int, ev as int) == lines_view(out@)
                        + expand_block(block, k as int, ev as int),
                decreases ev as i64 + 1 - k,
            {
                let ghost before = lines_view(out@);
                push_block(&mut out, orig, prev_cur, cur + 1, k as i32);
                proof {
                    lemma_expand_block_step(block, k as int, ev as int);
                    assert(lines_view(out@) + expand_block(block, k + 1, ev as int) =~= before
                        + expand_block(block, k as int, ev as int));
                }
                k = k + 1;
            }
            assert(expand_block(block, k as int, ev as int) =~= Seq::<(usize, Seq<char>)>::empty());
            cur = cur + 1;
            proof {
                match expand_from(ov, cur as int) {
                    Ok(rest) => {
                        assert(lines_view(out@) + rest =~= base + (expand_block(
                            block,
                            sv as int,
                            ev as int,
                        ) + rest));
                    },
                    Err(e) => {},
                }
            }
        }
    }
    assert(lines_view(out@) + Seq::<(usize, Seq<char>)>::empty() =~= lines_view(out@));
    Ok(out)
}

/// A wave-range block `wS~E` reads as one copy of the block per wave `S..=E`,
/// in order, each line rewritten for its wave and keeping its line number.
pub proof fn lemma_expand_block(block: Seq<(usize, Seq<char>)>, s: int, e: int)
    requires
        s <= e + 1,
    ensures
        expand_block(block, s, e).len() == (e - s + 1) * block.len(),
        forall|j: int, k: int|
            0 <= j <= e - s && 0 <= k < block.len() ==> #[trigger] expand_block(block, s, e)[j
                * block.len() + k] == (block[k].0, populate(block[k].1, s + j)),
    decreases e - s + 1,
{
    let n = block.len() as int;
    if s <= e {
        lemma_expand_block(block, s + 1, e);
        let rest = expand_block(block, s + 1, e);
        let all = expand_block(block, s, e);
        assert(all == populated(block, s) + rest);
        assert((e - s + 1) * n == n + (e - (s + 1) + 1) * n) by (nonlinear_arith);
        assert forall|j: int, k: int|
            0 <= j <= e - s && 0 <= k < n implies #[trigger] all[j * n + k] == (
            block[k].0,
            populate(block[k].1, s + j),
        ) by {
            if j == 0 {
                assert(j * n + k == k) by (nonlinear_arith)
                    requires
                        j == 0,
                ;
                assert(all[k] == populated(block, s)[k]);
            } else {
                assert(j * n + k - n == (j - 1) * n + k) by (nonlinear_arith);
                assert(0 <= (j - 1) * n) by (nonlinear_arith)
                    requires
                        j >= 1,
                        n >= 0,
                ;
                assert((j - 1) * n + k < (e - (s + 1) + 1) * n) by (nonlinear_arith)
                    requires
                        j - 1 <= e - (s + 1),
                        k < n,
                        0 <= k,
                ;
                assert(all[j * n + k] == rest[(j - 1) * n + k]);
            }
        }
    } else {
        assert((e - s + 1) * n == 0) by (nonlinear_arith)
            requires
                s == e + 1,
        ;
    }
}

} // verus!
