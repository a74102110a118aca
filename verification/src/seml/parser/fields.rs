//! Token-level pieces of the SEML grammar: header values, times, wave
//! ranges, cob symbols, landing rows and columns, card rows and columns.
use vstd::prelude::*;
use crate::seml::error::{err, mk_err, ErrKind, SemlError, SemlErrorV};
use crate::seml::string::{
    chop_prefix_chars, chopped_prefix, natural_value, parse_natural_chars,
};
use crate::seml::types::Fodder;
use crate::text::{
    copy_range, find_char, find_from, is_ascii_alpha, lemma_find_from_bounds, starts_with,
    trim, trim_chars,
};

verus! {

/// Text after the first `:` of a line, trimmed (empty when there is none).
pub open spec fn arg_value(line: Seq<char>) -> Seq<char> {
    let j = find_from(line, ':', 0);
    if j < line.len() {
        trim(line.subrange(j + 1, line.len() as int))
    } else {
        Seq::empty()
    }
}

pub fn arg_value_exec(line: &[char]) -> (r: Vec<char>)
    ensures
        r@ == arg_value(line@),
{
    let j = find_char(line, ':', 0);
    if j < line.len() {
        let rest = copy_range(line, j + 1, line.len());
        trim_chars(rest.as_slice())
    } else {
        Vec::new()
    }
}

/// What `str::to_lowercase` gives for a string (Unicode lower-casing).
pub uninterp spec fn lowercase_of(s: Seq<char>) -> Seq<char>;

/// What `str::to_uppercase` gives for a string (Unicode upper-casing).
pub uninterp spec fn uppercase_of(s: Seq<char>) -> Seq<char>;

/// Whether every character is ASCII.
pub open spec fn is_ascii_text(s: Seq<char>) -> bool {
    forall|i: int| 0 <= i < s.len() ==> (#[trigger] s[i] as u32) < 128
}

pub open spec fn ascii_upper(c: char) -> char {
    if 97 <= (c as u32) <= 122 {
        ((c as u32) - 32) as char
    } else {
        c
    }
}

/// Each ASCII capital letter turned small, the rest kept.
pub open spec fn ascii_lowered(s: Seq<char>) -> Seq<char> {
    Seq::new(s.len(), |i: int| ascii_lower(s[i]))
}

/// Each ASCII small letter turned capital, the rest kept.
pub open spec fn ascii_uppered(s: Seq<char>) -> Seq<char> {
    Seq::new(s.len(), |i: int| ascii_upper(s[i]))
}

/// `str::to_lowercase`: Unicode lower-casing, a function of the text alone;
/// on ASCII text it maps `A`–`Z` to `a`–`z` and keeps every other character.
/// What it does to other letters is the named result, not written out.
#[verifier::external_body]
fn lowercase(s: &str) -> (r: String)
    ensures
        r@ == lowercase_of(s@),
        is_ascii_text(s@) ==> r@ == ascii_lowered(s@),
{
    s.to_lowercase()
}

/// `str::to_uppercase`: Unicode upper-casing, a function of the text alone;
/// on ASCII text it maps `a`–`z` to `A`–`Z` and keeps every other character.
/// What it does to other letters is the named result, not written out.
#[verifier::external_body]
fn uppercase(s: &str) -> (r: String)
    ensures
        r@ == uppercase_of(s@),
        is_ascii_text(s@) ==> r@ == ascii_uppered(s@),
{
    s.to_uppercase()
}

/// The text lower-cased.
pub(crate) fn to_lower(s: &[char]) -> (r: Vec<char>)
    ensures
        r@ == lowercase_of(s@),
        is_ascii_text(s@) ==> r@ == ascii_lowered(s@),
{
    let t = crate::text::string_of(s);
    let l = lowercase(t.as_str());
    crate::text::chars_of(l.as_str())
}

/// The text upper-cased.
pub(crate) fn to_upper(s: &[char]) -> (r: Vec<char>)
    ensures
        r@ == uppercase_of(s@),
        is_ascii_text(s@) ==> r@ == ascii_uppered(s@),
{
    let t = crate::text::string_of(s);
    let u = uppercase(t.as_str());
    crate::text::chars_of(u.as_str())
}

pub open spec fn ascii_lower(c: char) -> char {
    if 65 <= (c as u32) <= 90 {
        ((c as u32) + 32) as char
    } else {
        c
    }
}

/// `str::eq_ignore_ascii_case`.
pub open spec fn eq_ignore_ascii_case(a: Seq<char>, b: Seq<char>) -> bool {
    a.len() == b.len() && forall|i: int| 0 <= i < a.len() ==> ascii_lower(a[i]) == ascii_lower(
        b[i],
    )
}

fn ascii_lower_exec(c: char) -> (r: char)
    ensures
        r == ascii_lower(c),
{
    let u = c as u32;
    if 65 <= u && u <= 90 {
        let b = (u + 32) as u8;
        let r = b as char;
        assert(r == ((c as u32) + 32) as char);
        r
    } else {
        c
    }
}

pub fn eq_ignore_ascii_case_exec(a: &[char], b: &[char]) -> (r: bool)
    ensures
        r == eq_ignore_ascii_case(a@, b@),
{
    if a.len() != b.len() {
        return false;
    }
    let mut k: usize = 0;
    while k < a.len()
        invariant
            a@.len() == b@.len(),
            k <= a@.len(),
            forall|i: int| 0 <= i < k ==> ascii_lower(a@[i]) == ascii_lower(b@[i]),
        decreases a@.len() - k,
    {
        if ascii_lower_exec(a[k]) != ascii_lower_exec(b[k]) {
            return false;
        }
        k = k + 1;
    }
    true
}

/// Rows a scene has: six in the (mapped) pool scene `FE`, five elsewhere.
pub open spec fn max_rows(scene: Seq<char>) -> i32 {
    if scene == "FE"@ {
        6
    } else {
        5
    }
}

pub fn max_rows_exec(scene: &[char]) -> (r: i32)
    ensures
        r == max_rows(scene@),
{
    if crate::text::eq_str(scene, "FE") {
        6
    } else {
        5
    }
}

/// A time token: `N`, or `+N` for a delay after `prev`.
pub open spec fn time_value(line: usize, token: Seq<char>, prev: Option<i32>) -> Result<
    i32,
    SemlErrorV,
> {
    let is_delay = starts_with(token, seq!['+']);
    let chopped = chopped_prefix(token, seq!['+']);
    match natural_value(chopped) {
        None => Err(mk_err(line, ErrKind::TimeNonneg, chopped)),
        Some(t) => if !is_delay {
            Ok(t)
        } else {
            match prev {
                Some(p) => Ok(p.wrapping_add(t)),
                None => Err(mk_err(line, ErrKind::NoDelayBase, token)),
            }
        },
    }
}

pub fn parse_time(line: usize, token: &[char], prev: Option<i32>) -> (r: Result<i32, SemlError>)
    ensures
        match (r, time_value(line, token@, prev)) {
            (Ok(a), Ok(b)) => a == b,
            (Err(e), Err(f)) => e@ == f,
            _ => false,
        },
{
    let plus: [char; 1] = ['+'];
    assert(plus@ =~= seq!['+']);
    let is_delay = crate::text::starts_with_chars(token, &plus);
    let chopped = chop_prefix_chars(token, &plus);
    match parse_natural_chars(chopped.as_slice()) {
        None => Err(err(line, ErrKind::TimeNonneg, chopped.as_slice())),
        Some(t) => if !is_delay {
            Ok(t)
        } else {
            match prev {
                Some(p) => Ok(p.wrapping_add(t)),
                None => Err(err(line, ErrKind::NoDelayBase, token)),
            }
        },
    }
}

/// Index of the last `c` in `s[..j]`, or `-1`.
pub open spec fn rfind_before(s: Seq<char>, c: char, j: int) -> int
    decreases j,
{
    if j <= 0 {
        -1
    } else if s[j - 1] == c {
        j - 1
    } else {
        rfind_before(s, c, j - 1)
    }
}

pub open spec fn rfind(s: Seq<char>, c: char) -> int {
    rfind_before(s, c, s.len() as int)
}

pub proof fn lemma_rfind_bounds(s: Seq<char>, c: char, j: int)
    requires
        0 <= j <= s.len(),
    ensures
        -1 <= rfind_before(s, c, j) < j,
    decreases j,
{
    if j > 0 && s[j - 1] != c {
        lemma_rfind_bounds(s, c, j - 1);
    }
}

/// Returns `rfind(s, c) + 1` (0 when absent).
fn rfind_exec(s: &[char], c: char) -> (r: usize)
    ensures
        r as int == rfind(s@, c) + 1,
{
    let mut j = s.len();
    while j > 0
        invariant
            j <= s@.len(),
            rfind(s@, c) == rfind_before(s@, c, j as int),
        decreases j,
    {
        if s[j - 1] == c {
            return j;
        }
        j = j - 1;
    }
    0
}

/// A card time with an optional shovel time: `t`, `t~s`, or `t+d`.
pub open spec fn card_time_value(line: usize, token: Seq<char>, prev: Option<i32>) -> Result<
    (i32, Option<i32>),
    SemlErrorV,
> {
    let plus = rfind(token, '+');
    let tilde = rfind(token, '~');
    let delim = if plus >= tilde {
        plus
    } else {
        tilde
    };
    if delim <= 0 {
        match time_value(line, token, prev) {
            Ok(t) => Ok((t, None)),
            Err(e) => Err(e),
        }
    } else {
        let card_token = token.subrange(0, delim);
        let shovel_token = chopped_prefix(token.subrange(delim, token.len() as int), seq!['~']);
        match time_value(line, card_token, prev) {
            Err(e) => Err(e),
            Ok(ct) => match time_value(line, shovel_token, Some(ct)) {
                Err(e) => Err(e),
                Ok(st) => if st < ct {
                    Err(mk_err(line, ErrKind::ShovelBeforeCard, shovel_token))
                } else {
                    Ok((ct, Some(st)))
                },
            },
        }
    }
}

pub fn parse_card_time_and_shovel(line: usize, token: &[char], prev: Option<i32>) -> (r: Result<
    (i32, Option<i32>),
    SemlError,
>)
    ensures
        match (r, card_time_value(line, token@, prev)) {
            (Ok(a), Ok(b)) => a == b,
            (Err(e), Err(f)) => e@ == f,
            _ => false,
        },
{
    proof {
        lemma_rfind_bounds(token@, '+', token@.len() as int);
        lemma_rfind_bounds(token@, '~', token@.len() as int);
    }
    let p1 = rfind_exec(token, '+');
    let t1 = rfind_exec(token, '~');
    let d1 = if p1 >= t1 {
        p1
    } else {
        t1
    };
    if d1 <= 1 {
        match parse_time(line, token, prev) {
            Ok(t) => Ok((t, None)),
            Err(e) => Err(e),
        }
    } else {
        let d = d1 - 1;
        let card_token = copy_range(token, 0, d);
        let rest = copy_range(token, d, token.len());
        let tl: [char; 1] = ['~'];
        assert(tl@ =~= seq!['~']);
        let shovel_token = chop_prefix_chars(rest.as_slice(), &tl);
        match parse_time(line, card_token.as_slice(), prev) {
            Err(e) => Err(e),
            Ok(ct) => match parse_time(line, shovel_token.as_slice(), Some(ct)) {
                Err(e) => Err(e),
                Ok(st) => if st < ct {
                    Err(err(line, ErrKind::ShovelBeforeCard, shovel_token.as_slice()))
                } else {
                    Ok((ct, Some(st)))
                },
            },
        }
    }
}

/// The last token of a wave line: `length` or `start~length`.
pub open spec fn wave_range_value(line: usize, token: Seq<char>) -> Result<
    (Option<i32>, i32),
    SemlErrorV,
> {
    let j = find_from(token, '~', 0);
    let length_token = if j < token.len() {
        token.subrange(j + 1, token.len() as int)
    } else {
        token
    };
    match natural_value(length_token) {
        Some(len) if len > 0 => if j < token.len() {
            let s = token.subrange(0, j);
            match natural_value(s) {
                Some(v) if v <= len => Ok((Some(v), len)),
                _ => Err(mk_err(line, ErrKind::StartLeWavelen, s)),
            }
        } else {
            Ok((None, len))
        },
        _ => Err(mk_err(line, ErrKind::WaveLenPositive, token)),
    }
}

pub fn parse_wave_range(line: usize, token: &[char]) -> (r: Result<(Option<i32>, i32), SemlError>)
    ensures
        match (r, wave_range_value(line, token@)) {
            (Ok(a), Ok(b)) => a == b,
            (Err(e), Err(f)) => e@ == f,
            _ => false,
        },
{
    let j = find_char(token, '~', 0);
    let length_token = if j < token.len() {
        copy_range(token, j + 1, token.len())
    } else {
        copy_range(token, 0, token.len())
    };
    assert(token@.subrange(0, token@.len() as int) =~= token@);
    match parse_natural_chars(length_token.as_slice()) {
        Some(len) if len > 0 => if j < token.len() {
            let s = copy_range(token, 0, j);
            match parse_natural_chars(s.as_slice()) {
                Some(v) if v <= len => Ok((Some(v), len)),
                _ => Err(err(line, ErrKind::StartLeWavelen, s.as_slice())),
            }
        } else {
            Ok((None, len))
        },
        _ => Err(err(line, ErrKind::WaveLenPositive, token)),
    }
}

pub open spec fn is_bpd(c: char) -> bool {
    c == 'B' || c == 'P' || c == 'D'
}

/// Number of cobs (1 or 2) an upper-cased symbol fires, if it is a cob symbol:
/// `B`/`P`/`D` or their doubles, optionally followed by one digit.
pub open spec fn cob_kind(up: Seq<char>) -> Option<i32> {
    if up.len() > 0 && is_bpd(up[0]) && (up.len() == 1 || (up.len() == 2 && crate::text::is_digit(
        up[1],
    ))) {
        Some(1)
    } else if up.len() >= 2 && is_bpd(up[0]) && up[1] == up[0] && (up.len() == 2 || (up.len()
        == 3 && crate::text::is_digit(up[2]))) {
        Some(2)
    } else {
        None
    }
}

pub fn cob_kind_exec(up: &[char]) -> (r: Option<i32>)
    ensures
        r == cob_kind(up@),
{
    let n = up.len();
    if n > 0 && (up[0] == 'B' || up[0] == 'P' || up[0] == 'D') {
        if n == 1 || (n == 2 && up[1] as u32 >= 48 && up[1] as u32 <= 57) {
            return Some(1);
        }
    }
    if n >= 2 && (up[0] == 'B' || up[0] == 'P' || up[0] == 'D') && up[1] == up[0] {
        if n == 2 || (n == 3 && up[2] as u32 >= 48 && up[2] as u32 <= 57) {
            return Some(2);
        }
    }
    None
}

/// The one-character string holding `c`.
pub open spec fn one(c: char) -> Seq<char> {
    seq![c]
}

pub fn one_exec(c: char) -> (r: Vec<char>)
    ensures
        r@ == one(c),
{
    let mut v: Vec<char> = Vec::new();
    v.push(c);
    assert(v@ =~= one(c));
    v
}

/// A row digit within `1..=max`.
pub open spec fn row_in_range(c: char, max: i32) -> Option<i32> {
    match natural_value(one(c)) {
        Some(r) if 1 <= r <= max => Some(r),
        _ => None,
    }
}

fn row_in_range_exec(c: char, max: i32) -> (r: Option<i32>)
    ensures
        r == row_in_range(c, max),
{
    let v = one_exec(c);
    match parse_natural_chars(v.as_slice()) {
        Some(r) if 1 <= r && r <= max => Some(r),
        _ => None,
    }
}

/// `s` in ascending order, stably (insertion after all keys not greater).
pub open spec fn insert_sorted(s: Seq<i32>, x: i32) -> Seq<i32>
    decreases s.len(),
{
    if s.len() == 0 {
        seq![x]
    } else if s.last() <= x {
        s.push(x)
    } else {
        insert_sorted(s.drop_last(), x).push(s.last())
    }
}

pub open spec fn sort_ints(s: Seq<i32>) -> Seq<i32>
    decreases s.len(),
{
    if s.len() == 0 {
        s
    } else {
        insert_sorted(sort_ints(s.drop_last()), s.last())
    }
}

fn insert_sorted_exec(v: &mut Vec<i32>, x: i32)
    ensures
        final(v)@ == insert_sorted(old(v)@, x),
    decreases old(v)@.len(),
{
    if v.len() == 0 {
        v.push(x);
        assert(final(v)@ =~= seq![x]);
    } else {
        let last = v[v.len() - 1];
        if last <= x {
            v.push(x);
        } else {
            let ghost o = v@;
            let l = v.pop().unwrap();
            assert(v@ =~= o.drop_last());
            insert_sorted_exec(v, x);
            v.push(l);
        }
    }
}

pub fn sort_ints_exec(v: &Vec<i32>) -> (r: Vec<i32>)
    ensures
        r@ == sort_ints(v@),
{
    let mut r: Vec<i32> = Vec::new();
    let mut i: usize = 0;
    while i < v.len()
        invariant
            i <= v@.len(),
            r@ == sort_ints(v@.take(i as int)),
        decreases v@.len() - i,
    {
        assert(v@.take(i + 1).drop_last() =~= v@.take(i as int));
        insert_sorted_exec(&mut r, v[i]);
        i = i + 1;
    }
    assert(v@.take(v@.len() as int) =~= v@);
    r
}

/// Landing rows of a cob: one row digit per cob, sorted.
pub open spec fn cob_rows_value(line: usize, token: Seq<char>, cob_num: i32, max: i32) -> Result<
    Seq<i32>,
    SemlErrorV,
> {
    if token.len() != cob_num {
        Err(mk_err(line, ErrKind::NeedNLandingRows { n: cob_num }, token))
    } else {
        match cob_rows_from(line, token, max, 0) {
            Ok(rows) => Ok(sort_ints(rows)),
            Err(e) => Err(e),
        }
    }
}

/// Row digits of `token[i..]`, each within `1..=max`.
pub open spec fn cob_rows_from(line: usize, token: Seq<char>, max: i32, i: int) -> Result<
    Seq<i32>,
    SemlErrorV,
>
    decreases token.len() - i,
{
    if i >= token.len() || i < 0 {
        Ok(Seq::empty())
    } else {
        match row_in_range(token[i], max) {
            None => Err(mk_err(line, ErrKind::LandingRowRange { max }, one(token[i]))),
            Some(r) => match cob_rows_from(line, token, max, i + 1) {
                Ok(rest) => Ok(seq![r] + rest),
                Err(e) => Err(e),
            },
        }
    }
}

pub fn parse_cob_rows(line: usize, token: &[char], cob_num: i32, max: i32) -> (r: Result<
    Vec<i32>,
    SemlError,
>)
    ensures
        match (r, cob_rows_value(line, token@, cob_num, max)) {
            (Ok(a), Ok(b)) => a@ == b,
            (Err(e), Err(f)) => e@ == f,
            _ => false,
        },
{
    if cob_num < 0 || token.len() != cob_num as usize {
        return Err(err(line, ErrKind::NeedNLandingRows { n: cob_num }, token));
    }
    let mut rows: Vec<i32> = Vec::new();
    let mut i: usize = 0;
    while i < token.len()
        invariant
            i <= token@.len(),
            token@.len() == cob_num,
            cob_rows_from(line, token@, max, 0) == (match cob_rows_from(
                line,
                token@,
                max,
                i as int,
            ) {
                Ok(rest) => Ok(rows@ + rest),
                Err(e) => Err(e),
            }),
        decreases token@.len() - i,
    {
        match row_in_range_exec(token[i], max) {
            None => {
                let o = one_exec(token[i]);
                return Err(err(line, ErrKind::LandingRowRange { max }, o.as_slice()));
            },
            Some(r) => {
                let ghost old_rows = rows@;
                rows.push(r);
                proof {
                    match cob_rows_from(line, token@, max, i + 1) {
                        Ok(rest) => {
                            assert(rows@ + rest =~= old_rows + (seq![r] + rest));
                        },
                        Err(e) => {},
                    }
                }
            },
        }
        i = i + 1;
    }
    assert(rows@ + Seq::<i32>::empty() =~= rows@);
    Ok(sort_ints_exec(&rows))
}

/// A card column digit string within `1..=9`.
pub open spec fn card_col_value(line: usize, token: Seq<char>) -> Result<i32, SemlErrorV> {
    match natural_value(token) {
        Some(c) if 1 <= c <= 9 => Ok(c),
        _ => Err(mk_err(line, ErrKind::CardColRange, token)),
    }
}

pub fn parse_card_col(line: usize, token: &[char]) -> (r: Result<i32, SemlError>)
    ensures
        match (r, card_col_value(line, token@)) {
            (Ok(a), Ok(b)) => a == b,
            (Err(e), Err(f)) => e@ == f,
            _ => false,
        },
{
    match parse_natural_chars(token) {
        Some(c) if 1 <= c && c <= 9 => Ok(c),
        _ => Err(err(line, ErrKind::CardColRange, token)),
    }
}

/// A card row within `1..=max`.
pub open spec fn card_row_value(line: usize, token: Seq<char>, max: i32) -> Result<
    i32,
    SemlErrorV,
> {
    match natural_value(token) {
        Some(r) if 1 <= r <= max => Ok(r),
        _ => Err(mk_err(line, ErrKind::CardRowRange { max }, token)),
    }
}

pub fn parse_card_row(line: usize, token: &[char], max: i32) -> (r: Result<i32, SemlError>)
    ensures
        match (r, card_row_value(line, token@, max)) {
            (Ok(a), Ok(b)) => a == b,
            (Err(e), Err(f)) => e@ == f,
            _ => false,
        },
{
    match parse_natural_chars(token) {
        Some(r) if 1 <= r && r <= max => Ok(r),
        _ => Err(err(line, ErrKind::CardRowRange { max }, token)),
    }
}

/// Rows of a smart card: at least two distinct row digits, sorted.
pub open spec fn smart_rows_value(line: usize, token: Seq<char>, max: i32) -> Result<
    Seq<i32>,
    SemlErrorV,
> {
    if token.len() < 2 {
        Err(mk_err(line, ErrKind::Need2CardRows, token))
    } else {
        match smart_rows_from(line, token, max, 0, Seq::empty()) {
            Ok(rows) => Ok(sort_ints(rows)),
            Err(e) => Err(e),
        }
    }
}

/// Distinct row digits of `token[i..]` appended to `acc`.
pub open spec fn smart_rows_from(
    line: usize,
    token: Seq<char>,
    max: i32,
    i: int,
    acc: Seq<i32>,
) -> Result<Seq<i32>, SemlErrorV>
    decreases token.len() - i,
{
    if i >= token.len() || i < 0 {
        Ok(acc)
    } else {
        match row_in_range(token[i], max) {
            None => Err(mk_err(line, ErrKind::CardRowRange { max }, one(token[i]))),
            Some(r) => if acc.contains(r) {
                Err(mk_err(line, ErrKind::DupCardRow, one(token[i])))
            } else {
                smart_rows_from(line, token, max, i + 1, acc.push(r))
            },
        }
    }
}

pub fn contains_i32(v: &Vec<i32>, x: i32) -> (r: bool)
    ensures
        r == v@.contains(x),
{
    let mut k: usize = 0;
    while k < v.len()
        invariant
            k <= v@.len(),
            forall|j: int| 0 <= j < k ==> v@[j] != x,
        decreases v@.len() - k,
    {
        if v[k] == x {
            assert(v@[k as int] == x);
            return true;
        }
        k = k + 1;
    }
    false
}

pub fn parse_smart_card_rows(line: usize, token: &[char], max: i32) -> (r: Result<
    Vec<i32>,
    SemlError,
>)
    ensures
        match (r, smart_rows_value(line, token@, max)) {
            (Ok(a), Ok(b)) => a@ == b,
            (Err(e), Err(f)) => e@ == f,
            _ => false,
        },
{
    if token.len() < 2 {
        return Err(err(line, ErrKind::Need2CardRows, token));
    }
    let mut rows: Vec<i32> = Vec::new();
    let mut i: usize = 0;
    while i < token.len()
        invariant
            i <= token@.len(),
            token@.len() >= 2,
            smart_rows_from(line, token@, max, 0, Seq::empty()) == smart_rows_from(
                line,
                token@,
                max,
                i as int,
                rows@,
            ),
        decreases token@.len() - i,
    {
        match row_in_range_exec(token[i], max) {
            None => {
                let o = one_exec(token[i]);
                return Err(err(line, ErrKind::CardRowRange { max }, o.as_slice()));
            },
            Some(r) => {
                if contains_i32(&rows, r) {
                    let o = one_exec(token[i]);
                    return Err(err(line, ErrKind::DupCardRow, o.as_slice()));
                }
                rows.push(r);
            },
        }
        i = i + 1;
    }
    Ok(sort_ints_exec(&rows))
}

/// Rows of a fodder token with their kinds: a row digit followed by `'`
/// (puff) or `"` (pot), else a normal fodder.
pub open spec fn fodder_rows_from(
    line: usize,
    token: Seq<char>,
    max: i32,
    i: int,
    acc: Seq<(i32, Fodder)>,
) -> Result<Seq<(i32, Fodder)>, SemlErrorV>
    decreases token.len() - i,
{
    if i >= token.len() || i < 0 {
        Ok(acc)
    } else {
        match row_in_range(token[i], max) {
            None => Err(mk_err(line, ErrKind::CardRowRange { max }, one(token[i]))),
            Some(r) => if exists|k: int| 0 <= k < acc.len() && acc[k].0 == r {
                Err(mk_err(line, ErrKind::DupCardRow, one(token[i])))
            } else if i + 1 < token.len() && token[i + 1] == '\'' {
                fodder_rows_from(line, token, max, i + 2, acc.push((r, Fodder::Puff)))
            } else if i + 1 < token.len() && token[i + 1] == '"' {
                fodder_rows_from(line, token, max, i + 2, acc.push((r, Fodder::Pot)))
            } else {
                fodder_rows_from(line, token, max, i + 1, acc.push((r, Fodder::Normal)))
            },
        }
    }
}

/// `s` ordered by row, stably.
pub open spec fn insert_by_row(s: Seq<(i32, Fodder)>, x: (i32, Fodder)) -> Seq<(i32, Fodder)>
    decreases s.len(),
{
    if s.len() == 0 {
        seq![x]
    } else if s.last().0 <= x.0 {
        s.push(x)
    } else {
        insert_by_row(s.drop_last(), x).push(s.last())
    }
}

pub open spec fn sort_by_row(s: Seq<(i32, Fodder)>) -> Seq<(i32, Fodder)>
    decreases s.len(),
{
    if s.len() == 0 {
        s
    } else {
        insert_by_row(sort_by_row(s.drop_last()), s.last())
    }
}

pub open spec fn fodder_rows_value(line: usize, token: Seq<char>, max: i32) -> Result<
    Seq<(i32, Fodder)>,
    SemlErrorV,
> {
    match fodder_rows_from(line, token, max, 0, Seq::empty()) {
        Ok(rows) => Ok(sort_by_row(rows)),
        Err(e) => Err(e),
    }
}

fn insert_by_row_exec(v: &mut Vec<(i32, Fodder)>, x: (i32, Fodder))
    ensures
        final(v)@ == insert_by_row(old(v)@, x),
    decreases old(v)@.len(),
{
    if v.len() == 0 {
        v.push(x);
        assert(final(v)@ =~= seq![x]);
    } else {
        let last = v[v.len() - 1];
        if last.0 <= x.0 {
            v.push(x);
        } else {
            let ghost o = v@;
            let l = v.pop().unwrap();
            assert(v@ =~= o.drop_last());
            insert_by_row_exec(v, x);
            v.push(l);
        }
    }
}

fn sort_by_row_exec(v: &Vec<(i32, Fodder)>) -> (r: Vec<(i32, Fodder)>)
    ensures
        r@ == sort_by_row(v@),
{
    let mut r: Vec<(i32, Fodder)> = Vec::new();
    let mut i: usize = 0;
    while i < v.len()
        invariant
            i <= v@.len(),
            r@ == sort_by_row(v@.take(i as int)),
        decreases v@.len() - i,
    {
        assert(v@.take(i + 1).drop_last() =~= v@.take(i as int));
        insert_by_row_exec(&mut r, v[i]);
        i = i + 1;
    }
    assert(v@.take(v@.len() as int) =~= v@);
    r
}

pub fn parse_fodder_rows(line: usize, token: &[char], max: i32) -> (r: Result<
    Vec<(i32, Fodder)>,
    SemlError,
>)
    ensures
        match (r, fodder_rows_value(line, token@, max)) {
            (Ok(a), Ok(b)) => a@ == b,
            (Err(e), Err(f)) => e@ == f,
            _ => false,
        },
{
    let mut rows: Vec<(i32, Fodder)> = Vec::new();
    let mut i: usize = 0;
    let n = token.len();
    while i < n
        invariant
            n == token@.len(),
            i <= n + 1,
            fodder_rows_from(line, token@, max, 0, Seq::empty()) == fodder_rows_from(
                line,
                token@,
                max,
                i as int,
                rows@,
            ),
        decreases n + 1 - i,
    {
        match row_in_range_exec(token[i], max) {
            None => {
                let o = one_exec(token[i]);
                return Err(err(line, ErrKind::CardRowRange { max }, o.as_slice()));
            },
            Some(r) => {
                let mut k: usize = 0;
                while k < rows.len()
                    invariant
                        k <= rows@.len(),
                        n == token@.len(),
                        i < n,
                        row_in_range(token@[i as int], max) == Some(r),
                        fodder_rows_from(line, token@, max, 0, Seq::empty()) == fodder_rows_from(
                            line,
                            token@,
                            max,
                            i as int,
                            rows@,
                        ),
                        forall|j: int| 0 <= j < k ==> rows@[j].0 != r,
                    decreases rows@.len() - k,
                {
                    if rows[k].0 == r {
                        assert(rows@[k as int].0 == r);
                        let o = one_exec(token[i]);
                        return Err(err(line, ErrKind::DupCardRow, o.as_slice()));
                    }
                    k = k + 1;
                }
                if i + 1 < n && token[i + 1] == '\'' {
                    rows.push((r, Fodder::Puff));
                    i = i + 2;
                } else if i + 1 < n && token[i + 1] == '"' {
                    rows.push((r, Fodder::Pot));
                    i = i + 2;
                } else {
                    rows.push((r, Fodder::Normal));
                    i = i + 1;
                }
            },
        }
    }
    Ok(sort_by_row_exec(&rows))
}

} // verus!
