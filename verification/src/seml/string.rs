//! Small string helpers of the SEML language: natural-number parsing, prefix
//! and suffix chopping, and closest-match suggestion by edit distance.
use vstd::prelude::*;
use vstd::string::*;
use crate::text::{
    all_digits, chars_of, copy_range, digit_char, digits_value, ends_with, ends_with_chars,
    is_digit, nat_text,
    starts_with, starts_with_chars,
};

verus! {

/// The value of a non-empty all-digit string, when it fits an `i32`
/// (`^\d+$` followed by `str::parse::<i32>`).
pub open spec fn natural_value(s: Seq<char>) -> Option<i32> {
    if s.len() > 0 && all_digits(s) && digits_value(s) <= i32::MAX {
        Some(digits_value(s) as i32)
    } else {
        None
    }
}

pub proof fn lemma_digits_value_prefix_mono(s: Seq<char>, k: int)
    requires
        0 <= k <= s.len(),
    ensures
        digits_value(s.take(k)) <= digits_value(s),
    decreases s.len() - k,
{
    if k < s.len() {
        lemma_digits_value_prefix_mono(s, k + 1);
        assert(s.take(k + 1).drop_last() =~= s.take(k));
    } else {
        assert(s.take(k) =~= s);
    }
}

pub fn parse_natural_chars(s: &[char]) -> (r: Option<i32>)
    ensures
        r == natural_value(s@),
{
    let n = s.len();
    if n == 0 {
        return None;
    }
    let mut k: usize = 0;
    while k < n
        invariant
            n == s@.len(),
            k <= n,
            forall|i: int| 0 <= i < k ==> is_digit(#[trigger] s@[i]),
        decreases n - k,
    {
        let u = s[k] as u32;
        if u < 48 || u > 57 {
            return None;
        }
        k = k + 1;
    }
    let mut acc: u64 = 0;
    let mut k: usize = 0;
    while k < n
        invariant
            n == s@.len(),
            k <= n,
            all_digits(s@),
            acc == digits_value(s@.take(k as int)),
            acc <= i32::MAX,
        decreases n - k,
    {
        let d = (s[k] as u32 - 48) as u64;
        assert(s@.take(k + 1).drop_last() =~= s@.take(k as int));
        let nacc = acc * 10 + d;
        if nacc > 2147483647 {
            proof {
                lemma_digits_value_prefix_mono(s@, k + 1);
            }
            return None;
        }
        acc = nacc;
        k = k + 1;
    }
    assert(s@.take(n as int) =~= s@);
    Some(acc as i32)
}

/// Accept only non-negative whole numbers (`^\d+$`), no leading `+`.
pub fn parse_natural(s: &str) -> (r: Option<i32>)
    ensures
        r == natural_value(s@),
{
    let v = chars_of(s);
    parse_natural_chars(v.as_slice())
}

/// `s` without `p` in front, when it starts with `p`.
pub open spec fn chopped_prefix(s: Seq<char>, p: Seq<char>) -> Seq<char> {
    if starts_with(s, p) {
        s.subrange(p.len() as int, s.len() as int)
    } else {
        s
    }
}

/// `s` without `p` at its end, when it ends with `p`.
pub open spec fn chopped_suffix(s: Seq<char>, p: Seq<char>) -> Seq<char> {
    if ends_with(s, p) {
        s.subrange(0, s.len() - p.len())
    } else {
        s
    }
}

pub fn chop_prefix_chars(s: &[char], p: &[char]) -> (r: Vec<char>)
    ensures
        r@ == chopped_prefix(s@, p@),
{
    if starts_with_chars(s, p) {
        copy_range(s, p.len(), s.len())
    } else {
        copy_range(s, 0, s.len())
    }
}

pub fn chop_suffix_chars(s: &[char], p: &[char]) -> (r: Vec<char>)
    ensures
        r@ == chopped_suffix(s@, p@),
{
    if ends_with_chars(s, p) {
        copy_range(s, 0, s.len() - p.len())
    } else {
        copy_range(s, 0, s.len())
    }
}

pub fn chop_prefix<'a>(s: &'a str, prefix: &str) -> (r: &'a str)
    ensures
        r@ == chopped_prefix(s@, prefix@),
{
    let sv = chars_of(s);
    let pv = chars_of(prefix);
    if starts_with_chars(sv.as_slice(), pv.as_slice()) {
        let n = s.unicode_len();
        s.substring_char(pv.len(), n)
    } else {
        s
    }
}

pub fn chop_suffix<'a>(s: &'a str, suffix: &str) -> (r: &'a str)
    ensures
        r@ == chopped_suffix(s@, suffix@),
{
    let sv = chars_of(s);
    let pv = chars_of(suffix);
    if ends_with_chars(sv.as_slice(), pv.as_slice()) {
        let n = s.unicode_len();
        s.substring_char(0, n - pv.len())
    } else {
        s
    }
}

pub open spec fn min_nat(x: nat, y: nat) -> nat {
    if x <= y {
        x
    } else {
        y
    }
}

/// Edit distance of `a` and `b`: the fewest insertions, deletions and
/// substitutions that turn one into the other (the table recurrence over
/// prefixes).
pub open spec fn edit_distance(a: Seq<char>, b: Seq<char>) -> nat
    decreases a.len() + b.len(),
{
    if a.len() == 0 {
        b.len()
    } else if b.len() == 0 {
        a.len()
    } else if a.last() == b.last() {
        edit_distance(a.drop_last(), b.drop_last())
    } else {
        1 + min_nat(
            min_nat(edit_distance(a.drop_last(), b.drop_last()), edit_distance(a, b.drop_last())),
            edit_distance(a.drop_last(), b),
        )
    }
}

pub open spec fn max_nat(x: nat, y: nat) -> nat {
    if x >= y {
        x
    } else {
        y
    }
}

pub proof fn lemma_edit_distance_bound(a: Seq<char>, b: Seq<char>)
    ensures
        edit_distance(a, b) <= max_nat(a.len(), b.len()),
    decreases a.len() + b.len(),
{
    if a.len() > 0 && b.len() > 0 {
        lemma_edit_distance_bound(a.drop_last(), b.drop_last());
    }
}

fn levenshtein(a: &[char], b: &[char]) -> (r: usize)
    ensures
        r == edit_distance(a@, b@),
{
    let na = a.len();
    let nb = b.len();
    let mut prev: Vec<usize> = Vec::new();
    let mut curr: Vec<usize> = Vec::new();
    let mut j: usize = 0;
    while j < na
        invariant
            na == a@.len(),
            j <= na,
            prev@.len() == j,
            curr@.len() == j,
            forall|t: int| 0 <= t < j ==> prev@[t] == edit_distance(a@.take(t), b@.take(0)),
        decreases na - j,
    {
        assert(b@.take(0).len() == 0);
        prev.push(j);
        curr.push(0);
        j = j + 1;
    }
    assert(b@.take(0).len() == 0);
    prev.push(na);
    curr.push(0);
    let mut i: usize = 0;
    while i < nb
        invariant
            na == a@.len(),
            nb == b@.len(),
            i <= nb,
            prev@.len() == na + 1,
            curr@.len() == na + 1,
            forall|t: int| 0 <= t <= na ==> prev@[t] == edit_distance(a@.take(t), b@.take(i as int)),
        decreases nb - i,
    {
        curr.set(0, i + 1);
        assert(a@.take(0).len() == 0);
        let mut j: usize = 0;
        while j < na
            invariant
                na == a@.len(),
                nb == b@.len(),
                i < nb,
                j <= na,
                prev@.len() == na + 1,
                curr@.len() == na + 1,
                forall|t: int|
                    0 <= t <= na ==> prev@[t] == edit_distance(a@.take(t), b@.take(i as int)),
                forall|t: int|
                    0 <= t <= j ==> curr@[t] == edit_distance(a@.take(t), b@.take(i + 1)),
            decreases na - j,
        {
            let ghost ai = a@.take(j + 1);
            let ghost bi = b@.take(i + 1);
            assert(ai.drop_last() =~= a@.take(j as int));
            assert(bi.drop_last() =~= b@.take(i as int));
            proof {
                lemma_edit_distance_bound(a@.take(j as int), b@.take(i as int));
            }
            let v = if b[i] == a[j] {
                prev[j]
            } else {
                let m1 = if prev[j] <= curr[j] {
                    prev[j]
                } else {
                    curr[j]
                };
                let m2 = if m1 <= prev[j + 1] {
                    m1
                } else {
                    prev[j + 1]
                };
                1 + m2
            };
            curr.set(j + 1, v);
            j = j + 1;
        }
        std::mem::swap(&mut prev, &mut curr);
        i = i + 1;
    }
    assert(a@.take(na as int) =~= a@);
    assert(b@.take(nb as int) =~= b@);
    prev[na]
}

/// A candidate is a possible suggestion when it is not completely different
/// from the query (edit distance below the longer length).
pub open spec fn suggestible(q: Seq<char>, c: Seq<char>) -> bool {
    edit_distance(q, c) < max_nat(q.len(), c.len())
}

/// Closest match to `query` among `candidates`, or `None` if all are completely
/// different. Ties go to the earliest candidate.
pub fn find_closest_string<'a>(query: &str, candidates: &[&'a str]) -> (r: Option<&'a str>)
    ensures
        match r {
            None => forall|i: int|
                0 <= i < candidates@.len() ==> !suggestible(query@, (#[trigger] candidates@[i])@),
            Some(c) => exists|i: int|
                0 <= i < candidates@.len() && c == candidates@[i] && suggestible(
                    query@,
                    candidates@[i]@,
                ) && (forall|j: int|
                    0 <= j < candidates@.len() && suggestible(query@, (#[trigger] candidates@[j])@)
                        ==> edit_distance(query@, candidates@[i]@) <= edit_distance(
                        query@,
                        candidates@[j]@,
                    )) && (forall|j: int|
                    0 <= j < i && suggestible(query@, (#[trigger] candidates@[j])@)
                        ==> edit_distance(query@, candidates@[i]@) < edit_distance(
                        query@,
                        candidates@[j]@,
                    )),
        },
{
    let q = chars_of(query);
    let mut best: Option<&'a str> = None;
    let mut best_dist: usize = usize::MAX;
    let ghost mut best_i: int = -1;
    let mut k: usize = 0;
    while k < candidates.len()
        invariant
            k <= candidates@.len(),
            q@ == query@,
            best is None ==> forall|i: int|
                0 <= i < k ==> !suggestible(query@, (#[trigger] candidates@[i])@),
            best is None ==> best_dist == usize::MAX,
            best is Some ==> {
                &&& 0 <= best_i < k
                &&& best == Some(candidates@[best_i])
                &&& suggestible(query@, candidates@[best_i]@)
                &&& best_dist == edit_distance(query@, candidates@[best_i]@)
                &&& forall|j: int|
                    0 <= j < k && suggestible(query@, (#[trigger] candidates@[j])@)
                        ==> best_dist <= edit_distance(query@, candidates@[j]@)
                &&& forall|j: int|
                    0 <= j < best_i && suggestible(query@, (#[trigger] candidates@[j])@)
                        ==> best_dist < edit_distance(query@, candidates@[j]@)
            },
        decreases candidates@.len() - k,
    {
        let cand = candidates[k];
        let c = chars_of(cand);
        let dist = levenshtein(q.as_slice(), c.as_slice());
        let max_possible = if q.len() >= c.len() {
            q.len()
        } else {
            c.len()
        };
        if dist < max_possible && dist < best_dist {
            best_dist = dist;
            best = Some(cand);
            proof {
                best_i = k as int;
            }
        }
        k = k + 1;
    }
    best
}

proof fn lemma_nat_text_digits(n: nat)
    ensures
        nat_text(n).len() > 0,
        all_digits(nat_text(n)),
        digits_value(nat_text(n)) == n,
    decreases n,
{
    let d = n % 10;
    assert(digit_char(d) as u32 == d + 48);
    assert(crate::text::digit_of(digit_char(d)) == d);
    if n < 10 {
        assert(nat_text(n).drop_last() =~= Seq::<char>::empty());
        assert(digits_value(nat_text(n).drop_last()) == 0);
        assert(d == n);
        assert(digits_value(nat_text(n)) == n);
    }
    if n >= 10 {
        lemma_nat_text_digits(n / 10);
        let t = nat_text(n);
        assert(t.drop_last() =~= nat_text(n / 10));
        assert(t.last() == digit_char(n % 10));
        vstd::arithmetic::div_mod::lemma_fundamental_div_mod(n as int, 10);
        assert(digits_value(t) == digits_value(nat_text(n / 10)) * 10 + d);
        assert(digits_value(t) == n);
        assert forall|i: int| 0 <= i < t.len() implies is_digit(#[trigger] t[i]) by {
            if i < t.len() - 1 {
                assert(t[i] == nat_text(n / 10)[i]);
            }
        }
    }
}

/// Reading back the decimal text of a number that fits an `i32` gives the
/// number.
pub proof fn lemma_natural_of_text(n: nat)
    requires
        n <= i32::MAX,
    ensures
        natural_value(nat_text(n)) == Some(n as i32),
{
    lemma_nat_text_digits(n);
}

/// Chopping a prefix off a text that starts with it leaves the rest, and
/// chopping a suffix off a text that ends with it leaves the front.
pub proof fn lemma_chop_concat(p: Seq<char>, s: Seq<char>)
    ensures
        chopped_prefix(p + s, p) == s,
        chopped_suffix(s + p, p) == s,
{
    assert((p + s).subrange(0, p.len() as int) =~= p);
    assert((p + s).subrange(p.len() as int, (p + s).len() as int) =~= s);
    assert((s + p).subrange((s + p).len() - p.len(), (s + p).len() as int) =~= p);
    assert((s + p).subrange(0, (s + p).len() - p.len()) =~= s);
}

} // verus!
