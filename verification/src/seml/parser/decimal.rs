//! Landing-column literals: a decimal number (`^\d+(\.\d+)?$`) is accepted
//! when the double it reads as lies within `[0, 10]`, which holds exactly
//! when its value is at most `10 + 2^-50` (the largest value that rounds to
//! `10.0`).
use vstd::prelude::*;
use crate::text::{all_digits, digit_of, digits_value, find_char, find_from, is_digit};

verus! {

pub open spec fn pow10(k: nat) -> nat
    decreases k,
{
    if k == 0 {
        1
    } else {
        10 * pow10((k - 1) as nat)
    }
}

/// `2^50`.
pub open spec fn two_pow_50() -> int {
    1125899906842624
}

/// A landing-column literal whose value `v` satisfies `0 <= v <= 10 + 2^-50`.
pub open spec fn col_literal_ok(s: Seq<char>) -> bool {
    let d = find_from(s, '.', 0);
    let ip = s.subrange(0, d);
    if !(ip.len() > 0 && all_digits(ip)) {
        false
    } else if d >= s.len() {
        digits_value(ip) <= 10
    } else {
        let fr = s.subrange(d + 1, s.len() as int);
        &&& fr.len() > 0
        &&& all_digits(fr)
        &&& (digits_value(ip) * pow10(fr.len()) + digits_value(fr)) * two_pow_50() <= (10
            * two_pow_50() + 1) * pow10(fr.len())
    }
}

pub proof fn lemma_pow10_pos(k: nat)
    ensures
        pow10(k) >= 1,
    decreases k,
{
    if k > 0 {
        lemma_pow10_pos((k - 1) as nat);
    }
}

pub proof fn lemma_digits_value_lt(s: Seq<char>)
    requires
        all_digits(s),
    ensures
        digits_value(s) < pow10(s.len()),
    decreases s.len(),
{
    if s.len() > 0 {
        assert(all_digits(s.drop_last())) by {
            assert forall|i: int| 0 <= i < s.drop_last().len() implies is_digit(
                #[trigger] s.drop_last()[i],
            ) by {
                assert(s.drop_last()[i] == s[i]);
            }
        }
        assert(is_digit(s[s.len() - 1]));
        lemma_digits_value_lt(s.drop_last());
    }
}

/// `10^i - value(fr[..i]) * 2^50`: the remaining room below `2^-50` scaled by `10^i`.
pub open spec fn room(fr: Seq<char>, i: int) -> int {
    pow10(i as nat) - digits_value(fr.take(i)) * two_pow_50()
}

proof fn lemma_room_step(fr: Seq<char>, i: int)
    requires
        0 <= i < fr.len(),
    ensures
        room(fr, i + 1) == 10 * room(fr, i) - digit_of(fr[i]) * two_pow_50(),
{
    assert(fr.take(i + 1).drop_last() =~= fr.take(i));
    assert(fr.take(i + 1).last() == fr[i]);
}

proof fn lemma_room_stays_negative(fr: Seq<char>, i: int)
    requires
        0 <= i <= fr.len(),
        all_digits(fr),
        room(fr, i) < 0,
    ensures
        room(fr, fr.len() as int) < 0,
    decreases fr.len() - i,
{
    if i < fr.len() {
        lemma_room_step(fr, i);
        lemma_room_stays_negative(fr, i + 1);
    }
}

proof fn lemma_room_stays_large(fr: Seq<char>, i: int)
    requires
        0 <= i <= fr.len(),
        all_digits(fr),
        room(fr, i) >= two_pow_50(),
    ensures
        room(fr, fr.len() as int) >= two_pow_50(),
    decreases fr.len() - i,
{
    if i < fr.len() {
        lemma_room_step(fr, i);
        assert(is_digit(fr[i]));
        lemma_room_stays_large(fr, i + 1);
    }
}

/// Whether `0.fr <= 2^-50`.
fn frac_within(fr: &[char]) -> (r: bool)
    requires
        all_digits(fr@),
    ensures
        r == (digits_value(fr@) * two_pow_50() <= pow10(fr@.len())),
{
    let c: i64 = 1125899906842624;
    let mut y: i64 = 1;
    let mut i: usize = 0;
    assert(fr@.take(0).len() == 0);
    while i < fr.len()
        invariant
            i <= fr@.len(),
            all_digits(fr@),
            c == two_pow_50(),
            y == room(fr@, i as int),
            0 <= y < c,
        decreases fr@.len() - i,
    {
        proof {
            lemma_room_step(fr@, i as int);
        }
        assert(is_digit(fr@[i as int]));
        let d = (fr[i] as u32 - 48) as i64;
        y = 10 * y - d * c;
        i = i + 1;
        if y < 0 {
            proof {
                lemma_room_stays_negative(fr@, i as int);
                assert(fr@.take(fr@.len() as int) =~= fr@);
            }
            return false;
        }
        if y >= c {
            proof {
                lemma_room_stays_large(fr@, i as int);
                assert(fr@.take(fr@.len() as int) =~= fr@);
            }
            return true;
        }
    }
    assert(fr@.take(fr@.len() as int) =~= fr@);
    true
}

/// Whether a landing-column literal is accepted (see `col_literal_ok`).
pub fn col_literal_ok_exec(s: &[char]) -> (r: bool)
    ensures
        r == col_literal_ok(s@),
{
    let d = find_char(s, '.', 0);
    if d == 0 {
        return false;
    }
    let ghost ip = s@.subrange(0, d as int);
    let mut acc: u64 = 0;
    let mut i: usize = 0;
    assert(ip.take(0).len() == 0);
    while i < d
        invariant
            d <= s@.len(),
            d as int == find_from(s@, '.', 0),
            ip == s@.subrange(0, d as int),
            i <= d,
            forall|k: int| 0 <= k < i ==> is_digit(#[trigger] ip[k]),
            acc == (if digits_value(ip.take(i as int)) >= 11 {
                11
            } else {
                digits_value(ip.take(i as int))
            }),
        decreases d - i,
    {
        let u = s[i] as u32;
        assert(ip[i as int] == s@[i as int]);
        if u < 48 || u > 57 {
            assert(ip[i as int] == s@[i as int]);
            assert(!is_digit(ip[i as int]));
            assert(!all_digits(ip));
            return false;
        }
        assert(ip.take(i + 1).drop_last() =~= ip.take(i as int));
        assert(ip.take(i + 1).last() == ip[i as int]);
        let nacc = acc * 10 + (u - 48) as u64;
        acc = if nacc >= 11 {
            11
        } else {
            nacc
        };
        i = i + 1;
    }
    assert(ip.take(d as int) =~= ip);
    assert(all_digits(ip));
    if d >= s.len() {
        return acc <= 10;
    }
    let n = s.len();
    let ghost fr = s@.subrange(d + 1, n as int);
    if d + 1 >= n {
        return false;
    }
    let mut k: usize = d + 1;
    while k < n
        invariant
            d as int == find_from(s@, '.', 0),
            ip == s@.subrange(0, d as int),
            all_digits(ip),
            d + 1 <= k <= n,
            n == s@.len(),
            fr == s@.subrange(d + 1, n as int),
            forall|j: int| 0 <= j < k - (d + 1) ==> is_digit(#[trigger] fr[j]),
        decreases n - k,
    {
        let u = s[k] as u32;
        assert(fr[k - (d + 1)] == s@[k as int]);
        if u < 48 || u > 57 {
            assert(fr[k - (d + 1)] == s@[k as int]);
            assert(!is_digit(fr[k - (d + 1)]));
            assert(!all_digits(fr));
            return false;
        }
        k = k + 1;
    }
    assert(all_digits(fr));
    let ghost v = digits_value(ip);
    let ghost f = digits_value(fr);
    let ghost p = pow10(fr.len());
    proof {
        lemma_digits_value_lt(fr);
        lemma_pow10_pos(fr.len());
    }
    if acc <= 9 {
        assert((v * p + f) * two_pow_50() <= (10 * two_pow_50() + 1) * p) by (nonlinear_arith)
            requires
                v <= 9,
                0 <= f < p,
                p >= 1,
                two_pow_50() == 1125899906842624,
        ;
        true
    } else if acc >= 11 {
        assert((v * p + f) * two_pow_50() > (10 * two_pow_50() + 1) * p) by (nonlinear_arith)
            requires
                v >= 11,
                0 <= f,
                p >= 1,
                two_pow_50() == 1125899906842624,
        ;
        false
    } else {
        assert(v == 10);
        let rest = crate::text::copy_range(s, d + 1, n);
        let w = frac_within(rest.as_slice());
        assert(((v * p + f) * two_pow_50() <= (10 * two_pow_50() + 1) * p) == (f * two_pow_50()
            <= p)) by (nonlinear_arith)
            requires
                v == 10,
                two_pow_50() == 1125899906842624,
        ;
        w
    }
}

} // verus!
