//! Exact values of decimal numbers written with a point and an exponent,
//! measured in units of 2^-26 and capped at 2^32 of those units, and how
//! such a value rounds to a whole number once it is read as an `f32`.
//!
//! A number is a run of digits `s` with the decimal point `p` places from
//! its start (`p` may lie outside the run), so its value is
//! `digits_value(s) * 10^(p - |s|)`. The values at which the rounded `f32`
//! changes all lie on the grid of 2^-26 steps, so the value rounded down to
//! that grid decides the result.
use vstd::prelude::*;

use vstd::arithmetic::div_mod::{
    lemma_basic_div, lemma_div_denominator, lemma_div_is_ordered, lemma_hoist_over_denominator,
};
use vstd::arithmetic::mul::{lemma_mul_inequality, lemma_mul_nonnegative};

use crate::text::{
    all_digits, digit_value, digits_value, is_digit, lemma_digits_value_nonneg, suffix_from,
};

verus! {

/// `10^n`.
pub open spec fn pow10(n: nat) -> nat
    decreases n,
{
    if n == 0 {
        1
    } else {
        10 * pow10((n - 1) as nat)
    }
}

/// The unit of measure: values are counted in `2^-26`.
pub open spec fn scale() -> int {
    0x400_0000
}

/// The cap: values are counted up to `64` (`2^32` units).
pub open spec fn cap() -> int {
    0x1_0000_0000
}

/// `floor(v * 10^q * 2^26)` for `v >= 0`.
pub open spec fn scaled_floor(v: int, q: int) -> int {
    if q >= 0 {
        v * scale() * pow10(q as nat)
    } else {
        (v * scale()) / (pow10((-q) as nat) as int)
    }
}

/// `scaled_floor(v, q)`, at most `cap()`.
pub open spec fn scaled_capped(v: int, q: int) -> int {
    if scaled_floor(v, q) > cap() {
        cap()
    } else {
        scaled_floor(v, q)
    }
}

/// Powers of ten are positive.
pub proof fn lemma_pow10_positive(n: nat)
    ensures
        pow10(n) >= 1,
    decreases n,
{
    if n > 0 {
        lemma_pow10_positive((n - 1) as nat);
    }
}

/// `10^(a+b) = 10^a * 10^b`.
pub proof fn lemma_pow10_add(a: nat, b: nat)
    ensures
        pow10(a + b) == pow10(a) * pow10(b),
    decreases b,
{
    if b > 0 {
        let b1 = (b - 1) as nat;
        lemma_pow10_add(a, b1);
        assert((a + b - 1) as nat == a + b1);
        assert(pow10(a + b) == 10 * pow10(a + b1));
        assert(pow10(b) == 10 * pow10(b1));
        let x = pow10(a) as int;
        let y = pow10(b1) as int;
        assert(10 * (x * y) == x * (10 * y)) by (nonlinear_arith);
    } else {
        assert(a + b == a);
        assert(pow10(0) == 1);
        assert(pow10(a) * 1 == pow10(a));
    }
}

/// Powers of ten grow with the exponent.
pub proof fn lemma_pow10_monotone(a: nat, b: nat)
    requires
        a <= b,
    ensures
        pow10(a) <= pow10(b),
{
    lemma_pow10_add(a, (b - a) as nat);
    lemma_pow10_positive((b - a) as nat);
    lemma_mul_inequality(1, pow10((b - a) as nat) as int, pow10(a) as int);
    assert(pow10(a) * pow10((b - a) as nat) == pow10((b - a) as nat) * pow10(a)) by (
    nonlinear_arith);
}

/// The value of two runs of digits one after the other.
pub proof fn lemma_digits_concat(a: Seq<char>, b: Seq<char>)
    ensures
        digits_value(a + b) == digits_value(a) * pow10(b.len()) + digits_value(b),
    decreases b.len(),
{
    if b.len() == 0 {
        assert(a + b =~= a);
        assert(digits_value(b) == 0);
        assert(pow10(0) == 1);
        assert(digits_value(a) * 1 == digits_value(a));
    } else {
        let b1 = b.drop_last();
        lemma_digits_concat(a, b1);
        assert((a + b).drop_last() =~= a + b1);
        assert((a + b).last() == b.last());
        let x = digits_value(a);
        let y = pow10(b1.len()) as int;
        let z = digits_value(b1);
        assert(b1.len() == (b.len() - 1) as nat);
        assert(pow10(b.len()) == 10 * y);
        assert(digits_value(a + b) == 10 * (x * y + z) + digit_value(b.last()));
        assert(digits_value(b) == 10 * z + digit_value(b.last()));
        assert(10 * (x * y + z) == x * (10 * y) + 10 * z) by (nonlinear_arith);
    }
}

/// A run of `n` digits is worth less than `10^n`.
pub proof fn lemma_digits_below(b: Seq<char>)
    requires
        all_digits(b),
    ensures
        0 <= digits_value(b) < pow10(b.len()),
    decreases b.len(),
{
    if b.len() > 0 {
        assert(all_digits(b.drop_last())) by {
            assert forall|i: int| 0 <= i < b.drop_last().len() implies is_digit(
                #[trigger] b.drop_last()[i],
            ) by {
                assert(b.drop_last()[i] == b[i]);
            }
        }
        lemma_digits_below(b.drop_last());
        assert(is_digit(b[b.len() - 1]));
    } else {
        assert(digits_value(b) == 0);
    }
}

/// One more digit in front of a fraction, carried through the scale.
proof fn lemma_carry_step(d: int, v: int, n: int)
    requires
        0 <= d <= 9,
        0 <= v,
        n > 0,
    ensures
        ((d * n + v) * scale()) / (n * 10) == (d * scale() + (v * scale()) / n) / 10,
{
    let s = scale();
    let x = v * s;
    assert((d * n + v) * s == v * s + (d * s) * n) by (nonlinear_arith);
    lemma_hoist_over_denominator(x, d * scale(), n as nat);
    lemma_mul_nonnegative(v, scale());
    lemma_mul_nonnegative(d, n);
    lemma_mul_nonnegative(d * n + v, scale());
    lemma_div_denominator((d * n + v) * scale(), n, 10);
}

/// `floor(digits_value(g) * 2^26 / 10^|g|)`: the fraction `0.g` measured in
/// units of `2^-26`, rounded down.
pub fn scaled_fraction(g: &Vec<char>) -> (c: u64)
    requires
        all_digits(g@),
    ensures
        c == (digits_value(g@) * scale()) / (pow10(g@.len()) as int),
        c < scale(),
{
    let n = g.len();
    let mut c: u64 = 0;
    let mut i = n;
    assert(g@.skip(n as int) =~= Seq::<char>::empty());
    assert(digits_value(Seq::<char>::empty()) == 0);
    while i > 0
        invariant
            i <= n == g.len(),
            all_digits(g@),
            c < scale(),
            c == (digits_value(g@.skip(i as int)) * scale()) / (pow10((n - i) as nat) as int),
        decreases i,
    {
        let ghost tail = g@.skip(i as int);
        let ghost m = (n - i) as nat;
        assert(g@.skip(i - 1) == seq![g@[i - 1]] + tail);
        proof {
            lemma_digits_concat(seq![g@[i - 1]], tail);
            assert(seq![g@[i - 1]].drop_last() =~= Seq::<char>::empty());
            assert(digits_value(Seq::<char>::empty()) == 0);
            assert(seq![g@[i - 1]].last() == g@[i - 1]);
            assert(digits_value(seq![g@[i - 1]]) == digit_value(g@[i - 1]));
            assert(is_digit(g@[i - 1]));
            assert(all_digits(tail)) by {
                assert forall|j: int| 0 <= j < tail.len() implies is_digit(#[trigger] tail[j]) by {
                    assert(tail[j] == g@[i + j]);
                }
            }
            lemma_digits_below(tail);
            lemma_pow10_positive(m);
            lemma_carry_step(digit_value(g@[i - 1]), digits_value(tail), pow10(m) as int);
            assert(pow10(m + 1) == 10 * pow10(m));
            assert(pow10(m) * 10 == 10 * pow10(m)) by (nonlinear_arith);
            assert((m + 1) as nat == (n - (i - 1)) as nat);
        }
        let d = (g[i - 1] as u32 - 0x30) as u64;
        c = (d * 0x400_0000u64 + c) / 10;
        i = i - 1;
    }
    assert(g@.skip(0) == g@);
    c
}

/// `v`, or `cap` where `v` reaches it.
pub open spec fn capped(v: int, cap: int) -> int {
    if v < cap {
        v
    } else {
        cap
    }
}

/// The value of a run of digits, held at `cap` once it reaches it.
pub fn capped_digits_value(v: &Vec<char>, cap: u128) -> (r: u128)
    requires
        all_digits(v@),
        1 <= cap <= 0x10_0000_0000_0000_0000_0000_0000,
    ensures
        r == capped(digits_value(v@), cap as int),
{
    let mut acc: u128 = 0;
    assert(v@.take(0) =~= Seq::<char>::empty());
    for i in 0..v.len()
        invariant
            all_digits(v@),
            1 <= cap <= 0x10_0000_0000_0000_0000_0000_0000,
            acc == capped(digits_value(v@.take(i as int)), cap as int),
            digits_value(v@.take(i as int)) >= 0,
    {
        assert(v@.take(i + 1).drop_last() == v@.take(i as int));
        assert(v@.take(i + 1).last() == v@[i as int]);
        assert(is_digit(v@[i as int]));
        let d = (v[i] as u32 - 0x30) as u128;
        if acc < cap {
            let next = 10 * acc + d;
            acc = if next < cap {
                next
            } else {
                cap
            };
        }
    }
    assert(v@.take(v.len() as int) == v@);
    acc
}

/// The characters of `v` before index `hi`.
pub fn prefix_to(v: &Vec<char>, hi: usize) -> (r: Vec<char>)
    requires
        hi <= v.len(),
    ensures
        r@ == v@.take(hi as int),
{
    let mut r: Vec<char> = Vec::new();
    let mut i: usize = 0;
    while i < hi
        invariant
            i <= hi <= v.len(),
            r@ == v@.take(i as int),
        decreases hi - i,
    {
        r.push(v[i]);
        i = i + 1;
        assert(r@ =~= v@.take(i as int));
    }
    r
}

/// With no fraction digits the scaled value is the capped integer value.
pub proof fn lemma_scaled_whole(v: int, q: int)
    requires
        v >= 0,
        q >= 0,
    ensures
        scaled_capped(v, q) == capped(v * pow10(q as nat), 64) * scale(),
{
    let p = pow10(q as nat) as int;
    assert(v * scale() * p == (v * p) * scale()) by (nonlinear_arith);
    lemma_mul_nonnegative(v, p);
    if v * p >= 64 {
        lemma_mul_inequality(64, v * p, scale());
    }
}

/// A run of digits split at `k`: the whole part and the fraction.
pub proof fn lemma_digits_split(d: Seq<char>, k: int)
    requires
        0 <= k <= d.len(),
    ensures
        digits_value(d) == digits_value(d.take(k)) * pow10((d.len() - k) as nat) + digits_value(
            d.skip(k),
        ),
{
    assert(d == d.take(k) + d.skip(k));
    lemma_digits_concat(d.take(k), d.skip(k));
}

/// Digits of a run of digits are digits.
pub proof fn lemma_digits_sub(d: Seq<char>, lo: int, hi: int)
    requires
        all_digits(d),
        0 <= lo <= hi <= d.len(),
    ensures
        all_digits(d.subrange(lo, hi)),
        all_digits(d.take(hi)),
        all_digits(d.skip(lo)),
{
    assert forall|i: int| 0 <= i < hi - lo implies is_digit(#[trigger] d.subrange(lo, hi)[i]) by {
        assert(d.subrange(lo, hi)[i] == d[lo + i]);
    }
    assert forall|i: int| 0 <= i < hi implies is_digit(#[trigger] d.take(hi)[i]) by {
        assert(d.take(hi)[i] == d[i]);
    }
    assert forall|i: int| 0 <= i < d.len() - lo implies is_digit(#[trigger] d.skip(lo)[i]) by {
        assert(d.skip(lo)[i] == d[lo + i]);
    }
}

/// `floor(digits_value(d) * 10^(p - |d|) * 2^26)`, capped at `2^32`: the
/// number written with the digits `d` and the decimal point `p` places
/// from their start.
pub fn scaled_value(d: &Vec<char>, p: i128) -> (r: u64)
    requires
        all_digits(d@),
        -0x1_0000_0000_0000_0000_0000_0000 <= p <= 0x1_0000_0000_0000_0000_0000_0000,
    ensures
        r == scaled_capped(digits_value(d@), p - d@.len()),
{
    let ghost v = digits_value(d@);
    proof {
        lemma_digits_value_nonneg(d@);
    }
    let len = d.len() as i128;
    if p >= len {
        let q: i128 = p - len;
        let mut acc: u128 = capped_digits_value(d, 64);
        let mut j: i128 = 0;
        proof {
            assert(pow10(0) == 1);
            assert(v * 1 == v);
        }
        while j < q && 0 < acc && acc < 64
            invariant
                0 <= j <= q,
                v >= 0,
                acc == capped(v * pow10(j as nat), 64),
            decreases q - j,
        {
            proof {
                assert(pow10((j + 1) as nat) == 10 * pow10(j as nat));
                assert(v * (10 * pow10(j as nat)) == 10 * (v * pow10(j as nat))) by (
                nonlinear_arith);
            }
            acc = if acc * 10 < 64 {
                acc * 10
            } else {
                64
            };
            j = j + 1;
        }
        proof {
            lemma_scaled_whole(v, q as int);
            lemma_pow10_positive(j as nat);
            if j < q {
                lemma_pow10_monotone(j as nat, q as nat);
                lemma_mul_inequality(pow10(j as nat) as int, pow10(q as nat) as int, v);
                assert(v * pow10(j as nat) == pow10(j as nat) * v) by (nonlinear_arith);
                assert(v * pow10(q as nat) == pow10(q as nat) * v) by (nonlinear_arith);
                if acc == 0 {
                    if v > 0 {
                        lemma_mul_inequality(1, pow10(j as nat) as int, v);
                    }
                    assert(v == 0);
                    assert(v * pow10(q as nat) == 0);
                }
            }
        }
        (acc as u64) * 0x400_0000u64
    } else if p >= 0 {
        let k = p as usize;
        let w = prefix_to(d, k);
        let g = suffix_from(d, k);
        proof {
            lemma_digits_sub(d@, k as int, d@.len() as int);
            lemma_digits_split(d@, k as int);
        }
        let whole = capped_digits_value(&w, 64);
        let frac = scaled_fraction(&g);
        proof {
            let n = pow10(g@.len()) as int;
            let vw = digits_value(w@);
            let vg = digits_value(g@);
            lemma_pow10_positive(g@.len());
            lemma_digits_value_nonneg(w@);
            lemma_digits_value_nonneg(g@);
            assert((d@.len() - k) as nat == g@.len());
            assert(v * scale() == vg * scale() + (vw * scale()) * n) by (nonlinear_arith)
                requires
                    v == vw * n + vg,
            ;
            lemma_hoist_over_denominator(vg * scale(), vw * scale(), n as nat);
            assert(p - d@.len() < 0);
            assert((-(p - d@.len())) as nat == g@.len());
            assert(scaled_floor(v, p - d@.len()) == vw * scale() + frac);
            if vw >= 64 {
                lemma_mul_inequality(64, vw, scale());
            }
        }
        if whole >= 64 {
            0x1_0000_0000u64
        } else {
            (whole as u64) * 0x400_0000u64 + frac
        }
    } else {
        let c0 = scaled_fraction(d);
        let k: i128 = -p;
        let mut c: u64 = c0;
        let mut j: i128 = 0;
        proof {
            assert(pow10(0) == 1);
            assert((c0 as int) / 1 == c0);
        }
        while j < k && c > 0
            invariant
                0 <= j <= k,
                c == (c0 as int) / (pow10(j as nat) as int),
            decreases k - j,
        {
            proof {
                lemma_pow10_positive(j as nat);
                lemma_div_denominator(c0 as int, pow10(j as nat) as int, 10);
                assert(pow10((j + 1) as nat) == 10 * pow10(j as nat));
                assert(pow10(j as nat) * 10 == 10 * pow10(j as nat)) by (nonlinear_arith);
            }
            c = c / 10;
            j = j + 1;
        }
        proof {
            let n = pow10(d@.len()) as int;
            lemma_pow10_positive(d@.len());
            lemma_pow10_positive(k as nat);
            lemma_pow10_positive(j as nat);
            lemma_pow10_positive((k - j) as nat);
            lemma_mul_nonnegative(v, scale());
            lemma_div_denominator(v * scale(), n, pow10(k as nat) as int);
            lemma_pow10_add(d@.len(), k as nat);
            assert((-(p - d@.len())) as nat == d@.len() + k as nat);
            if j < k {
                assert(c == 0);
                lemma_pow10_add(j as nat, (k - j) as nat);
                assert((j + (k - j)) as nat == k as nat);
                lemma_div_denominator(c0 as int, pow10(j as nat) as int, pow10((k - j) as nat) as int);
                assert(0int / (pow10((k - j) as nat) as int) == 0);
            }
            lemma_div_is_ordered(c as int, c0 as int, pow10(0) as int);
        }
        c
    }
}

// ---------------------------------------------------------------------------
// Rounding through `f32`
// ---------------------------------------------------------------------------

/// Half the gap, in units of `2^-26`, between `k + 1/2` and the `f32` just
/// below it: `2^-24` times the power of two at or below `k + 1/2`, except at
/// `1/2`, where the gap below is that of the next smaller binade.
pub open spec fn half_gap_below(k: int) -> int {
    if k == 0 {
        1
    } else if k < 2 {
        4
    } else if k < 4 {
        8
    } else if k < 8 {
        16
    } else if k < 16 {
        32
    } else if k < 32 {
        64
    } else {
        128
    }
}

/// The least value, in units of `2^-26`, whose nearest `f32` is at least
/// `k + 1/2` (for `k < 60`). At that value exactly the tie goes to `k + 1/2`,
/// whose significand is even; so from there on, rounding the `f32` half
/// away from zero gives at least `k + 1`.
pub open spec fn threshold(k: int) -> int {
    (2 * k + 1) * 0x200_0000 - half_gap_below(k)
}

/// The whole number that a non-negative value `f` (in units of `2^-26`)
/// becomes when it is read as the nearest `f32` and that is rounded half
/// away from zero, searched from `k` on and held at `60`.
pub open spec fn rounded_from(f: int, k: int) -> int
    decreases 60 - k,
{
    if k >= 60 || f < threshold(k) {
        k
    } else {
        rounded_from(f, k + 1)
    }
}

/// The rounded whole number of a non-negative value in units of `2^-26`.
pub open spec fn rounded(f: int) -> int {
    rounded_from(f, 0)
}

/// The search ends between where it starts and `60`.
pub proof fn lemma_rounded_from_bounds(f: int, k: int)
    requires
        0 <= k <= 60,
    ensures
        k <= rounded_from(f, k) <= 60,
    decreases 60 - k,
{
    if k < 60 && f >= threshold(k) {
        lemma_rounded_from_bounds(f, k + 1);
    }
}

/// Rounding keeps the order of values.
pub proof fn lemma_rounded_monotone(f1: int, f2: int, k: int)
    requires
        f1 <= f2,
        0 <= k <= 60,
    ensures
        rounded_from(f1, k) <= rounded_from(f2, k),
    decreases 60 - k,
{
    lemma_rounded_from_bounds(f2, k);
    if k < 60 && f1 >= threshold(k) {
        lemma_rounded_monotone(f1, f2, k + 1);
    }
}

/// A whole number of seconds is its own rounding.
pub proof fn lemma_rounded_whole(s: int, k: int)
    requires
        0 <= k <= s <= 59,
    ensures
        rounded_from(s * scale(), k) == s,
    decreases s - k,
{
    if k < s {
        assert(threshold(k) <= (k + 1) * scale());
        assert((k + 1) * scale() <= s * scale()) by (nonlinear_arith)
            requires
                k + 1 <= s,
        ;
        lemma_rounded_whole(s, k + 1);
    } else {
        assert(s * scale() < threshold(s));
    }
}

/// `threshold(k)`.
fn threshold_value(k: u64) -> (t: u64)
    requires
        k < 60,
    ensures
        t == threshold(k as int),
{
    let gap: u64 = if k == 0 {
        1
    } else if k < 2 {
        4
    } else if k < 4 {
        8
    } else if k < 8 {
        16
    } else if k < 16 {
        32
    } else if k < 32 {
        64
    } else {
        128
    };
    (2 * k + 1) * 0x200_0000 - gap
}

/// `rounded(f)`.
pub fn rounded_value(f: u64) -> (r: u64)
    ensures
        r == rounded(f as int),
        r <= 60,
{
    let mut k: u64 = 0;
    while k < 60 && f >= threshold_value(k)
        invariant
            k <= 60,
            rounded_from(f as int, k as int) == rounded(f as int),
        decreases 60 - k,
    {
        k = k + 1;
    }
    proof {
        lemma_rounded_from_bounds(f as int, k as int);
    }
    k
}

/// A value far above the cap: only whether it is zero matters.
pub proof fn lemma_far_above(v: int, q1: int, q2: int)
    requires
        v >= 0,
        q1 >= 2,
        q2 >= 2,
    ensures
        scaled_capped(v, q1) == scaled_capped(v, q2),
{
    lemma_scaled_whole(v, q1);
    lemma_scaled_whole(v, q2);
    lemma_pow10_monotone(2, q1 as nat);
    lemma_pow10_monotone(2, q2 as nat);
    assert(pow10(2) == 100) by {
        assert(pow10(0) == 1);
        assert(pow10(1) == 10);
    }
    if v > 0 {
        lemma_mul_inequality(1, v, pow10(q1 as nat) as int);
        lemma_mul_inequality(1, v, pow10(q2 as nat) as int);
        assert(v * pow10(q1 as nat) == pow10(q1 as nat) * v) by (nonlinear_arith);
        assert(v * pow10(q2 as nat) == pow10(q2 as nat) * v) by (nonlinear_arith);
    } else {
        assert(v == 0);
        assert(0 * pow10(q1 as nat) == 0);
        assert(0 * pow10(q2 as nat) == 0);
    }
}

/// A value of `n` digits taken far below the point measures nothing.
pub proof fn lemma_far_below(v: int, n: nat, q: int)
    requires
        0 <= v < pow10(n),
        q <= -(n + 8),
    ensures
        scaled_capped(v, q) == 0,
{
    let m = (-q) as nat;
    lemma_pow10_add(n, 8);
    lemma_pow10_monotone(n + 8, m);
    assert(pow10(8) == 100000000) by {
        reveal_with_fuel(pow10, 9);
    }
    assert(v * scale() < pow10(n) * 100000000) by (nonlinear_arith)
        requires
            0 <= v < pow10(n),
            scale() == 0x400_0000,
    ;
    lemma_mul_nonnegative(v, scale());
    lemma_basic_div(v * scale(), pow10(m) as int);
}

/// The characters of `a` followed by those of `b`.
pub fn concat_chars(a: &Vec<char>, b: &Vec<char>) -> (r: Vec<char>)
    ensures
        r@ == a@ + b@,
{
    let mut r: Vec<char> = Vec::new();
    for i in 0..a.len()
        invariant
            r@ == a@.take(i as int),
    {
        r.push(a[i]);
        assert(r@ =~= a@.take(i + 1));
    }
    assert(a@.take(a.len() as int) == a@);
    for i in 0..b.len()
        invariant
            r@ == a@ + b@.take(i as int),
    {
        r.push(b[i]);
        assert(r@ =~= a@ + b@.take(i + 1));
    }
    assert(b@.take(b.len() as int) == b@);
    r
}

} // verus!
