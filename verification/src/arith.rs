//! Exact integer arithmetic: energy to power, proportional shares, and what shares add up to.

use crate::sums::sum_of;
use crate::wide::Wide;
use vstd::arithmetic::div_mod::*;
use vstd::prelude::*;

verus! {

/// Power in microwatts of `energy_uj` microjoules spent over `interval_ns` nanoseconds, as a
/// mathematical integer. A zero-length interval has no power.
pub open spec fn power_of(energy_uj: int, interval_ns: int) -> int {
    if interval_ns == 0 {
        0
    } else {
        energy_uj * 1_000_000_000 / interval_ns
    }
}

/// What is left of an integer when it is held in 64 bits.
pub open spec fn low_word(x: int) -> int {
    x % 0x1_0000_0000_0000_0000
}

/// Converts energy (microjoules) to power (microwatts) given the interval's duration. The result
/// is held in 64 bits: higher bits are dropped.
pub fn energy_to_power(energy_uj: u64, interval_ns: u64) -> (power: u64)
    ensures
        power == low_word(power_of(energy_uj as int, interval_ns as int)),
        power_of(energy_uj as int, interval_ns as int) <= u64::MAX ==> power == power_of(
            energy_uj as int,
            interval_ns as int,
        ),
{
    if interval_ns == 0 {
        return 0;
    }
    let scaled: u128 = energy_uj as u128 * 1_000_000_000;
    let quotient: u128 = scaled / interval_ns as u128;
    (quotient % 0x1_0000_0000_0000_0000) as u64
}

/// The part of `total` that falls to `part` out of `whole`, rounded down; nothing when there is
/// no whole.
pub open spec fn share_of(total: int, part: int, whole: int) -> int {
    if whole == 0 {
        0
    } else {
        total * part / whole
    }
}

/// Quotient and remainder of `total * part` by `whole`, without ever forming the product.
fn mul_div(total: u128, part: u128, whole: u128) -> (res: (u128, u128))
    requires
        0 < whole,
        part <= whole,
    ensures
        res.0 * whole + res.1 == total * part,
        res.1 < whole,
        res.0 <= total,
    decreases total,
{
    if total == 0 {
        return (0, 0);
    }
    let half: u128 = total / 2;
    let (q, r) = mul_div(half, part, whole);
    assert(r >= whole - r ==> 2 * q + 1 <= 2 * half) by (nonlinear_arith)
        requires
            q * whole + r == half * part,
            part <= whole,
            0 < whole,
            0 <= half,
    ;
    let (q2, r2): (u128, u128) = if r >= whole - r {
        (2 * q + 1, (r - (whole - r)) as u128)
    } else {
        (2 * q, r + r)
    };
    assert(q2 * whole + r2 == 2 * half * part) by (nonlinear_arith)
        requires
            q * whole + r == half * part,
            (q2 == 2 * q + 1 && r2 == 2 * r - whole) || (q2 == 2 * q && r2 == 2 * r),
    ;
    proof {
        let h = half as int;
        assert(total % 2 == 1 && r2 >= whole - part ==> q2 + 1 <= total) by (nonlinear_arith)
            requires
                q2 * whole + r2 == 2 * h * part,
                total == 2 * h + total as int % 2,
                part <= whole,
                0 < whole,
                0 <= h,
        ;
    }
    let (q3, r3): (u128, u128) = if total % 2 == 0 {
        (q2, r2)
    } else if r2 >= whole - part {
        (q2 + 1, (r2 - (whole - part)) as u128)
    } else {
        (q2, r2 + part)
    };
    proof {
        let h = half as int;
        let b = total - 2 * h;
        assert(q3 * whole + r3 == total * part) by (nonlinear_arith)
            requires
                q2 * whole + r2 == 2 * h * part,
                total == 2 * h + b,
                (b == 0 && q3 == q2 && r3 == r2) || (b == 1 && q3 == q2 + 1 && r3 == r2 + part
                    - whole) || (b == 1 && q3 == q2 && r3 == r2 + part),
        ;
        assert(q3 <= total) by (nonlinear_arith)
            requires
                q3 * whole + r3 == total * part,
                0 <= part <= whole,
                0 < whole,
                0 <= r3,
                0 <= total,
        ;
    }
    (q3, r3)
}

/// The share of a wide `total` that falls to `part` out of `whole`, rounded down.
pub fn wide_share(total: u128, part: u128, whole: u128) -> (amount: u128)
    requires
        part <= whole,
    ensures
        amount == share_of(total as int, part as int, whole as int),
        amount <= total,
{
    if whole == 0 {
        return 0;
    }
    let (q, r) = mul_div(total, part, whole);
    proof {
        lemma_fundamental_div_mod_converse(total * part, whole as int, q as int, r as int);
    }
    q
}

/// The share of `total` that falls to `part` out of `whole`, rounded down.
pub fn share(total: u64, part: u128, whole: u128) -> (amount: u64)
    requires
        part <= whole,
    ensures
        amount == share_of(total as int, part as int, whole as int),
        amount <= total,
{
    wide_share(total as u128, part, whole) as u64
}

/// The part of `total` that falls to `part` out of `whole`, of any size.
pub fn part_of(total: u64, part: &Wide, whole: &Wide) -> (amount: u64)
    requires
        0 <= part@ <= whole@,
    ensures
        amount == share_of(total as int, part@, whole@),
{
    if whole.is_zero() {
        return 0;
    }
    proof {
        lemma_share_bounds(total as int, part@, whole@);
        assert(0 <= total * part@) by (nonlinear_arith)
            requires
                0 <= total,
                0 <= part@,
        ;
        lemma_div_basics(whole@);
    }
    Wide::from_wide(total as u128).times(part).quotient(&Wide::zero(), whole)
}

/// The part of `total` that falls to six tenths of `a` out of `whole_a` and four tenths of `b`
/// out of `whole_b`, rounded down. A missing whole has no part.
pub open spec fn blend_of(total: int, a: int, whole_a: int, b: int, whole_b: int) -> int {
    if whole_a == 0 && whole_b == 0 {
        0
    } else if whole_a == 0 {
        2 * total * b / (5 * whole_b)
    } else if whole_b == 0 {
        3 * total * a / (5 * whole_a)
    } else {
        total * (3 * a * whole_b + 2 * b * whole_a) / (5 * whole_a * whole_b)
    }
}

/// The wholes that [`blend`] takes.
pub const MAX_WHOLE: u128 = 0x0fff_ffff_ffff_ffff_ffff_ffff_ffff_ffff;

/// Blends two shares of `total`, six tenths to four.
pub fn blend(total: u64, a: u128, whole_a: u128, b: u128, whole_b: u128) -> (amount: u64)
    requires
        a <= whole_a <= MAX_WHOLE,
        b <= whole_b <= MAX_WHOLE,
    ensures
        amount == blend_of(total as int, a as int, whole_a as int, b as int, whole_b as int),
        amount <= total,
{
    let t: u128 = total as u128;
    if whole_a == 0 && whole_b == 0 {
        return 0;
    }
    if whole_a == 0 {
        let (q, r) = mul_div(2 * t, b, 5 * whole_b);
        proof {
            lemma_fundamental_div_mod_converse(
                2 * t * b,
                5 * whole_b as int,
                q as int,
                r as int,
            );
            assert(q <= t) by (nonlinear_arith)
                requires
                    q * (5 * whole_b) + r == 2 * t * b,
                    0 <= b <= whole_b,
                    0 < whole_b,
                    0 <= r,
                    0 <= t,
            ;
        }
        return q as u64;
    }
    let (q1, r1) = mul_div(3 * t, a, 5 * whole_a);
    if whole_b == 0 {
        proof {
            lemma_fundamental_div_mod_converse(
                3 * t * a,
                5 * whole_a as int,
                q1 as int,
                r1 as int,
            );
            assert(q1 <= t) by (nonlinear_arith)
                requires
                    q1 * (5 * whole_a) + r1 == 3 * t * a,
                    0 <= a <= whole_a,
                    0 < whole_a,
                    0 <= r1,
                    0 <= t,
            ;
        }
        return q1 as u64;
    }
    let (q2, r2) = mul_div(2 * t, b, 5 * whole_b);
    let (q3, r3) = mul_div(5 * whole_a, (5 * whole_b - r2) as u128, 5 * whole_b);
    let carry: u128 = if r1 > q3 || (r1 == q3 && r3 == 0) {
        1
    } else {
        0
    };
    proof {
        lemma_blend(
            t as int,
            a as int,
            whole_a as int,
            b as int,
            whole_b as int,
            q1 as int,
            r1 as int,
            q2 as int,
            r2 as int,
            q3 as int,
            r3 as int,
            carry as int,
        );
    }
    (q1 + q2 + carry) as u64
}

/// The two rounded parts of a blend, and whether their fractions make one more.
proof fn lemma_blend(
    t: int,
    a: int,
    wa: int,
    b: int,
    wb: int,
    q1: int,
    r1: int,
    q2: int,
    r2: int,
    q3: int,
    r3: int,
    carry: int,
)
    requires
        0 <= t,
        0 <= a <= wa,
        0 < wa,
        0 <= b <= wb,
        0 < wb,
        q1 * (5 * wa) + r1 == 3 * t * a,
        0 <= r1 < 5 * wa,
        q2 * (5 * wb) + r2 == 2 * t * b,
        0 <= r2 < 5 * wb,
        q3 * (5 * wb) + r3 == 5 * wa * (5 * wb - r2),
        0 <= r3 < 5 * wb,
        carry == if r1 > q3 || (r1 == q3 && r3 == 0) {
            1int
        } else {
            0
        },
    ensures
        q1 + q2 + carry == blend_of(t, a, wa, b, wb),
        q1 + q2 + carry <= t,
{
    let whole = 5 * wa * wb;
    let n = t * (3 * a * wb + 2 * b * wa);
    let fractions = r1 * wb + r2 * wa;
    assert(0 < whole) by (nonlinear_arith)
        requires
            whole == 5 * wa * wb,
            0 < wa,
            0 < wb,
    ;
    assert(n == (q1 + q2) * whole + fractions) by {
        assert((q1 * (5 * wa) + r1) * wb == q1 * (5 * wa * wb) + r1 * wb) by (nonlinear_arith);
        assert((q2 * (5 * wb) + r2) * wa == q2 * (5 * wa * wb) + r2 * wa) by (nonlinear_arith);
        assert(t * (3 * a * wb + 2 * b * wa) == (3 * t * a) * wb + (2 * t * b) * wa)
            by (nonlinear_arith);
        assert((q1 + q2) * whole == q1 * whole + q2 * whole) by (nonlinear_arith);
    }
    assert(0 <= fractions < 2 * whole) by (nonlinear_arith)
        requires
            fractions == r1 * wb + r2 * wa,
            whole == 5 * wa * wb,
            0 <= r1 < 5 * wa,
            0 <= r2 < 5 * wb,
            0 < wa,
            0 < wb,
    ;
    // 5 (r1 wb + r2 wa - whole) = 5 wb (r1 - q3) - r3
    assert(5 * (fractions - whole) == 5 * wb * (r1 - q3) - r3) by {
        assert(5 * wa * (5 * wb - r2) == 5 * whole - 5 * (r2 * wa)) by (nonlinear_arith)
            requires
                whole == 5 * wa * wb,
        ;
        assert(5 * wb * (r1 - q3) == 5 * (r1 * wb) - q3 * (5 * wb)) by (nonlinear_arith);
    }
    if carry == 1 {
        assert(5 * wb * (r1 - q3) - r3 >= 0) by (nonlinear_arith)
            requires
                r1 > q3 || (r1 == q3 && r3 == 0),
                0 <= r3 < 5 * wb,
                0 < wb,
        ;
    } else {
        assert(5 * wb * (r1 - q3) - r3 < 0) by (nonlinear_arith)
            requires
                !(r1 > q3 || (r1 == q3 && r3 == 0)),
                0 <= r3 < 5 * wb,
                0 < wb,
        ;
    }
    let q = q1 + q2 + carry;
    let r = fractions - carry * whole;
    assert((q1 + q2 + carry) * whole == (q1 + q2) * whole + carry * whole) by (nonlinear_arith);
    assert(carry * whole == if carry == 1 {
        whole
    } else {
        0
    });
    lemma_fundamental_div_mod_converse(n, whole, q, r);
    assert(n <= t * whole) by (nonlinear_arith)
        requires
            n == t * (3 * a * wb + 2 * b * wa),
            whole == 5 * wa * wb,
            0 <= t,
            0 <= a <= wa,
            0 <= b <= wb,
            0 < wa,
            0 < wb,
    ;
    assert(q <= t) by (nonlinear_arith)
        requires
            q * whole + r == n,
            n <= t * whole,
            0 <= r,
            0 < whole,
    ;
}

/// A blend of parts that do not exceed their wholes does not exceed the total.
pub proof fn lemma_blend_bounds(t: int, a: int, wa: int, b: int, wb: int)
    requires
        0 <= t,
        0 <= a <= wa,
        0 <= b <= wb,
    ensures
        0 <= blend_of(t, a, wa, b, wb) <= t,
{
    if wa == 0 && wb == 0 {
    } else if wa == 0 {
        let n = 2 * t * b;
        let d = 5 * wb;
        assert(0 <= n <= t * d) by (nonlinear_arith)
            requires
                n == 2 * t * b,
                d == 5 * wb,
                0 <= t,
                0 <= b <= wb,
        ;
        lemma_div_between(n, d, t);
    } else if wb == 0 {
        let n = 3 * t * a;
        let d = 5 * wa;
        assert(0 <= n <= t * d) by (nonlinear_arith)
            requires
                n == 3 * t * a,
                d == 5 * wa,
                0 <= t,
                0 <= a <= wa,
        ;
        lemma_div_between(n, d, t);
    } else {
        let n = t * (3 * a * wb + 2 * b * wa);
        let d = 5 * wa * wb;
        assert(0 <= 3 * a * wb + 2 * b * wa <= d) by (nonlinear_arith)
            requires
                d == 5 * wa * wb,
                0 <= a <= wa,
                0 <= b <= wb,
        ;
        assert(0 <= n <= t * d) by (nonlinear_arith)
            requires
                n == t * (3 * a * wb + 2 * b * wa),
                0 <= 3 * a * wb + 2 * b * wa <= d,
                0 <= t,
        ;
        assert(0 < d) by (nonlinear_arith)
            requires
                d == 5 * wa * wb,
                0 < wa,
                0 < wb,
        ;
        lemma_div_between(n, d, t);
    }
}

proof fn lemma_div_between(n: int, d: int, t: int)
    requires
        0 <= n <= t * d,
        0 < d,
    ensures
        0 <= n / d <= t,
{
    assert(0 <= n / d <= t) by (nonlinear_arith)
        requires
            0 <= n <= t * d,
            0 < d,
    ;
}

/// The sum of a sequence of integers.
pub open spec fn total(s: Seq<int>) -> int
    decreases s.len(),
{
    if s.len() == 0 {
        0
    } else {
        total(s.drop_last()) + s.last()
    }
}

/// The sum of a sequence of machine words.
pub open spec fn word_sum(s: Seq<u64>) -> int
    decreases s.len(),
{
    if s.len() == 0 {
        0
    } else {
        word_sum(s.drop_last()) + s.last()
    }
}

/// Sums machine words; the sum always fits in two of them.
pub fn sum_words(v: &Vec<u64>) -> (r: u128)
    ensures
        r == word_sum(v@),
{
    let mut sum: u128 = 0;
    let mut i: usize = 0;
    while i < v.len()
        invariant
            i <= v@.len(),
            sum == word_sum(v@.take(i as int)),
            sum <= i * 0xffff_ffff_ffff_ffff,
        decreases v@.len() - i,
    {
        assert(v@.take(i + 1).drop_last() =~= v@.take(i as int));
        sum = sum + v[i] as u128;
        i = i + 1;
    }
    assert(v@.take(i as int) =~= v@);
    sum
}

/// The sum of machine words is at most their count times the largest word.
pub proof fn lemma_word_sum_bound(s: Seq<u64>)
    ensures
        0 <= word_sum(s) <= s.len() * 0xffff_ffff_ffff_ffff,
    decreases s.len(),
{
    if s.len() > 0 {
        lemma_word_sum_bound(s.drop_last());
    }
}

/// Every part is non-negative.
pub open spec fn all_natural(s: Seq<int>) -> bool {
    forall|i: int| 0 <= i < s.len() ==> 0 <= #[trigger] s[i]
}

pub proof fn lemma_total_natural(s: Seq<int>)
    requires
        all_natural(s),
    ensures
        0 <= total(s),
        forall|i: int| 0 <= i < s.len() ==> #[trigger] s[i] <= total(s),
    decreases s.len(),
{
    if s.len() > 0 {
        assert(all_natural(s.drop_last())) by {
            assert forall|i: int| 0 <= i < s.drop_last().len() implies 0
                <= #[trigger] s.drop_last()[i] by {
                assert(s.drop_last()[i] == s[i]);
            }
        }
        lemma_total_natural(s.drop_last());
        assert forall|i: int| 0 <= i < s.len() implies #[trigger] s[i] <= total(s) by {
            if i < s.len() - 1 {
                assert(s.drop_last()[i] == s[i]);
            }
        }
    }
}

/// The shares of `amount` in proportion to `parts`, each rounded down.
pub open spec fn shares(amount: int, parts: Seq<int>, whole: int) -> Seq<int> {
    parts.map_values(|p: int| share_of(amount, p, whole))
}

/// The total of the shares, scaled by the whole, lies within one part each of the amount handed
/// out, scaled in the same way.
proof fn lemma_shares_scaled(amount: int, parts: Seq<int>, whole: int)
    requires
        0 < whole,
    ensures
        total(shares(amount, parts, whole)) * whole <= amount * total(parts),
        parts.len() == 0 ==> total(shares(amount, parts, whole)) == 0 && total(parts) == 0,
        parts.len() > 0 ==> total(shares(amount, parts, whole)) * whole > amount * total(parts)
            - whole * parts.len(),
    decreases parts.len(),
{
    let sh = shares(amount, parts, whole);
    if parts.len() > 0 {
        let p = parts.last();
        assert(sh.drop_last() =~= shares(amount, parts.drop_last(), whole));
        lemma_shares_scaled(amount, parts.drop_last(), whole);
        let q = amount * p / whole;
        lemma_fundamental_div_mod(amount * p, whole);
        lemma_mod_bound(amount * p, whole);
        let rest = total(sh.drop_last());
        let before = total(parts.drop_last());
        let n = parts.len() - 1;
        assert(sh.last() == q);
        assert((rest + q) * whole == rest * whole + whole * q) by (nonlinear_arith);
        assert(amount * (before + p) == amount * before + amount * p) by (nonlinear_arith);
        assert(whole * (n + 1) == whole * n + whole) by (nonlinear_arith);
    }
}

/// Handing an amount out in proportion loses nothing but the fractions: the shares never exceed
/// the amount together, and fall short of it by less than one unit for each part.
pub proof fn law_shares_conserve(amount: int, parts: Seq<int>)
    requires
        0 <= amount,
        all_natural(parts),
        0 < total(parts),
    ensures
        total(shares(amount, parts, total(parts))) <= amount,
        amount - parts.len() < total(shares(amount, parts, total(parts))),
{
    let whole = total(parts);
    let got = total(shares(amount, parts, whole));
    lemma_shares_scaled(amount, parts, whole);
    let n = parts.len() as int;
    assert(got <= amount) by (nonlinear_arith)
        requires
            got * whole <= amount * whole,
            0 < whole,
    ;
    assert(amount - n < got) by (nonlinear_arith)
        requires
            got * whole > amount * whole - whole * n,
            0 < whole,
    ;
}

/// A share is zero for a zero part, and never exceeds what is handed out.
pub proof fn lemma_share_bounds(amount: int, part: int, whole: int)
    requires
        0 <= amount,
        0 <= part <= whole,
    ensures
        0 <= share_of(amount, part, whole) <= amount,
        part == 0 ==> share_of(amount, part, whole) == 0,
{
    if whole > 0 {
        assert(0 <= amount * part <= amount * whole) by (nonlinear_arith)
            requires
                0 <= amount,
                0 <= part <= whole,
        ;
        lemma_div_is_ordered(0, amount * part, whole);
        lemma_div_is_ordered(amount * part, amount * whole, whole);
        lemma_div_by_multiple(amount, whole);
        assert(part == 0 ==> amount * part == 0) by (nonlinear_arith);
    }
}

/// `n / d` in units of 10⁻¹⁸, rounded up.
pub open spec fn ratio_up(n: int, d: int) -> int {
    (n * 1_000_000_000_000_000_000 + d - 1) / d
}

/// Rounding a ratio up loses nothing that a limit in the same units asks about: the rounded ratio
/// is above the limit exactly where the ratio itself is.
pub proof fn law_ratio_exceeds(n: int, d: int, limit: int)
    requires
        d > 0,
    ensures
        ratio_up(n, d) > limit <==> n * 1_000_000_000_000_000_000 > limit * d,
{
    let scaled = n * 1_000_000_000_000_000_000;
    let x = scaled + d - 1;
    let q = x / d;
    lemma_fundamental_div_mod(x, d);
    lemma_mod_bound(x, d);
    if q > limit {
        assert(scaled > limit * d) by (nonlinear_arith)
            requires
                q >= limit + 1,
                x == d * q + x % d,
                x == scaled + d - 1,
                0 <= x % d,
                d > 0,
        ;
    } else {
        assert(scaled <= limit * d) by (nonlinear_arith)
            requires
                q <= limit,
                x == d * q + x % d,
                x == scaled + d - 1,
                x % d < d,
                d > 0,
        ;
    }
}

/// `n / d` in units of 10⁻¹⁸, rounded up.
pub fn divide_up(n: u64, d: u64) -> (r: u128)
    requires
        d > 0,
    ensures
        r == ratio_up(n as int, d as int),
{
    (n as u128 * 1_000_000_000_000_000_000 + (d - 1) as u128) / d as u128
}

/// A fraction to the nearest whole number; a half to the even one.
pub open spec fn nearest(n: int, d: int) -> int {
    let q = n / d;
    let twice = 2 * (n % d);
    if twice > d || (twice == d && q % 2 == 1) {
        q + 1
    } else {
        q
    }
}

/// Rounds a fraction to the nearest whole number.
pub fn round_to_nearest(n: u128, d: u128) -> (r: u128)
    requires
        0 < d <= MAX_WHOLE,
    ensures
        r == nearest(n as int, d as int),
{
    let q: u128 = n / d;
    let twice: u128 = 2 * (n % d);
    if twice > d || (twice == d && q % 2 == 1) {
        assert(q < u128::MAX) by (nonlinear_arith)
            requires
                q == n as int / d as int,
                2 * (n as int % d as int) >= d,
                0 < d,
                n <= u128::MAX,
        ;
        q + 1
    } else {
        q
    }
}

// ─── What the results satisfy ───────────────────────────────────

/// A quotient times its divisor is the dividend but for less than one divisor.
pub proof fn lemma_floor(n: int, d: int)
    requires
        0 < d,
    ensures
        (n / d) * d <= n < (n / d + 1) * d,
{
    let (q, m) = (n / d, n % d);
    lemma_fundamental_div_mod(n, d);
    lemma_mod_bound(n, d);
    assert(q * d <= n < (q + 1) * d) by (nonlinear_arith)
        requires
            n == d * q + m,
            0 <= m < d,
    ;
}

/// Only one number is a quotient rounded down.
pub proof fn lemma_floor_unique(n: int, d: int, q: int)
    requires
        0 < d,
        q * d <= n < (q + 1) * d,
    ensures
        q == n / d,
{
    let low = n - q * d;
    assert(n == q * d + low && 0 <= low < d) by (nonlinear_arith)
        requires
            low == n - q * d,
            q * d <= n < (q + 1) * d,
    ;
    lemma_fundamental_div_mod_converse(n, d, q, low);
}

/// Power over an interval makes the energy that was spent in it, but for less than what a
/// microwatt more would; a microjoule in a second is a microwatt.
pub proof fn law_power(energy_uj: int, interval_ns: int)
    requires
        0 <= energy_uj,
        0 < interval_ns,
    ensures
        0 <= power_of(energy_uj, interval_ns),
        power_of(energy_uj, interval_ns) * interval_ns <= energy_uj * 1_000_000_000 < (power_of(
            energy_uj,
            interval_ns,
        ) + 1) * interval_ns,
        power_of(energy_uj, 1_000_000_000) == energy_uj,
        power_of(energy_uj, 0) == 0,
{
    lemma_floor(energy_uj * 1_000_000_000, interval_ns);
    lemma_div_pos_is_pos(energy_uj * 1_000_000_000, interval_ns);
}

/// A share is to the total as the part is to the whole, rounded down: a larger part never gets
/// less, no part gets nothing, and the whole gets all.
pub proof fn law_share(total: int, part: int, whole: int)
    requires
        0 <= total,
        0 <= part <= whole,
        0 < whole,
    ensures
        share_of(total, part, whole) * whole <= total * part < (share_of(total, part, whole) + 1)
            * whole,
        share_of(total, 0, whole) == 0,
        share_of(total, whole, whole) == total,
        forall|more: int|
            part <= more <= whole ==> share_of(total, part, whole) <= #[trigger] share_of(
                total,
                more,
                whole,
            ),
{
    lemma_floor(total * part, whole);
    assert(total * 0 == 0);
    lemma_div_basics(whole);
    lemma_div_by_multiple(total, whole);
    assert forall|more: int| part <= more <= whole implies share_of(total, part, whole)
        <= #[trigger] share_of(total, more, whole) by {
        assert(total * part <= total * more) by (nonlinear_arith)
            requires
                0 <= total,
                part <= more,
        ;
        lemma_div_is_ordered(total * part, total * more, whole);
    }
}

/// A blend gives six tenths of the total by the one share and four tenths by the other.
pub proof fn law_blend(total: int, a: int, whole_a: int, b: int, whole_b: int)
    requires
        0 <= total,
        0 <= a <= whole_a,
        0 <= b <= whole_b,
        0 < whole_a,
        0 < whole_b,
    ensures
        ({
            let amount = blend_of(total, a, whole_a, b, whole_b);
            let wholes = whole_a * whole_b;
            amount * wholes * 10 <= total * (6 * (a * whole_b) + 4 * (b * whole_a)) < (amount + 1)
                * wholes * 10
        }),
        blend_of(total, whole_a, whole_a, whole_b, whole_b) == total,
        blend_of(total, 0, whole_a, 0, whole_b) == 0,
{
    let amount = blend_of(total, a, whole_a, b, whole_b);
    let wholes = whole_a * whole_b;
    let d = 5 * whole_a * whole_b;
    let n = total * (3 * a * whole_b + 2 * b * whole_a);
    assert(0 < wholes && d == 5 * wholes) by (nonlinear_arith)
        requires
            0 < whole_a,
            0 < whole_b,
            wholes == whole_a * whole_b,
            d == 5 * whole_a * whole_b,
    ;
    lemma_floor(n, d);
    assert(total * (6 * (a * whole_b) + 4 * (b * whole_a)) == 2 * n) by (nonlinear_arith)
        requires
            n == total * (3 * a * whole_b + 2 * b * whole_a),
    ;
    assert(amount * wholes * 10 <= 2 * n < (amount + 1) * wholes * 10) by (nonlinear_arith)
        requires
            amount * d <= n < (amount + 1) * d,
            d == 5 * wholes,
    ;
    assert(total * (3 * whole_a * whole_b + 2 * whole_b * whole_a) == total * d) by (nonlinear_arith)
        requires
            d == 5 * whole_a * whole_b,
    ;
    lemma_div_by_multiple(total, d);
    assert(total * (3 * 0 * whole_b + 2 * 0 * whole_a) == 0) by (nonlinear_arith);
    lemma_div_basics(d);
}

/// A ratio rounded up is the least whole number of units that is no less than it.
pub proof fn law_ratio_up(n: int, d: int)
    requires
        0 < d,
    ensures
        (ratio_up(n, d) - 1) * d < n * 1_000_000_000_000_000_000 <= ratio_up(n, d) * d,
{
    law_ratio_exceeds(n, d, ratio_up(n, d));
    law_ratio_exceeds(n, d, ratio_up(n, d) - 1);
}

/// The nearest whole number is off by half at most; one that is off by half is even.
pub proof fn law_nearest(n: int, d: int)
    requires
        0 < d,
    ensures
        -d <= 2 * (n - nearest(n, d) * d) <= d,
        (2 * (n - nearest(n, d) * d) == d || 2 * (n - nearest(n, d) * d) == -d) ==> nearest(n, d)
            % 2 == 0,
{
    let (q, m) = (n / d, n % d);
    lemma_fundamental_div_mod(n, d);
    lemma_mod_bound(n, d);
    assert(n - q * d == m && n - (q + 1) * d == m - d) by (nonlinear_arith)
        requires
            n == d * q + m,
    ;
}

/// A sum of numbers, or of words, is what each of them counts for together.
pub proof fn law_sums(s: Seq<int>, w: Seq<u64>)
    ensures
        total(s) == sum_of(s, |x: int| x),
        word_sum(w) == sum_of(w, |x: u64| x as int),
    decreases s.len() + w.len(),
{
    if s.len() > 0 {
        law_sums(s.drop_last(), w);
    }
    if w.len() > 0 {
        law_sums(s, w.drop_last());
    }
}

} // verus!
