//! The coefficient of variation of fractions: the standard deviation over the mean.
//!
//! Nothing is rounded on the way: the fractions are brought over a common denominator, and only
//! the coefficient itself is cut, to units of 10⁻¹².

use crate::wide::Wide;
use vstd::prelude::*;

verus! {

/// One, in units of 10⁻¹².
pub const ONE: u128 = 1_000_000_000_000;

/// More than any coefficient of variation of numbers that can be listed: 2^32.
pub const MAX_ERROR: u128 = 4_294_967_296_000_000_000_000;

/// A fraction.
pub struct Ratio {
    pub num: int,
    pub den: int,
}

/// The denominators of fractions multiplied.
pub open spec fn product(s: Seq<Ratio>) -> int
    decreases s.len(),
{
    if s.len() == 0 {
        1
    } else {
        product(s.drop_last()) * s.last().den
    }
}

/// Numbers, each times `k`.
pub open spec fn scaled(s: Seq<int>, k: int) -> Seq<int> {
    s.map_values(|x: int| x * k)
}

/// The numerators of fractions over their common denominator, the product of all denominators.
pub open spec fn lifted(s: Seq<Ratio>) -> Seq<int>
    decreases s.len(),
{
    if s.len() == 0 {
        Seq::empty()
    } else {
        scaled(lifted(s.drop_last()), s.last().den).push(s.last().num * product(s.drop_last()))
    }
}

/// The sum of numbers.
pub open spec fn sum(s: Seq<int>) -> int
    decreases s.len(),
{
    if s.len() == 0 {
        0
    } else {
        sum(s.drop_last()) + s.last()
    }
}

/// The sum of the squares of numbers.
pub open spec fn square_sum(s: Seq<int>) -> int
    decreases s.len(),
{
    if s.len() == 0 {
        0
    } else {
        square_sum(s.drop_last()) + s.last() * s.last()
    }
}

/// The variance of numbers, times the square of how many they are.
pub open spec fn spread(s: Seq<int>) -> int {
    s.len() * square_sum(s) - sum(s) * sum(s)
}

/// Fractions added up.
pub open spec fn ratio_sum(s: Seq<Ratio>) -> Ratio {
    Ratio { num: sum(lifted(s)), den: product(s) }
}

/// Whether `e` is the coefficient of variation of numbers, in units of 10⁻¹², rounded down; it is
/// 0 where their mean is not above 0.
pub open spec fn is_spread_over_mean(e: int, s: Seq<int>) -> bool {
    let m = sum(s);
    if m <= 0 {
        e == 0
    } else {
        0 <= e && (e * e) * (m * m) <= (ONE * ONE) * spread(s) < ((e + 1) * (e + 1)) * (m * m)
    }
}

/// Whether `e` is the coefficient of variation of fractions.
pub open spec fn is_variation(e: int, s: Seq<Ratio>) -> bool {
    is_spread_over_mean(e, lifted(s))
}

/// Whether no fraction is below zero, nor has a denominator that is not above it.
pub open spec fn proper(s: Seq<Ratio>) -> bool {
    forall|i: int| 0 <= i < s.len() ==> 0 <= (#[trigger] s[i]).num && 0 < s[i].den
}

/// Whether no number is below zero.
pub open spec fn natural(s: Seq<int>) -> bool {
    forall|i: int| 0 <= i < s.len() ==> 0 <= #[trigger] s[i]
}

// ─── Facts about sums ───────────────────────────────────────────

/// The sum of the squared distances of numbers from `x`.
spec fn distance_sum(s: Seq<int>, x: int) -> int
    decreases s.len(),
{
    if s.len() == 0 {
        0
    } else {
        distance_sum(s.drop_last(), x) + (s.last() - x) * (s.last() - x)
    }
}

proof fn lemma_distance_sum(s: Seq<int>, x: int)
    ensures
        distance_sum(s, x) == square_sum(s) - 2 * x * sum(s) + s.len() * (x * x),
        distance_sum(s, x) >= 0,
    decreases s.len(),
{
    if s.len() > 0 {
        lemma_distance_sum(s.drop_last(), x);
        let l = s.last();
        let a = sum(s.drop_last());
        let n = s.drop_last().len() as int;
        assert((l - x) * (l - x) >= 0) by (nonlinear_arith);
        assert((l - x) * (l - x) == l * l - 2 * x * l + x * x) by (nonlinear_arith);
        assert(2 * x * (a + l) == 2 * x * a + 2 * x * l) by (nonlinear_arith);
        assert((n + 1) * (x * x) == n * (x * x) + x * x) by (nonlinear_arith);
    } else {
        assert(0 * (x * x) == 0);
        assert(2 * x * 0 == 0);
    }
}

/// A variance is never below zero.
pub proof fn law_spread(s: Seq<int>)
    ensures
        spread(s) >= 0,
    decreases s.len(),
{
    if s.len() > 0 {
        law_spread(s.drop_last());
        let x = s.last();
        let a = sum(s.drop_last());
        let q = square_sum(s.drop_last());
        let n = s.drop_last().len() as int;
        lemma_distance_sum(s.drop_last(), x);
        assert((n + 1) * (q + x * x) == n * q + q + n * (x * x) + x * x) by (nonlinear_arith);
        assert((a + x) * (a + x) == a * a + 2 * x * a + x * x) by (nonlinear_arith);
    }
}

proof fn lemma_sums(s: Seq<int>)
    requires
        natural(s),
    ensures
        0 <= sum(s),
        0 <= square_sum(s) <= sum(s) * sum(s),
    decreases s.len(),
{
    if s.len() > 0 {
        let d = s.drop_last();
        assert forall|i: int| 0 <= i < d.len() implies 0 <= #[trigger] d[i] by {
            assert(d[i] == s[i]);
        }
        lemma_sums(d);
        let x = s[s.len() - 1];
        let a = sum(d);
        assert(0 <= x * x) by (nonlinear_arith);
        assert((a + x) * (a + x) >= a * a + x * x) by (nonlinear_arith)
            requires
                0 <= x,
                0 <= a,
        ;
    }
}

proof fn lemma_sums_concat(a: Seq<int>, b: Seq<int>)
    ensures
        sum(a + b) == sum(a) + sum(b),
        square_sum(a + b) == square_sum(a) + square_sum(b),
    decreases b.len(),
{
    if b.len() > 0 {
        assert((a + b).drop_last() =~= a + b.drop_last());
        assert((a + b).last() == b.last());
        lemma_sums_concat(a, b.drop_last());
    } else {
        assert(a + b =~= a);
    }
}

proof fn lemma_sums_scaled(s: Seq<int>, k: int)
    ensures
        sum(scaled(s, k)) == sum(s) * k,
        square_sum(scaled(s, k)) == square_sum(s) * (k * k),
    decreases s.len(),
{
    if s.len() > 0 {
        assert(scaled(s, k).drop_last() =~= scaled(s.drop_last(), k));
        lemma_sums_scaled(s.drop_last(), k);
        let a = sum(s.drop_last());
        let q = square_sum(s.drop_last());
        let x = s.last();
        assert((a + x) * k == a * k + x * k) by (nonlinear_arith);
        assert((q + x * x) * (k * k) == q * (k * k) + (x * k) * (x * k)) by (nonlinear_arith);
    } else {
        assert(0 * k == 0);
        assert(0 * (k * k) == 0);
    }
}

/// Numbers in another unit vary as much.
proof fn lemma_variation_scaled(e: int, s: Seq<int>, k: int)
    requires
        k > 0,
    ensures
        is_spread_over_mean(e, scaled(s, k)) == is_spread_over_mean(e, s),
{
    lemma_sums_scaled(s, k);
    let m = sum(s);
    let q = square_sum(s);
    let n = s.len() as int;
    assert((m * k <= 0) == (m <= 0)) by (nonlinear_arith)
        requires
            k > 0,
    ;
    let u = k * k;
    assert(u > 0) by (nonlinear_arith)
        requires
            u == k * k,
            k > 0,
    ;
    let v = n * q - m * m;
    let one = ONE * ONE;
    assert(n * (q * u) - (m * k) * (m * k) == v * u) by (nonlinear_arith)
        requires
            u == k * k,
            v == n * q - m * m,
    ;
    let low = (e * e) * (m * m);
    let high = ((e + 1) * (e + 1)) * (m * m);
    assert((e * e) * ((m * k) * (m * k)) == low * u) by (nonlinear_arith)
        requires
            u == k * k,
            low == (e * e) * (m * m),
    ;
    assert(((e + 1) * (e + 1)) * ((m * k) * (m * k)) == high * u) by (nonlinear_arith)
        requires
            u == k * k,
            high == ((e + 1) * (e + 1)) * (m * m),
    ;
    assert(one * (v * u) == (one * v) * u) by (nonlinear_arith);
    let w = one * v;
    assert((low * u <= w * u) == (low <= w)) by (nonlinear_arith)
        requires
            u > 0,
    ;
    assert((w * u < high * u) == (w < high)) by (nonlinear_arith)
        requires
            u > 0,
    ;
}

/// Numbers have one coefficient of variation.
pub proof fn law_variation_unique(a: int, b: int, s: Seq<int>)
    requires
        is_spread_over_mean(a, s),
        is_spread_over_mean(b, s),
    ensures
        a == b,
{
    let m = sum(s);
    if m > 0 {
        let u = m * m;
        assert(u > 0) by (nonlinear_arith)
            requires
                u == m * m,
                m > 0,
        ;
        if a < b {
            lemma_squares(a + 1, b, u);
        } else if b < a {
            lemma_squares(b + 1, a, u);
        }
    }
}

proof fn lemma_squares(a: int, b: int, u: int)
    requires
        0 <= a <= b,
        0 <= u,
    ensures
        (a * a) * u <= (b * b) * u,
{
    assert(a * a <= b * b) by (nonlinear_arith)
        requires
            0 <= a <= b,
    ;
    assert((a * a) * u <= (b * b) * u) by (nonlinear_arith)
        requires
            a * a <= b * b,
            0 <= u,
    ;
}

/// Numbers have a coefficient of variation.
pub proof fn law_variation_exists(s: Seq<int>) -> (e: int)
    ensures
        is_spread_over_mean(e, s),
{
    let m = sum(s);
    if m <= 0 {
        0
    } else {
        law_spread(s);
        let v = (ONE * ONE) * spread(s);
        assert(v >= 0) by (nonlinear_arith)
            requires
                v == (ONE * ONE) * spread(s),
                spread(s) >= 0,
        ;
        assert((0int * 0) * (m * m) == 0) by (nonlinear_arith);
        assert(m * m > 0) by (nonlinear_arith)
            requires
                m > 0,
        ;
        lemma_root_from(0, m * m, v)
    }
}

proof fn lemma_root_from(e: int, u: int, v: int) -> (r: int)
    requires
        0 <= e,
        0 < u,
        (e * e) * u <= v,
    ensures
        e <= r,
        (r * r) * u <= v < ((r + 1) * (r + 1)) * u,
    decreases v - (e * e) * u,
{
    let next = ((e + 1) * (e + 1)) * u;
    if v < next {
        e
    } else {
        assert(next > (e * e) * u) by (nonlinear_arith)
            requires
                next == ((e + 1) * (e + 1)) * u,
                0 <= e,
                0 < u,
        ;
        lemma_root_from(e + 1, u, v)
    }
}

// ─── Facts about fractions ──────────────────────────────────────

pub proof fn lemma_lifted(s: Seq<Ratio>)
    ensures
        lifted(s).len() == s.len(),
        forall|i: int|
            0 <= i < s.len() ==> #[trigger] lifted(s)[i] * s[i].den == s[i].num * product(s),
        proper(s) ==> product(s) > 0 && natural(lifted(s)),
    decreases s.len(),
{
    if s.len() > 0 {
        let d = s.drop_last();
        lemma_lifted(d);
        let last = s.last();
        assert forall|i: int| 0 <= i < s.len() implies #[trigger] lifted(s)[i] * s[i].den
            == s[i].num * product(s) by {
            if i < d.len() {
                let y = lifted(d)[i];
                assert(d[i] == s[i]);
                assert((y * last.den) * s[i].den == s[i].num * (product(d) * last.den))
                    by (nonlinear_arith)
                    requires
                        y * s[i].den == s[i].num * product(d),
                ;
            } else {
                assert((last.num * product(d)) * last.den == last.num * (product(d) * last.den))
                    by (nonlinear_arith);
            }
        }
        if proper(s) {
            assert forall|i: int| 0 <= i < d.len() implies 0 <= (#[trigger] d[i]).num && 0
                < d[i].den by {
                assert(d[i] == s[i]);
            }
            assert(s[s.len() - 1].den > 0);
            assert(product(d) * last.den > 0) by (nonlinear_arith)
                requires
                    product(d) > 0,
                    last.den > 0,
            ;
            assert forall|i: int| 0 <= i < s.len() implies 0 <= #[trigger] lifted(s)[i] by {
                if i < d.len() {
                    let y = lifted(d)[i];
                    assert(y * last.den >= 0) by (nonlinear_arith)
                        requires
                            y >= 0,
                            last.den > 0,
                    ;
                } else {
                    assert(last.num * product(d) >= 0) by (nonlinear_arith)
                        requires
                            last.num >= 0,
                            product(d) > 0,
                    ;
                }
            }
        }
    }
}

/// The numerators and the denominator of fractions listed one after another.
proof fn lemma_lifted_concat(a: Seq<Ratio>, b: Seq<Ratio>)
    ensures
        product(a + b) == product(a) * product(b),
        lifted(a + b) == scaled(lifted(a), product(b)) + scaled(lifted(b), product(a)),
    decreases b.len(),
{
    lemma_lifted(a);
    lemma_lifted(b);
    lemma_lifted(a + b);
    if b.len() == 0 {
        assert(a + b =~= a);
        assert(scaled(lifted(a), 1) =~= lifted(a)) by {
            assert forall|i: int| 0 <= i < a.len() implies #[trigger] scaled(lifted(a), 1)[i]
                == lifted(a)[i] by {
                assert(lifted(a)[i] * 1 == lifted(a)[i]);
            }
        }
        assert(lifted(a + b) =~= scaled(lifted(a), product(b)) + scaled(lifted(b), product(a)));
    } else {
        let c = b.drop_last();
        let last = b.last();
        assert((a + b).drop_last() =~= a + c);
        lemma_lifted_concat(a, c);
        lemma_lifted(c);
        assert((product(a) * product(c)) * last.den == product(a) * (product(c) * last.den))
            by (nonlinear_arith);
        let whole = scaled(lifted(a), product(b)) + scaled(lifted(b), product(a));
        assert forall|i: int| 0 <= i < whole.len() implies #[trigger] lifted(a + b)[i]
            == whole[i] by {
            if i < a.len() {
                let y = lifted(a)[i];
                assert((y * product(c)) * last.den == y * (product(c) * last.den))
                    by (nonlinear_arith);
            } else if i < a.len() + c.len() {
                let y = lifted(c)[i - a.len()];
                assert((y * product(a)) * last.den == (y * last.den) * product(a))
                    by (nonlinear_arith);
            } else {
                assert(last.num * (product(a) * product(c)) == (last.num * product(c)) * product(a))
                    by (nonlinear_arith);
            }
        }
        assert(lifted(a + b) =~= whole);
    }
}

proof fn lemma_sums_of_concat(a: Seq<Ratio>, b: Seq<Ratio>)
    ensures
        product(a + b) == product(a) * product(b),
        sum(lifted(a + b)) == sum(lifted(a)) * product(b) + sum(lifted(b)) * product(a),
        square_sum(lifted(a + b)) == square_sum(lifted(a)) * (product(b) * product(b))
            + square_sum(lifted(b)) * (product(a) * product(a)),
{
    lemma_lifted_concat(a, b);
    lemma_sums_concat(scaled(lifted(a), product(b)), scaled(lifted(b), product(a)));
    lemma_sums_scaled(lifted(a), product(b));
    lemma_sums_scaled(lifted(b), product(a));
}

proof fn lemma_single(x: Ratio)
    ensures
        product(seq![x]) == x.den,
        sum(lifted(seq![x])) == x.num,
        square_sum(lifted(seq![x])) == x.num * x.num,
{
    reveal_with_fuel(product, 2);
    reveal_with_fuel(sum, 2);
    reveal_with_fuel(square_sum, 2);
    let s = seq![x];
    assert(s.drop_last() =~= Seq::<Ratio>::empty());
    assert(product(Seq::<Ratio>::empty()) == 1);
    assert(s.last() == x);
    assert(product(s) == product(s.drop_last()) * x.den);
    assert(1 * x.den == x.den);
    lemma_lifted(s);
    assert(lifted(s)[0] == x.num * 1);
    assert(lifted(s) =~= seq![x.num]);
    assert(seq![x.num].drop_last() =~= Seq::<int>::empty());
}

/// What a fraction at the end of a list adds to the sums depends only on the sums before.
pub proof fn lemma_sums_of_last(a: Seq<Ratio>, x: Ratio)
    ensures
        product(a + seq![x]) == product(a) * x.den,
        sum(lifted(a + seq![x])) == sum(lifted(a)) * x.den + x.num * product(a),
        square_sum(lifted(a + seq![x])) == square_sum(lifted(a)) * (x.den * x.den) + (x.num * x.num)
            * (product(a) * product(a)),
{
    lemma_single(x);
    lemma_sums_of_concat(a, seq![x]);
}

proof fn lemma_rearranged(i: int, j: int, k: int, p: int, q: int, d: int)
    ensures
        i * (d * q) + (k * q + j * d) * p == (i * q + j * p) * d + k * (p * q),
{
    assert(i * (d * q) == (i * q) * d) by (nonlinear_arith);
    assert((k * q + j * d) * p == (k * q) * p + (j * d) * p) by (nonlinear_arith);
    assert((i * q + j * p) * d == (i * q) * d + (j * p) * d) by (nonlinear_arith);
    assert((k * q) * p == k * (p * q)) by (nonlinear_arith);
    assert((j * d) * p == (j * p) * d) by (nonlinear_arith);
}

/// Moving a fraction to the end of a list changes none of the sums.
pub proof fn lemma_sums_of_move(a: Seq<Ratio>, x: Ratio, b: Seq<Ratio>)
    ensures
        product(a + (seq![x] + b)) == product((a + b) + seq![x]),
        sum(lifted(a + (seq![x] + b))) == sum(lifted((a + b) + seq![x])),
        square_sum(lifted(a + (seq![x] + b))) == square_sum(lifted((a + b) + seq![x])),
{
    let s = seq![x];
    lemma_single(x);
    lemma_sums_of_concat(a, s + b);
    lemma_sums_of_concat(s, b);
    lemma_sums_of_concat(a + b, s);
    lemma_sums_of_concat(a, b);
    let (p, q, d) = (product(a), product(b), x.den);
    assert(p * (d * q) == (p * q) * d) by (nonlinear_arith);
    let (i, j, k) = (sum(lifted(a)), sum(lifted(b)), x.num);
    lemma_rearranged(i, j, k, p, q, d);
    let (f, g, h) = (square_sum(lifted(a)), square_sum(lifted(b)), x.num * x.num);
    assert((d * q) * (d * q) == (d * d) * (q * q)) by (nonlinear_arith);
    assert((p * q) * (p * q) == (p * p) * (q * q)) by (nonlinear_arith);
    lemma_rearranged(f, g, h, p * p, q * q, d * d);
}

/// Fractions, each with its numerator and its denominator times as much, are the same up to one
/// factor once they are over a common denominator.
proof fn lemma_lifted_scaled(s: Seq<Ratio>, t: Seq<Ratio>, p: int, q: int) -> (k: int)
    requires
        s.len() == t.len(),
        p > 0,
        q > 0,
        forall|i: int|
            0 <= i < s.len() ==> (#[trigger] t[i]).num == s[i].num * p && t[i].den == s[i].den * q,
    ensures
        k > 0,
        lifted(t) == scaled(lifted(s), k),
        s.len() > 0 ==> product(t) * p == product(s) * (k * q),
    decreases s.len(),
{
    lemma_lifted(s);
    lemma_lifted(t);
    if s.len() <= 1 {
        if s.len() == 1 {
            assert(s =~= seq![s[0]]);
            assert(t =~= seq![t[0]]);
            lemma_single(s[0]);
            lemma_single(t[0]);
            assert(s.drop_last() =~= Seq::<Ratio>::empty());
            assert(t.drop_last() =~= Seq::<Ratio>::empty());
            assert(lifted(s)[0] == s[0].num * 1);
            assert(lifted(t)[0] == t[0].num * 1);
            assert(lifted(t) =~= scaled(lifted(s), p));
            let d = s[0].den;
            assert((d * q) * p == d * (p * q)) by (nonlinear_arith);
            p
        } else {
            assert(lifted(t) =~= scaled(lifted(s), 1));
            1
        }
    } else {
        let a = s.drop_last();
        let b = t.drop_last();
        assert forall|i: int| 0 <= i < a.len() implies (#[trigger] b[i]).num == a[i].num * p
            && b[i].den == a[i].den * q by {
            assert(t[i].num == s[i].num * p);
        }
        let h = lemma_lifted_scaled(a, b, p, q);
        let k = h * q;
        assert(k > 0) by (nonlinear_arith)
            requires
                k == h * q,
                h > 0,
                q > 0,
        ;
        let last = s[s.len() - 1];
        assert(t[t.len() - 1].num == last.num * p);
        let (u, v) = (product(a), product(b));
        let d = last.den;
        assert((v * (d * q)) * p == (u * d) * (k * q)) by (nonlinear_arith)
            requires
                v * p == u * (h * q),
                k == h * q,
        ;
        lemma_lifted(a);
        lemma_lifted(b);
        assert forall|i: int| 0 <= i < t.len() implies #[trigger] lifted(t)[i] == scaled(
            lifted(s),
            k,
        )[i] by {
            if i < a.len() {
                let y = lifted(a)[i];
                assert(lifted(b)[i] == scaled(lifted(a), h)[i]);
                assert((y * h) * (d * q) == (y * d) * k) by (nonlinear_arith)
                    requires
                        k == h * q,
                ;
            } else {
                let n = last.num;
                assert((n * p) * v == (n * u) * k) by (nonlinear_arith)
                    requires
                        v * p == u * (h * q),
                        k == h * q,
                ;
            }
        }
        assert(lifted(t) =~= scaled(lifted(s), k));
        k
    }
}

/// Fractions in another unit vary as much.
pub proof fn law_variation_scaled(e: int, s: Seq<Ratio>, t: Seq<Ratio>, p: int, q: int)
    requires
        s.len() == t.len(),
        p > 0,
        q > 0,
        forall|i: int|
            0 <= i < s.len() ==> (#[trigger] t[i]).num == s[i].num * p && t[i].den == s[i].den * q,
    ensures
        is_variation(e, t) == is_variation(e, s),
{
    let k = lemma_lifted_scaled(s, t, p, q);
    lemma_variation_scaled(e, lifted(s), k);
}

/// Fractions that are all the same do not vary.
pub proof fn law_same_do_not_vary(s: Seq<Ratio>)
    requires
        proper(s),
        forall|i: int, j: int|
            0 <= i < s.len() && 0 <= j < s.len() ==> #[trigger] s[i] == #[trigger] s[j],
    ensures
        is_variation(0, s),
{
    let y = lifted(s);
    lemma_lifted(s);
    if sum(y) > 0 {
        let x = y[0];
        assert forall|i: int| 0 <= i < y.len() implies #[trigger] y[i] == x by {
            assert(y[i] * s[i].den == s[i].num * product(s));
            assert(y[0] * s[0].den == s[0].num * product(s));
            assert(s[i] == s[0]);
            assert(y[i] == x) by (nonlinear_arith)
                requires
                    y[i] * s[0].den == x * s[0].den,
                    s[0].den > 0,
            ;
        }
        lemma_same_sums(y, x);
        let n = y.len() as int;
        let m = sum(y);
        assert(n * (n * (x * x)) == (n * x) * (n * x)) by (nonlinear_arith);
        assert(spread(y) == 0);
        let u = m * m;
        assert(u > 0) by (nonlinear_arith)
            requires
                u == m * m,
                m > 0,
        ;
        assert((0int * 0) * u == 0) by (nonlinear_arith);
        assert(((0int + 1) * (0 + 1)) * u == u) by (nonlinear_arith);
    }
}

proof fn lemma_same_sums(s: Seq<int>, x: int)
    requires
        forall|i: int| 0 <= i < s.len() ==> #[trigger] s[i] == x,
    ensures
        sum(s) == s.len() * x,
        square_sum(s) == s.len() * (x * x),
    decreases s.len(),
{
    if s.len() > 0 {
        let d = s.drop_last();
        assert forall|i: int| 0 <= i < d.len() implies #[trigger] d[i] == x by {
            assert(d[i] == s[i]);
        }
        lemma_same_sums(d, x);
        assert(s[s.len() - 1] == x);
        let n = d.len() as int;
        assert((n + 1) * x == n * x + x) by (nonlinear_arith);
        assert((n + 1) * (x * x) == n * (x * x) + x * x) by (nonlinear_arith);
    } else {
        assert(0 * x == 0);
        assert(0 * (x * x) == 0);
    }
}

/// Fractions add up to more than zero exactly where one of them is more than zero.
pub proof fn lemma_sum_positive(s: Seq<Ratio>)
    requires
        proper(s),
    ensures
        0 < product(s),
        0 <= sum(lifted(s)),
        sum(lifted(s)) > 0 <==> exists|i: int| 0 <= i < s.len() && (#[trigger] s[i]).num > 0,
    decreases s.len(),
{
    lemma_lifted(s);
    lemma_sums(lifted(s));
    if s.len() > 0 {
        let d = s.drop_last();
        assert forall|i: int| 0 <= i < d.len() implies 0 <= (#[trigger] d[i]).num && 0
            < d[i].den by {
            assert(d[i] == s[i]);
        }
        lemma_sum_positive(d);
        let last = s[s.len() - 1];
        assert(s =~= d + seq![last]);
        lemma_sums_of_concat(d, seq![last]);
        lemma_single(last);
        let (a, p, n, k) = (sum(lifted(d)), product(d), last.num, last.den);
        assert((a * k + n * p > 0) == (a > 0 || n > 0)) by (nonlinear_arith)
            requires
                a >= 0,
                n >= 0,
                p > 0,
                k > 0,
        ;
        if a > 0 {
            let i = choose|i: int| 0 <= i < d.len() && (#[trigger] d[i]).num > 0;
            assert(s[i].num > 0);
        }
        if exists|i: int| 0 <= i < s.len() && (#[trigger] s[i]).num > 0 {
            let i = choose|i: int| 0 <= i < s.len() && (#[trigger] s[i]).num > 0;
            if i < d.len() {
                assert(d[i].num > 0);
            }
        }
    }
}

/// The coefficient of variation of `n` numbers is less than the square root of `n`.
proof fn lemma_variation_bound(s: Seq<int>, limit: int)
    requires
        natural(s),
        sum(s) > 0,
        s.len() <= limit,
    ensures
        spread(s) < limit * (sum(s) * sum(s)),
{
    lemma_sums(s);
    let (n, m, q) = (s.len() as int, sum(s), square_sum(s));
    assert(n * q - m * m < limit * (m * m)) by (nonlinear_arith)
        requires
            0 <= q <= m * m,
            0 <= n <= limit,
            0 < m,
    ;
}

// ─── Computing it ───────────────────────────────────────────────

/// The fractions that pairs of numbers stand for.
pub open spec fn ratios(v: Seq<(Wide, Wide)>) -> Seq<Ratio> {
    v.map_values(|x: (Wide, Wide)| Ratio { num: x.0@, den: x.1@ })
}

/// What the coefficient of variation is made of: the sum of the numerators over the common
/// denominator, that of their squares, and the common denominator.
struct Sums {
    sum: Wide,
    squares: Wide,
    product: Wide,
}

/// Adds up the fractions from `lo` to `hi`, halves first.
fn gather(v: &Vec<(Wide, Wide)>, lo: usize, hi: usize) -> (r: Sums)
    requires
        lo <= hi <= v@.len(),
    ensures
        r.sum@ == sum(lifted(ratios(v@.subrange(lo as int, hi as int)))),
        r.squares@ == square_sum(lifted(ratios(v@.subrange(lo as int, hi as int)))),
        r.product@ == product(ratios(v@.subrange(lo as int, hi as int))),
    decreases hi - lo,
{
    let ghost part = ratios(v@.subrange(lo as int, hi as int));
    if lo == hi {
        assert(part =~= Seq::<Ratio>::empty());
        assert(lifted(part) =~= Seq::<int>::empty());
        return Sums { sum: Wide::zero(), squares: Wide::zero(), product: Wide::from_wide(1) };
    }
    if hi - lo == 1 {
        proof {
            let x = Ratio { num: v@[lo as int].0@, den: v@[lo as int].1@ };
            assert(part =~= seq![x]);
            lemma_single(x);
        }
        let x: &(Wide, Wide) = &v[lo];
        return Sums { sum: x.0.copy(), squares: x.0.times(&x.0), product: x.1.copy() };
    }
    let mid: usize = lo + (hi - lo) / 2;
    let a: Sums = gather(v, lo, mid);
    let b: Sums = gather(v, mid, hi);
    proof {
        let left = ratios(v@.subrange(lo as int, mid as int));
        let right = ratios(v@.subrange(mid as int, hi as int));
        assert(part =~= left + right);
        lemma_sums_of_concat(left, right);
    }
    let sum: Wide = a.sum.times(&b.product).plus(&b.sum.times(&a.product));
    let squares: Wide = a.squares.times(&b.product.times(&b.product)).plus(
        &b.squares.times(&a.product.times(&a.product)),
    );
    let product: Wide = a.product.times(&b.product);
    Sums { sum, squares, product }
}

/// The coefficient of variation of fractions, in units of 10⁻¹².
pub fn variation(v: &Vec<(Wide, Wide)>) -> (e: u128)
    requires
        proper(ratios(v@)),
    ensures
        is_variation(e as int, ratios(v@)),
        e < MAX_ERROR,
{
    let ghost s = ratios(v@);
    let ghost y = lifted(s);
    let count: usize = v.len();
    let sums: Sums = gather(v, 0, count);
    proof {
        assert(v@.subrange(0, count as int) =~= v@);
        lemma_lifted(s);
        lemma_sums(y);
    }
    if sums.sum.is_zero() {
        return 0;
    }
    let mean: Wide = sums.sum.times(&sums.sum);
    let one: Wide = Wide::from_wide(1_000_000_000_000_000_000_000_000);
    // The squared coefficient plus one, over the squared mean
    let bound: Wide = one.times(&Wide::from_wide(count as u128).times(&sums.squares));
    let ghost m = sum(y);
    let ghost u = m * m;
    let ghost w = (ONE * ONE) * spread(y);
    proof {
        assert(u > 0) by (nonlinear_arith)
            requires
                u == m * m,
                m > 0,
        ;
        let (k, n, q) = (1_000_000_000_000_000_000_000_000int, count as int, square_sum(y));
        assert(k * (n * q) == k * (n * q - u) + k * u) by (nonlinear_arith);
        assert(bound@ == w + k * u);
        law_spread(y);
        lemma_variation_bound(y, 0x1_0000_0000_0000_0000);
    }
    let mut lo: u128 = 0;
    let mut hi: u128 = 4_294_967_296_000_000_000_000;
    proof {
        let k = 1_000_000_000_000_000_000_000_000int;
        let v = spread(y);
        assert((0int * 0) * u == 0) by (nonlinear_arith);
        assert(k * v < k * (0x1_0000_0000_0000_0000 * u));
        assert(k * (0x1_0000_0000_0000_0000 * u) == (hi * hi) * u) by (nonlinear_arith)
            requires
                k == 1_000_000_000_000_000_000_000_000,
                hi == 4_294_967_296_000_000_000_000,
        ;
    }
    while hi - lo > 1
        invariant
            lo < hi <= 4_294_967_296_000_000_000_000,
            mean@ == u,
            u > 0,
            bound@ == w + 1_000_000_000_000_000_000_000_000 * u,
            one@ == 1_000_000_000_000_000_000_000_000,
            (lo * lo) * u <= w < (hi * hi) * u,
        decreases hi - lo,
    {
        let mid: u128 = lo + (hi - lo) / 2;
        let wide: Wide = Wide::from_wide(mid);
        let square: Wide = wide.times(&wide);
        let tried: Wide = square.plus(&one).times(&mean);
        proof {
            let (a, k) = (mid * mid, 1_000_000_000_000_000_000_000_000int);
            assert((a + k) * u == a * u + k * u) by (nonlinear_arith);
        }
        if tried.at_most(&bound) {
            lo = mid;
        } else {
            hi = mid;
        }
    }
    lo
}

proof fn lemma_roots(x: int, y: int)
    requires
        0 <= x,
        0 <= y,
    ensures
        x * x <= y * y ==> x <= y,
        x * x < y * y ==> x < y,
{
    if x > y {
        assert(x * x > y * y) by (nonlinear_arith)
            requires
                x > y,
                y >= 0,
        ;
    }
}

/// Two numbers vary by half their distance over their mean: by their distance over their sum.
pub proof fn law_two_vary(e: int, a: Ratio, b: Ratio)
    requires
        is_variation(e, seq![a, b]),
        0 <= a.num,
        0 <= b.num,
        0 < a.den,
        0 < b.den,
        a.num * b.den + b.num * a.den > 0,
    ensures
        ({
            let x = a.num * b.den;
            let y = b.num * a.den;
            let distance = if x > y {
                x - y
            } else {
                y - x
            };
            e * (x + y) <= ONE * distance < (e + 1) * (x + y)
        }),
{
    let s = seq![a, b];
    let one = seq![a];
    assert(s.drop_last() =~= one);
    assert(one.drop_last() =~= Seq::empty());
    assert(product(one.drop_last()) == 1);
    assert(product(one) == 1 * a.den);
    assert(lifted(one.drop_last()) =~= Seq::empty());
    assert(lifted(one) =~= seq![a.num * 1]);
    let x = a.num * b.den;
    let y = b.num * a.den;
    let l = lifted(s);
    assert(l =~= seq![x, y]);
    let l1 = l.drop_last();
    assert(l1 =~= seq![x]);
    assert(l1.drop_last() =~= Seq::empty());
    assert(sum(l1.drop_last()) == 0);
    assert(square_sum(l1.drop_last()) == 0);
    assert(sum(l1) == x);
    assert(square_sum(l1) == x * x);
    assert(sum(l) == x + y);
    assert(square_sum(l) == x * x + y * y);
    let m = x + y;
    let d = if x > y {
        x - y
    } else {
        y - x
    };
    assert(spread(l) == d * d) by {
        assert(2 * (x * x + y * y) - (x + y) * (x + y) == (x - y) * (x - y)) by (nonlinear_arith);
        assert((x - y) * (x - y) == (y - x) * (y - x)) by (nonlinear_arith);
    }
    let o = ONE as int;
    assert((e * m) * (e * m) == (e * e) * (m * m)) by (nonlinear_arith);
    assert((o * d) * (o * d) == (o * o) * (d * d)) by (nonlinear_arith);
    assert(((e + 1) * m) * ((e + 1) * m) == ((e + 1) * (e + 1)) * (m * m)) by (nonlinear_arith);
    assert(0 <= e * m) by (nonlinear_arith)
        requires
            0 <= e,
            0 < m,
    ;
    assert(0 <= (e + 1) * m) by (nonlinear_arith)
        requires
            0 <= e,
            0 < m,
    ;
    lemma_roots(e * m, o * d);
    lemma_roots(o * d, (e + 1) * m);
}

} // verus!
