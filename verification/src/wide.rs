//! Whole numbers of any size, for sums and products that have to be exact before they are rounded.

use vstd::prelude::*;

verus! {

/// A whole number in base 2^32, lowest digit first.
#[derive(Debug)]
pub struct Wide {
    pub limbs: Vec<u32>,
}

/// A power of 2^32.
pub open spec fn pow(n: int) -> int
    decreases n,
{
    if n <= 0 {
        1
    } else {
        0x1_0000_0000 * pow(n - 1)
    }
}

/// The digit at an index; zero behind the last.
pub open spec fn limb(s: Seq<u32>, i: int) -> int {
    if 0 <= i < s.len() {
        s[i] as int
    } else {
        0
    }
}

/// What the first `n` digits make.
pub open spec fn low_value(s: Seq<u32>, n: int) -> int
    decreases n,
{
    if n <= 0 {
        0
    } else {
        low_value(s, n - 1) + limb(s, n - 1) * pow(n - 1)
    }
}

/// What digits make.
pub open spec fn value(s: Seq<u32>) -> int {
    low_value(s, s.len() as int)
}

impl View for Wide {
    type V = int;

    open spec fn view(&self) -> int {
        value(self.limbs@)
    }
}

proof fn lemma_pow(n: int)
    ensures
        pow(n) >= 1,
    decreases n,
{
    if n > 0 {
        lemma_pow(n - 1);
    }
}

proof fn lemma_pow_sum(a: int, b: int)
    requires
        0 <= a,
        0 <= b,
    ensures
        pow(a + b) == pow(a) * pow(b),
    decreases b,
{
    if b > 0 {
        lemma_pow_sum(a, b - 1);
        let x = pow(a);
        let y = pow(b - 1);
        assert(0x1_0000_0000 * (x * y) == x * (0x1_0000_0000 * y)) by (nonlinear_arith);
    }
}

proof fn lemma_low_value(s: Seq<u32>, n: int)
    ensures
        0 <= low_value(s, n) < pow(n),
    decreases n,
{
    if n > 0 {
        lemma_low_value(s, n - 1);
        lemma_pow(n - 1);
        let d = limb(s, n - 1);
        let p = pow(n - 1);
        assert(0 <= d * p <= 0xffff_ffff * p) by (nonlinear_arith)
            requires
                0 <= d <= 0xffff_ffff,
                0 <= p,
        ;
    }
}

/// Zeros behind the last digit change nothing.
proof fn lemma_padded(s: Seq<u32>, n: int)
    requires
        n >= s.len(),
    ensures
        low_value(s, n) == value(s),
    decreases n,
{
    if n > s.len() {
        lemma_padded(s, n - 1);
        assert(0 * pow(n - 1) == 0);
    }
}

/// What digits make depends on these digits alone.
proof fn lemma_same_digits(s: Seq<u32>, t: Seq<u32>, n: int)
    requires
        forall|i: int| 0 <= i < n ==> limb(s, i) == #[trigger] limb(t, i),
    ensures
        low_value(s, n) == low_value(t, n),
    decreases n,
{
    if n > 0 {
        lemma_same_digits(s, t, n - 1);
        assert(limb(s, n - 1) == limb(t, n - 1));
    }
}

proof fn lemma_pushed(s: Seq<u32>, d: u32)
    ensures
        value(s.push(d)) == value(s) + d * pow(s.len() as int),
{
    let t = s.push(d);
    let n = s.len() as int;
    assert forall|i: int| 0 <= i < n implies limb(s, i) == #[trigger] limb(t, i) by {
        assert(t[i] == s[i]);
    }
    lemma_same_digits(s, t, n);
    assert(limb(t, n) == d);
}

/// A number is not negative.
pub proof fn lemma_natural(s: Seq<u32>)
    ensures
        0 <= value(s),
{
    lemma_low_value(s, s.len() as int);
}

fn digit(v: &Vec<u32>, i: usize) -> (r: u32)
    ensures
        r == limb(v@, i as int),
{
    if i < v.len() {
        v[i]
    } else {
        0
    }
}

impl Wide {
    pub fn zero() -> (r: Wide)
        ensures
            r@ == 0,
    {
        Wide { limbs: Vec::new() }
    }

    /// The number of a machine word.
    pub fn from_wide(x: u128) -> (r: Wide)
        ensures
            r@ == x,
    {
        let mut limbs: Vec<u32> = Vec::new();
        let mut rest: u128 = x;
        assert(rest * pow(0) == rest) by (nonlinear_arith)
            requires
                pow(0) == 1,
        ;
        while rest > 0
            invariant
                value(limbs@) + rest * pow(limbs@.len() as int) == x,
            decreases rest,
        {
            let d: u32 = (rest % 0x1_0000_0000) as u32;
            let next: u128 = rest / 0x1_0000_0000;
            proof {
                lemma_pushed(limbs@, d);
                let p = pow(limbs@.len() as int);
                assert(pow(limbs@.len() as int + 1) == 0x1_0000_0000 * p);
                assert(rest == d + 0x1_0000_0000 * next);
                assert(rest * p == d * p + next * (0x1_0000_0000 * p)) by (nonlinear_arith)
                    requires
                        rest == d + 0x1_0000_0000 * next,
                ;
            }
            limbs.push(d);
            rest = next;
        }
        assert(0 * pow(limbs@.len() as int) == 0);
        Wide { limbs }
    }

    pub fn copy(&self) -> (r: Wide)
        ensures
            r@ == self@,
    {
        Wide { limbs: self.limbs.clone() }
    }

    /// The sum of two numbers.
    pub fn plus(&self, other: &Wide) -> (r: Wide)
        ensures
            r@ == self@ + other@,
    {
        let n: usize = if self.limbs.len() > other.limbs.len() {
            self.limbs.len()
        } else {
            other.limbs.len()
        };
        let mut limbs: Vec<u32> = Vec::new();
        let mut carry: u32 = 0;
        let mut i: usize = 0;
        assert(0 * pow(0) == 0);
        while i < n
            invariant
                i <= n,
                limbs@.len() == i,
                carry <= 1,
                value(limbs@) + carry * pow(i as int) == low_value(self.limbs@, i as int)
                    + low_value(other.limbs@, i as int),
            decreases n - i,
        {
            let a: u32 = digit(&self.limbs, i);
            let b: u32 = digit(&other.limbs, i);
            let sum: u64 = a as u64 + b as u64 + carry as u64;
            let d: u32 = (sum % 0x1_0000_0000) as u32;
            let next: u32 = (sum / 0x1_0000_0000) as u32;
            proof {
                lemma_pushed(limbs@, d);
                let p = pow(i as int);
                assert(pow(i + 1) == 0x1_0000_0000 * p);
                assert(d * p + next * (0x1_0000_0000 * p) == a * p + b * p + carry * p)
                    by (nonlinear_arith)
                    requires
                        a + b + carry == d + 0x1_0000_0000 * next,
                ;
            }
            limbs.push(d);
            carry = next;
            i = i + 1;
        }
        proof {
            lemma_padded(self.limbs@, n as int);
            lemma_padded(other.limbs@, n as int);
            lemma_pushed(limbs@, carry);
        }
        limbs.push(carry);
        Wide { limbs }
    }

    /// The product with one digit.
    pub fn times_digit(&self, k: u32) -> (r: Wide)
        ensures
            r@ == self@ * k,
    {
        let n: usize = self.limbs.len();
        let mut limbs: Vec<u32> = Vec::new();
        let mut carry: u32 = 0;
        let mut i: usize = 0;
        assert(0 * pow(0) == 0);
        while i < n
            invariant
                i <= n == self.limbs@.len(),
                limbs@.len() == i,
                value(limbs@) + carry * pow(i as int) == low_value(self.limbs@, i as int) * k,
            decreases n - i,
        {
            let a: u32 = self.limbs[i];
            assert(0 <= a * k <= 0xffff_ffff * 0xffff_ffff) by (nonlinear_arith)
                requires
                    0 <= a <= 0xffff_ffff,
                    0 <= k <= 0xffff_ffff,
            ;
            let product: u64 = a as u64 * k as u64 + carry as u64;
            let d: u32 = (product % 0x1_0000_0000) as u32;
            let next: u32 = (product / 0x1_0000_0000) as u32;
            proof {
                lemma_pushed(limbs@, d);
                let p = pow(i as int);
                let low = low_value(self.limbs@, i as int);
                assert(pow(i + 1) == 0x1_0000_0000 * p);
                assert(limb(self.limbs@, i as int) == a);
                assert(d * p + next * (0x1_0000_0000 * p) == (a * k) * p + carry * p)
                    by (nonlinear_arith)
                    requires
                        a * k + carry == d + 0x1_0000_0000 * next,
                ;
                assert((low + a * p) * k == low * k + (a * k) * p) by (nonlinear_arith);
            }
            limbs.push(d);
            carry = next;
            i = i + 1;
        }
        proof {
            lemma_pushed(limbs@, carry);
        }
        limbs.push(carry);
        Wide { limbs }
    }

    /// The number moved up by `n` digits.
    fn shifted(&self, n: usize) -> (r: Wide)
        ensures
            r@ == self@ * pow(n as int),
    {
        let mut limbs: Vec<u32> = Vec::new();
        let mut i: usize = 0;
        while i < n
            invariant
                i <= n,
                limbs@.len() == i,
                value(limbs@) == 0,
            decreases n - i,
        {
            proof {
                lemma_pushed(limbs@, 0);
                assert(0 * pow(i as int) == 0);
            }
            limbs.push(0);
            i = i + 1;
        }
        let total: usize = self.limbs.len();
        let ghost p = pow(n as int);
        let mut j: usize = 0;
        assert(0 * p == 0);
        while j < total
            invariant
                j <= total == self.limbs@.len(),
                limbs@.len() == n + j,
                p == pow(n as int),
                value(limbs@) == low_value(self.limbs@, j as int) * p,
            decreases total - j,
        {
            let d: u32 = self.limbs[j];
            proof {
                lemma_pushed(limbs@, d);
                lemma_pow_sum(n as int, j as int);
                let q = pow(j as int);
                let low = low_value(self.limbs@, j as int);
                assert(limb(self.limbs@, j as int) == d);
                assert((low + d * q) * p == low * p + d * (p * q)) by (nonlinear_arith);
            }
            limbs.push(d);
            j = j + 1;
        }
        Wide { limbs }
    }

    /// The product of two numbers.
    pub fn times(&self, other: &Wide) -> (r: Wide)
        ensures
            r@ == self@ * other@,
    {
        let n: usize = other.limbs.len();
        let mut sum: Wide = Wide::zero();
        let mut i: usize = 0;
        let ghost a = self@;
        assert(a * 0 == 0);
        while i < n
            invariant
                i <= n == other.limbs@.len(),
                a == self@,
                sum@ == a * low_value(other.limbs@, i as int),
            decreases n - i,
        {
            let d: u32 = other.limbs[i];
            let part: Wide = self.times_digit(d).shifted(i);
            proof {
                let low = low_value(other.limbs@, i as int);
                let p = pow(i as int);
                assert(limb(other.limbs@, i as int) == d);
                assert(a * (low + d * p) == a * low + (a * d) * p) by (nonlinear_arith);
            }
            sum = sum.plus(&part);
            i = i + 1;
        }
        sum
    }

    /// Whether a number is no larger than another.
    pub fn at_most(&self, other: &Wide) -> (r: bool)
        ensures
            r == (self@ <= other@),
    {
        let n: usize = if self.limbs.len() > other.limbs.len() {
            self.limbs.len()
        } else {
            other.limbs.len()
        };
        let mut r: bool = true;
        let mut i: usize = 0;
        while i < n
            invariant
                i <= n,
                r == (low_value(self.limbs@, i as int) <= low_value(other.limbs@, i as int)),
            decreases n - i,
        {
            let a: u32 = digit(&self.limbs, i);
            let b: u32 = digit(&other.limbs, i);
            proof {
                lemma_low_value(self.limbs@, i as int);
                lemma_low_value(other.limbs@, i as int);
                let p = pow(i as int);
                if a < b {
                    assert(a * p + p <= b * p) by (nonlinear_arith)
                        requires
                            a + 1 <= b,
                            0 <= p,
                    ;
                } else if b < a {
                    assert(b * p + p <= a * p) by (nonlinear_arith)
                        requires
                            b + 1 <= a,
                            0 <= p,
                    ;
                }
            }
            if a < b {
                r = true;
            } else if a > b {
                r = false;
            }
            i = i + 1;
        }
        proof {
            lemma_padded(self.limbs@, n as int);
            lemma_padded(other.limbs@, n as int);
        }
        r
    }

    pub fn is_zero(&self) -> (r: bool)
        ensures
            r == (self@ == 0),
    {
        proof {
            lemma_natural(self.limbs@);
        }
        self.at_most(&Wide::zero())
    }

    /// The quotient of what `self` has over `less`, rounded down, as far as a word holds it;
    /// nothing where it has no more.
    pub fn quotient(&self, less: &Wide, by: &Wide) -> (r: u64)
        requires
            by@ > 0,
        ensures
            r == word_quotient(self@ - less@, by@),
    {
        if self.at_most(less) {
            proof {
                assert(self@ - less@ == 0 ==> 0int / by@ == 0) by (nonlinear_arith)
                    requires
                        by@ > 0,
                ;
            }
            return 0;
        }
        let ghost n = self@ - less@;
        let ghost d = by@;
        let mut lo: u128 = 0;
        let mut hi: u128 = 0x1_0000_0000_0000_0000;
        assert(0 * d == 0);
        while hi - lo > 1
            invariant
                lo < hi <= 0x1_0000_0000_0000_0000,
                n == self@ - less@,
                d == by@,
                lo * d <= n,
                hi == 0x1_0000_0000_0000_0000 || n < hi * d,
            decreases hi - lo,
        {
            let mid: u128 = lo + (hi - lo) / 2;
            let product: Wide = by.times(&Wide::from_wide(mid)).plus(less);
            assert(d * mid == mid * d) by (nonlinear_arith);
            if product.at_most(self) {
                lo = mid;
            } else {
                hi = mid;
            }
        }
        proof {
            let q = lo as int;
            if hi == 0x1_0000_0000_0000_0000 {
                assert(n / d >= q) by (nonlinear_arith)
                    requires
                        q * d <= n,
                        d > 0,
                ;
            } else {
                assert(n / d == q) by (nonlinear_arith)
                    requires
                        q * d <= n,
                        n < (q + 1) * d,
                        d > 0,
                ;
            }
        }
        lo as u64
    }
}

/// A quotient, rounded down, as far as a word holds it; nothing of what is below zero.
pub open spec fn word_quotient(n: int, d: int) -> int {
    if n <= 0 {
        0
    } else if n / d > u64::MAX {
        u64::MAX as int
    } else {
        n / d
    }
}

/// A quotient that a word holds is the only whole number that fits the fraction; one that is too
/// large is cut to the largest word, and nothing is left of what is not above zero.
pub proof fn law_quotient_in_word(n: int, d: int, q: int)
    requires
        0 < d,
    ensures
        n <= 0 ==> word_quotient(n, d) == 0,
        0 < n && 0 <= q <= u64::MAX && q * d <= n < (q + 1) * d ==> word_quotient(n, d) == q,
        n >= u64::MAX * d ==> word_quotient(n, d) == u64::MAX,
{
    if q * d <= n < (q + 1) * d {
        assert(n / d == q) by (nonlinear_arith)
            requires
                q * d <= n < (q + 1) * d,
                0 < d,
        ;
    }
    let m = u64::MAX as int;
    if n >= m * d {
        assert(n / d >= m && n > 0) by (nonlinear_arith)
            requires
                n >= m * d,
                0 < d,
                m == 18_446_744_073_709_551_615,
        ;
    }
}

} // verus!
