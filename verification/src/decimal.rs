//! Reading decimal fractions.
//!
//! The texts are those that stand for floating-point numbers: a sign, digits with a point among
//! them, and an exponent; or one of the words for an infinity or for no number. Nothing is lost
//! that a double could tell apart: only what lies below its last place or above its range is cut
//! off. A number is cut to whole millionths, or to other units, only when it is asked for in these.

use crate::text::{all_digits, digits_value, is_digit};
use crate::wide::{lemma_natural, Wide};
use vstd::arithmetic::div_mod::*;
use vstd::prelude::*;

verus! {

/// What a text stands for.
pub enum Amount {
    /// The word that says that there is no number
    NotANumber,
    /// A number, with its sign, in units of the last place
    Units(int),
}

/// How many places behind the point are told apart: more than the smallest double has.
pub const PLACES: i128 = 330;

/// The most millionths that a number is cut to.
pub const LARGEST: u64 = 0xffff_ffff_ffff_ffff;

/// A power of ten.
pub open spec fn ten_to(k: int) -> int
    decreases k,
{
    if k <= 0 {
        1
    } else {
        10 * ten_to(k - 1)
    }
}

/// How many units one makes.
pub open spec fn one() -> int {
    ten_to(330)
}

/// How many units a millionth makes.
pub open spec fn millionth() -> int {
    ten_to(324)
}

/// A number, at most `most` in size.
pub open spec fn within(x: int, most: int) -> int {
    if x > most {
        most
    } else if x < -most {
        -most
    } else {
        x
    }
}

/// Units in whole parts of `part` units, rounded towards zero.
pub open spec fn parts_of(units: int, part: int) -> int {
    if units < 0 {
        -((-units) / part)
    } else {
        units / part
    }
}

/// Units in whole millionths, rounded towards zero, as far as 64 bits hold them.
pub open spec fn millionths(units: int) -> int {
    within(parts_of(units, millionth()), LARGEST as int)
}

/// The most parts of 10⁻¹⁸ that a number is cut to.
pub const LARGEST_ATTOS: i128 = 18_446_744_073_709_551_615_999_999_999_999;

/// Units in whole parts of 10⁻¹⁸, rounded towards zero, up to the most there are.
pub open spec fn attos(units: int) -> int {
    within(parts_of(units, ten_to(312)), LARGEST_ATTOS as int)
}

/// A number that was read.
#[derive(Debug)]
pub enum Number {
    NotANumber,
    Units { negative: bool, size: Wide },
}

impl View for Number {
    type V = Amount;

    open spec fn view(&self) -> Amount {
        match self {
            Number::NotANumber => Amount::NotANumber,
            Number::Units { negative, size } => Amount::Units(
                if *negative {
                    -size@
                } else {
                    size@
                },
            ),
        }
    }
}

/// How many of the first characters are digits.
pub open spec fn digit_run(s: Seq<char>) -> int
    decreases s.len(),
{
    if s.len() == 0 || !is_digit(s[0]) {
        0
    } else {
        1 + digit_run(s.skip(1))
    }
}

/// A text's sign and what follows it.
pub open spec fn after_sign(s: Seq<char>) -> (bool, Seq<char>) {
    if s.len() > 0 && (s[0] == '+' || s[0] == '-') {
        (s[0] == '-', s.skip(1))
    } else {
        (false, s)
    }
}

/// Whether two characters differ in nothing but ASCII case, the second being in lower case.
pub open spec fn same_letter(c: char, lower: char) -> bool {
    c == lower || ('A' <= c <= 'Z' && c as u32 + 32 == lower as u32)
}

/// Whether a text is the word `lower` in any case.
pub open spec fn is_word(s: Seq<char>, lower: Seq<char>) -> bool {
    s.len() == lower.len() && forall|i: int|
        0 <= i < s.len() ==> same_letter(#[trigger] s[i], lower[i])
}

/// The exponent that a text writes: none is 0. Not a text that is no exponent.
pub open spec fn exponent_of(s: Seq<char>) -> Option<int> {
    if s.len() == 0 {
        Some(0)
    } else if s[0] != 'e' && s[0] != 'E' {
        None
    } else {
        let (negative, d) = after_sign(s.skip(1));
        if d.len() > 0 && all_digits(d) {
            Some(
                if negative {
                    -digits_value(d)
                } else {
                    digits_value(d)
                },
            )
        } else {
            None
        }
    }
}

/// A number as it is written: its digits, how many of them stand before the point, and the
/// exponent.
pub struct Written {
    pub digits: Seq<char>,
    pub before_point: int,
    pub exponent: int,
}

/// The number that a text without a sign writes in digits.
pub open spec fn written(s: Seq<char>) -> Option<Written> {
    let whole = digit_run(s);
    let pointed = whole < s.len() && s[whole] == '.';
    let fraction = if pointed {
        digit_run(s.skip(whole + 1))
    } else {
        0
    };
    let rest = if pointed {
        s.skip(whole + 1 + fraction)
    } else {
        s.skip(whole)
    };
    if whole + fraction == 0 {
        None
    } else {
        match exponent_of(rest) {
            Some(exponent) => Some(
                Written {
                    digits: s.take(whole) + if pointed {
                        s.subrange(whole + 1, whole + 1 + fraction)
                    } else {
                        Seq::empty()
                    },
                    before_point: whole,
                    exponent,
                },
            ),
            None => None,
        }
    }
}

/// The first `n` digits of a number, filled up with zeros.
pub open spec fn leading(digits: Seq<char>, n: int) -> Seq<char> {
    Seq::new(
        if n < 0 {
            0
        } else {
            n as nat
        },
        |i: int|
            if i < digits.len() {
                digits[i]
            } else {
                '0'
            },
    )
}

/// Beyond what a double can hold: 10³⁰⁹, in units. What is written as large as that, and
/// infinity, counts as this number.
pub open spec fn largest() -> int {
    ten_to(639)
}

/// A number no larger than the largest.
pub open spec fn capped(x: int) -> int {
    if x > largest() {
        largest()
    } else {
        x
    }
}

impl Written {
    /// The number's size in units. To multiply by ten is to read one more digit, so these are the
    /// digits before the point, and as many more as there are places, and as many more as the
    /// exponent says.
    pub open spec fn units(self) -> int {
        capped(digits_value(leading(self.digits, self.before_point + PLACES + self.exponent)))
    }
}

/// What a text stands for.
pub open spec fn amount_of(s: Seq<char>) -> Option<Amount> {
    let (negative, rest) = after_sign(s);
    if is_word(rest, "nan"@) {
        Some(Amount::NotANumber)
    } else {
        let size = if is_word(rest, "inf"@) || is_word(rest, "infinity"@) {
            Some(largest())
        } else {
            match written(rest) {
                Some(w) => Some(w.units()),
                None => None,
            }
        };
        match size {
            Some(m) => Some(
                Amount::Units(
                    if negative {
                        -m
                    } else {
                        m
                    },
                ),
            ),
            None => None,
        }
    }
}

/// No amount is larger than the largest.
pub proof fn law_amount_size(s: Seq<char>)
    ensures
        match amount_of(s) {
            Some(Amount::Units(u)) => -largest() <= u <= largest(),
            _ => true,
        },
{
    let rest = after_sign(s).1;
    lemma_ten_to(639);
    if !is_word(rest, "inf"@) && !is_word(rest, "infinity"@) {
        if let Some(w) = written(rest) {
            lemma_written(rest);
            let n = w.before_point + PLACES + w.exponent;
            if n >= 0 {
                lemma_leading_grows(w.digits, n, n);
            } else {
                assert(leading(w.digits, n).len() == 0);
            }
        }
    }
}

pub proof fn lemma_ten_to(k: int)
    ensures
        ten_to(k) >= 1,
    decreases k,
{
    if k > 0 {
        lemma_ten_to(k - 1);
    }
}

pub proof fn lemma_ten_to_sum(a: int, b: int)
    requires
        0 <= a,
        0 <= b,
    ensures
        ten_to(a + b) == ten_to(a) * ten_to(b),
    decreases b,
{
    if b > 0 {
        lemma_ten_to_sum(a, b - 1);
        let x = ten_to(a);
        let y = ten_to(b - 1);
        assert(10 * (x * y) == x * (10 * y)) by (nonlinear_arith);
    }
}

proof fn lemma_runs(s: Seq<char>)
    ensures
        0 <= digit_run(s) <= s.len(),
        all_digits(s.take(digit_run(s))),
    decreases s.len(),
{
    if s.len() > 0 && is_digit(s[0]) {
        lemma_runs(s.skip(1));
        let n = digit_run(s);
        assert forall|i: int| 0 <= i < n implies is_digit(#[trigger] s.take(n)[i]) by {
            if i > 0 {
                assert(s.skip(1).take(n - 1)[i - 1] == s[i]);
            }
        }
    }
}

proof fn lemma_written(s: Seq<char>)
    ensures
        match written(s) {
            Some(w) => all_digits(w.digits),
            None => true,
        },
{
    let whole = digit_run(s);
    lemma_runs(s);
    if whole < s.len() && s[whole] == '.' {
        let rest = s.skip(whole + 1);
        lemma_runs(rest);
        let f = digit_run(rest);
        assert(s.subrange(whole + 1, whole + 1 + f) =~= rest.take(f));
    }
}

// ─── Lemmas ─────────────────────────────────────────────────────

proof fn lemma_digit_run(s: Seq<char>, n: int)
    requires
        0 <= n <= s.len(),
        n < s.len() ==> !is_digit(s[n]),
        forall|i: int| 0 <= i < n ==> is_digit(#[trigger] s[i]),
    ensures
        digit_run(s) == n,
    decreases s.len(),
{
    if n > 0 {
        assert(is_digit(s[0]));
        assert forall|i: int| 0 <= i < n - 1 implies is_digit(#[trigger] s.skip(1)[i]) by {
            assert(s.skip(1)[i] == s[i + 1]);
        }
        lemma_digit_run(s.skip(1), n - 1);
    }
}

/// Reading on can only add to a number: what the first digits make, the first digits and more
/// make at least ten times over.
proof fn lemma_leading_grows(digits: Seq<char>, m: int, n: int)
    requires
        all_digits(digits),
        0 <= m <= n,
    ensures
        0 <= digits_value(leading(digits, m)) <= digits_value(leading(digits, n)),
        m < n ==> 10 * digits_value(leading(digits, m)) <= digits_value(leading(digits, n)),
    decreases n,
{
    if m < n {
        lemma_leading_grows(digits, m, n - 1);
        let l = leading(digits, n);
        assert(l.drop_last() =~= leading(digits, n - 1));
        assert(is_digit(l.last())) by {
            if n - 1 < digits.len() {
                assert(is_digit(digits[n - 1]));
            }
        }
    } else if n > 0 {
        lemma_leading_grows(digits, n - 1, n - 1);
        let l = leading(digits, n);
        assert(l.drop_last() =~= leading(digits, n - 1));
        assert(is_digit(l.last())) by {
            if n - 1 < digits.len() {
                assert(is_digit(digits[n - 1]));
            }
        }
    }
}

/// Zeros after nothing are nothing.
proof fn lemma_leading_zero(digits: Seq<char>, n: int)
    requires
        digits.len() <= n,
        digits_value(digits) == 0,
    ensures
        digits_value(leading(digits, n)) == 0,
    decreases n,
{
    let l = leading(digits, n);
    if n == digits.len() {
        assert(l =~= digits);
    } else {
        lemma_leading_zero(digits, n - 1);
        assert(l.drop_last() =~= leading(digits, n - 1));
    }
}

// ─── Reading ────────────────────────────────────────────────────

/// The end of the run of digits that begins at `from`.
fn end_of_digits(s: &Vec<char>, from: usize) -> (r: usize)
    requires
        from <= s@.len(),
    ensures
        from <= r <= s@.len(),
        r - from == digit_run(s@.skip(from as int)),
        forall|i: int| from <= i < r ==> is_digit(#[trigger] s@[i]),
{
    let mut i: usize = from;
    while i < s.len() && '0' <= s[i] && s[i] <= '9'
        invariant
            from <= i <= s@.len(),
            forall|j: int| from <= j < i ==> is_digit(#[trigger] s@[j]),
        decreases s@.len() - i,
    {
        i = i + 1;
    }
    proof {
        let rest = s@.skip(from as int);
        assert forall|j: int| 0 <= j < i - from implies is_digit(#[trigger] rest[j]) by {
            assert(rest[j] == s@[from + j]);
        }
        lemma_digit_run(rest, i - from);
    }
    i
}

fn word_is(s: &Vec<char>, from: usize, lower: &str) -> (r: bool)
    requires
        from <= s@.len(),
    ensures
        r == is_word(s@.skip(from as int), lower@),
{
    let w: Vec<char> = crate::text::chars_of(lower);
    if s.len() - from != w.len() {
        return false;
    }
    let mut i: usize = 0;
    while i < w.len()
        invariant
            w@ == lower@,
            i <= w@.len(),
            s.len() - from == w@.len(),
            forall|j: int| 0 <= j < i ==> same_letter(#[trigger] s@.skip(from as int)[j], lower@[j]),
        decreases w@.len() - i,
    {
        let c: char = s[from + i];
        assert(s@.skip(from as int)[i as int] == c);
        let letter: char = w[i];
        assert(lower@[i as int] == letter);
        let fits: bool = c == letter || ('A' <= c && c <= 'Z' && c as u32 + 32 == letter as u32);
        assert(fits == same_letter(c, letter));
        if !fits {
            assert(!same_letter(s@.skip(from as int)[i as int], lower@[i as int]));
            return false;
        }
        i = i + 1;
    }
    true
}

/// The largest exponent that is told apart: far more than a text has digits.
const FAR: i128 = 0x10_0000_0000_0000_0000_0000_0000;

/// An exponent, cut off where it is far beyond the length of any text.
spec fn near(e: int) -> int {
    if e > FAR {
        FAR as int
    } else if e < -FAR {
        -FAR
    } else {
        e
    }
}

proof fn lemma_digits_grow(s: Seq<char>, n: int)
    requires
        all_digits(s),
        0 <= n <= s.len(),
    ensures
        0 <= digits_value(s.take(n)) <= digits_value(s),
    decreases s.len() - n,
{
    if n == s.len() {
        assert(s.take(n) =~= s);
        assert(leading(s, n) =~= s);
        lemma_leading_grows(s, n, n);
    } else {
        lemma_digits_grow(s, n + 1);
        assert(s.take(n + 1).drop_last() =~= s.take(n));
        assert(is_digit(s[n]));
        assert(leading(s, n) =~= s.take(n));
        lemma_leading_grows(s, n, n);
    }
}

/// Reads an exponent.
fn read_exponent(s: &Vec<char>, from: usize) -> (r: Option<i128>)
    requires
        from <= s@.len(),
    ensures
        match r {
            Some(e) => exponent_of(s@.skip(from as int)) is Some && e == near(
                exponent_of(s@.skip(from as int))->0,
            ),
            None => exponent_of(s@.skip(from as int)) is None,
        },
{
    let ghost rest = s@.skip(from as int);
    if from == s.len() {
        return Some(0);
    }
    assert(rest[0] == s@[from as int]);
    if s[from] != 'e' && s[from] != 'E' {
        return None;
    }
    let signed: bool = from + 1 < s.len() && (s[from + 1] == '+' || s[from + 1] == '-');
    let negative: bool = signed && s[from + 1] == '-';
    let start: usize = if signed {
        from + 2
    } else {
        from + 1
    };
    let ghost d = after_sign(rest.skip(1)).1;
    assert(rest.skip(1) =~= s@.skip(from + 1));
    assert(d =~= s@.skip(start as int));
    assert(negative == after_sign(rest.skip(1)).0);
    let end: usize = end_of_digits(s, start);
    if start == s.len() {
        return None;
    }
    if end < s.len() {
        proof {
            let k = end - start;
            assert(d[k] == s@[end as int]);
            if all_digits(d) {
                assert(is_digit(d[k]));
                lemma_digit_run(d, d.len() as int);
            }
        }
        return None;
    }
    assert(all_digits(d)) by {
        assert forall|i: int| 0 <= i < d.len() implies is_digit(#[trigger] d[i]) by {
            assert(d[i] == s@[start + i]);
        }
    }
    let mut value: i128 = 0;
    let mut i: usize = start;
    while i < end
        invariant
            start <= i <= end == s@.len(),
            d == s@.skip(start as int),
            all_digits(d),
            0 <= value <= FAR,
            value == near(digits_value(d.take(i - start))),
        decreases end - i,
    {
        assert(d[i - start] == s@[i as int]);
        assert(is_digit(d[i - start]));
        let digit: i128 = (s[i] as u32 - '0' as u32) as i128;
        let next: i128 = value * 10 + digit;
        proof {
            assert(d.take(i - start + 1).drop_last() =~= d.take(i - start));
            lemma_digits_grow(d, i - start);
        }
        value = if next > FAR {
            FAR
        } else {
            next
        };
        i = i + 1;
    }
    assert(d.take(i - start) =~= d);
    proof {
        lemma_digits_grow(d, 0);
    }
    Some(
        if negative {
            -value
        } else {
            value
        },
    )
}

/// A power of ten.
pub fn ten_power(k: u32) -> (r: Wide)
    ensures
        r@ == ten_to(k as int),
{
    let mut r: Wide = Wide::from_wide(1);
    let mut i: u32 = 0;
    while i < k
        invariant
            i <= k,
            r@ == ten_to(i as int),
        decreases k - i,
    {
        r = r.times_digit(10);
        i = i + 1;
    }
    r
}

fn largest_size() -> (r: Wide)
    ensures
        r@ == largest(),
{
    ten_power(639)
}

/// The value of the first `n` digits, filled up with zeros, as far as it is told apart.
fn value_of_leading(digits: &Vec<char>, n: i128) -> (r: Wide)
    requires
        all_digits(digits@),
    ensures
        r@ == capped(digits_value(leading(digits@, n as int))),
{
    let most: Wide = largest_size();
    let mut value: Wide = Wide::zero();
    let mut i: i128 = 0;
    let len: i128 = digits.len() as i128;
    proof {
        lemma_ten_to(639);
    }
    while i < n
        invariant
            0 <= i,
            i <= n || n < 0,
            n < 0 ==> i == 0,
            len == digits@.len(),
            len <= usize::MAX,
            all_digits(digits@),
            most@ == largest(),
            value@ == digits_value(leading(digits@, i as int)),
            value@ <= largest(),
        decreases n - i,
    {
        if i >= len && value.is_zero() {
            proof {
                assert(digits_value(digits@) == 0) by {
                    assert(leading(digits@, len as int) =~= digits@);
                    lemma_leading_grows(digits@, len as int, i as int);
                    lemma_leading_grows(digits@, 0, len as int);
                }
                lemma_leading_zero(digits@, n as int);
            }
            return Wide::zero();
        }
        let digit: u128 = if i < len {
            assert(is_digit(digits@[i as int]));
            (digits[i as usize] as u32 - '0' as u32) as u128
        } else {
            0
        };
        let next: Wide = value.times_digit(10).plus(&Wide::from_wide(digit));
        proof {
            let l = leading(digits@, i + 1);
            assert(l.drop_last() =~= leading(digits@, i as int));
            assert(next@ == digits_value(l));
            lemma_leading_grows(digits@, i + 1, n as int);
        }
        if !next.at_most(&most) {
            return most;
        }
        value = next;
        i = i + 1;
    }
    assert(leading(digits@, n as int) =~= leading(digits@, i as int));
    value
}

/// Far enough from a number's digits, how far makes no difference.
proof fn lemma_far(digits: Seq<char>, before_point: int, exponent: int)
    requires
        all_digits(digits),
        0 <= before_point <= digits.len() <= usize::MAX,
    ensures
        capped(digits_value(leading(digits, before_point + PLACES + exponent))) == capped(
            digits_value(leading(digits, before_point + PLACES + near(exponent))),
        ),
{
    let n = before_point + PLACES + exponent;
    let m = before_point + PLACES + near(exponent);
    if exponent > FAR {
        let len = digits.len() as int;
        if digits_value(digits) == 0 {
            lemma_leading_zero(digits, n);
            lemma_leading_zero(digits, m);
        } else {
            assert(leading(digits, len) =~= digits);
            lemma_leading_grows(digits, len, len);
            lemma_more(digits, len, 640);
            lemma_leading_grows(digits, len + 640, n);
            lemma_leading_grows(digits, len + 640, m);
            lemma_beyond();
        }
    } else if exponent < -FAR {
        assert(leading(digits, n) =~= leading(digits, m));
    }
}

proof fn lemma_more(digits: Seq<char>, m: int, k: int)
    requires
        all_digits(digits),
        0 <= m,
        0 <= k,
        digits_value(leading(digits, m)) >= 1,
    ensures
        digits_value(leading(digits, m + k)) >= ten_to(k),
    decreases k,
{
    if k > 0 {
        lemma_more(digits, m, k - 1);
        lemma_leading_grows(digits, m + k - 1, m + k);
    }
}

proof fn lemma_beyond()
    ensures
        ten_to(640) > largest(),
{
    lemma_ten_to(639);
}

/// Collects the digits of a number that is written from `start` on, with its point at `point`.
fn gather_digits(s: &Vec<char>, start: usize, point: usize, end: usize) -> (r: Vec<char>)
    requires
        start <= point < end <= s@.len(),
        forall|i: int| start <= i < point ==> is_digit(#[trigger] s@[i]),
        forall|i: int| point < i < end ==> is_digit(#[trigger] s@[i]),
    ensures
        r@ == s@.subrange(start as int, point as int) + s@.subrange(point + 1, end as int),
        all_digits(r@),
{
    let mut r: Vec<char> = crate::text::slice_of(s, start, point);
    let ghost before = r@;
    let mut i: usize = point + 1;
    assert(before + s@.subrange(point + 1, i as int) =~= before);
    while i < end
        invariant
            point < i <= end <= s@.len(),
            r@ == before + s@.subrange(point + 1, i as int),
        decreases end - i,
    {
        r.push(s[i]);
        i = i + 1;
        assert(r@ =~= before + s@.subrange(point + 1, i as int));
    }
    assert forall|k: int| 0 <= k < r@.len() implies is_digit(#[trigger] r@[k]) by {
        if k < before.len() {
            assert(r@[k] == s@[start + k]);
        } else {
            assert(r@[k] == s@[point + 1 + (k - before.len())]);
        }
    }
    r
}

/// The size in units of a number that is written from `start` on.
fn read_size(s: &Vec<char>, start: usize) -> (r: Option<Wide>)
    requires
        start <= s@.len(),
    ensures
        match r {
            Some(m) => written(s@.skip(start as int)) is Some && m@ == written(
                s@.skip(start as int),
            )->0.units(),
            None => written(s@.skip(start as int)) is None,
        },
{
    let ghost rest = s@.skip(start as int);
    let point: usize = end_of_digits(s, start);
    let ghost whole = point - start;
    if point < s.len() && s[point] == '.' {
        assert(rest[whole] == '.');
        let end: usize = end_of_digits(s, point + 1);
        let ghost fraction = end - point - 1;
        assert(rest.skip(whole + 1) =~= s@.skip(point + 1));
        assert(rest.skip(whole + 1 + fraction) =~= s@.skip(end as int));
        if point == start && end == point + 1 {
            return None;
        }
        let exponent: i128 = match read_exponent(s, end) {
            Some(e) => e,
            None => {
                return None;
            },
        };
        let digits: Vec<char> = gather_digits(s, start, point, end);
        let len: usize = digits.len();
        proof {
            let w = written(rest)->0;
            assert(s@.subrange(start as int, point as int) =~= rest.take(whole));
            assert(s@.subrange(point + 1, end as int) =~= rest.subrange(
                whole + 1,
                whole + 1 + fraction,
            ));
            assert(w.digits == digits@);
            lemma_far(digits@, whole, w.exponent);
        }
        let n: i128 = (point - start) as i128 + PLACES + exponent;
        Some(value_of_leading(&digits, n))
    } else {
        proof {
            if point < s@.len() {
                assert(rest[whole] == s@[point as int]);
            }
            assert(rest.skip(whole) =~= s@.skip(point as int));
        }
        if point == start {
            return None;
        }
        let exponent: i128 = match read_exponent(s, point) {
            Some(e) => e,
            None => {
                return None;
            },
        };
        let digits: Vec<char> = crate::text::slice_of(s, start, point);
        let len: usize = digits.len();
        proof {
            let w = written(rest)->0;
            assert(w.digits =~= digits@);
            assert(all_digits(digits@)) by {
                assert forall|k: int| 0 <= k < digits@.len() implies is_digit(
                    #[trigger] digits@[k],
                ) by {
                    assert(digits@[k] == s@[start + k]);
                }
            }
            lemma_far(digits@, whole, w.exponent);
        }
        let n: i128 = (point - start) as i128 + PLACES + exponent;
        Some(value_of_leading(&digits, n))
    }
}

/// Reads a decimal fraction.
pub fn read_amount(s: &Vec<char>) -> (r: Option<Number>)
    ensures
        amount_of(s@) == match r {
            Some(n) => Some(n@),
            None => None,
        },
{
    let signed: bool = s.len() > 0 && (s[0] == '+' || s[0] == '-');
    let negative: bool = signed && s[0] == '-';
    let start: usize = if signed {
        1
    } else {
        0
    };
    assert(after_sign(s@).1 =~= s@.skip(start as int));
    if word_is(s, start, "nan") {
        return Some(Number::NotANumber);
    }
    let size: Wide = if word_is(s, start, "inf") || word_is(s, start, "infinity") {
        largest_size()
    } else {
        match read_size(s, start) {
            Some(m) => m,
            None => {
                return None;
            },
        }
    };
    Some(Number::Units { negative, size })
}

impl Number {
    /// Whether the number is above zero.
    pub fn is_positive(&self) -> (r: bool)
        ensures
            r == match self@ {
                Amount::NotANumber => false,
                Amount::Units(u) => u > 0,
            },
    {
        match self {
            Number::NotANumber => false,
            Number::Units { negative, size } => {
                proof {
                    lemma_natural(size.limbs@);
                }
                !*negative && !size.is_zero()
            },
        }
    }

    /// The number in whole millionths, rounded towards zero, as far as 64 bits hold them; not what
    /// is no number.
    pub fn millionths(&self) -> (r: Option<i128>)
        ensures
            match self@ {
                Amount::NotANumber => r is None,
                Amount::Units(u) => r is Some && r->0 == millionths(u) && -LARGEST <= r->0
                    <= LARGEST && (u >= 0 ==> 0 <= r->0),
            },
    {
        match self {
            Number::NotANumber => None,
            Number::Units { negative, size } => {
                proof {
                    lemma_ten_to(324);
                    lemma_natural(size.limbs@);
                    lemma_div_basics(millionth());
                    lemma_div_pos_is_pos(size@, millionth());
                }
                let n: u64 = size.quotient(&Wide::zero(), &ten_power(324));
                Some(
                    if *negative {
                        -(n as i128)
                    } else {
                        n as i128
                    },
                )
            },
        }
    }
}

/// Dividing by a product is dividing by one factor after the other.
proof fn lemma_two_steps(n: int, p: int, t: int)
    requires
        0 <= n,
        0 < p,
        0 < t,
    ensures
        0 <= n - (n / (p * t)) * (p * t) < p * t,
        n / p == (n / (p * t)) * t + (n - (n / (p * t)) * (p * t)) / p,
        0 <= (n - (n / (p * t)) * (p * t)) / p < t,
{
    let m = p * t;
    assert(m > 0) by (nonlinear_arith)
        requires
            m == p * t,
            0 < p,
            0 < t,
    ;
    let q = n / m;
    let r = n % m;
    lemma_fundamental_div_mod(n, m);
    lemma_mod_bound(n, m);
    assert(n - q * m == r) by (nonlinear_arith)
        requires
            n == m * q + r,
    ;
    let s = r / p;
    let k = r % p;
    lemma_fundamental_div_mod(r, p);
    lemma_mod_bound(r, p);
    lemma_div_pos_is_pos(r, p);
    assert(s < t) by (nonlinear_arith)
        requires
            r == p * s + k,
            0 <= k,
            r < m,
            m == p * t,
            0 < p,
    ;
    assert(n == (q * t + s) * p + k) by (nonlinear_arith)
        requires
            n == m * q + r,
            m == p * t,
            r == p * s + k,
    ;
    lemma_fundamental_div_mod_converse(n, p, q * t + s, k);
}

impl Number {
    /// The number in whole parts of 10⁻¹⁸, rounded towards zero, up to the most there are; not
    /// what is no number.
    pub fn attos(&self) -> (r: Option<i128>)
        ensures
            match self@ {
                Amount::NotANumber => r is None,
                Amount::Units(u) => r is Some && r->0 == attos(u),
            },
    {
        match self {
            Number::NotANumber => None,
            Number::Units { negative, size } => {
                let whole: Wide = ten_power(324);
                let part: Wide = ten_power(312);
                let ghost (m, p) = (millionth(), ten_to(312));
                proof {
                    lemma_natural(size.limbs@);
                    lemma_ten_to(324);
                    lemma_ten_to(312);
                    lemma_ten_to_sum(312, 12);
                    assert(ten_to(12) == 1_000_000_000_000) by {
                        reveal_with_fuel(ten_to, 13);
                    }
                    lemma_two_steps(size@, p, 1_000_000_000_000);
                    lemma_div_basics(m);
                    lemma_div_basics(p);
                    lemma_div_pos_is_pos(size@, m);
                    lemma_div_pos_is_pos(size@, p);
                }
                let high: u64 = size.quotient(&Wide::zero(), &whole);
                let taken: Wide = Wide::from_wide(high as u128).times(&whole);
                let low: u64 = size.quotient(&taken, &part);
                let n: i128 = if low > 999_999_999_999 {
                    LARGEST_ATTOS
                } else {
                    high as i128 * 1_000_000_000_000 + low as i128
                };
                proof {
                    let q = size@ / m;
                    if q > u64::MAX {
                        let rest = size@ - taken@;
                        lemma_fundamental_div_mod(size@, m);
                        lemma_mod_bound(size@, m);
                        assert(rest >= m) by (nonlinear_arith)
                            requires
                                rest == size@ - high * m,
                                size@ >= m * q,
                                q >= high + 1,
                                m > 0,
                        ;
                        lemma_div_is_ordered(1_000_000_000_000 * p, rest, p);
                        lemma_div_multiples_vanish(1_000_000_000_000, p);
                        assert(1_000_000_000_000 * p == p * 1_000_000_000_000) by (nonlinear_arith);
                        assert(rest / p >= 1_000_000_000_000);
                    }
                }
                Some(
                    if *negative {
                        -n
                    } else {
                        n
                    },
                )
            },
        }
    }
}

/// Reads a decimal fraction in whole parts of 10⁻¹⁸; not what is no number.
pub fn read_attos(s: &Vec<char>) -> (r: Option<i128>)
    ensures
        match amount_of(s@) {
            Some(Amount::Units(u)) => r is Some && r->0 == attos(u),
            _ => r is None,
        },
{
    match read_amount(s) {
        Some(n) => n.attos(),
        None => None,
    }
}

// ─── What a text is worth ───────────────────────────────────────

/// A million millionths make one, and a trillion parts of 10⁻¹⁸ a millionth.
pub proof fn law_units()
    ensures
        1_000_000 * millionth() == one(),
        1_000_000_000_000 * ten_to(312) == millionth(),
{
    lemma_ten_to_sum(324, 6);
    lemma_ten_to_sum(312, 12);
    assert(ten_to(6) == 1_000_000) by {
        reveal_with_fuel(ten_to, 7);
    }
    assert(ten_to(12) == 1_000_000_000_000) by {
        reveal_with_fuel(ten_to, 13);
    }
}

proof fn lemma_filled(digits: Seq<char>, k: int)
    requires
        0 <= k,
    ensures
        digits_value(leading(digits, digits.len() + k)) == digits_value(digits) * ten_to(k),
    decreases k,
{
    let l = leading(digits, digits.len() + k);
    if k == 0 {
        assert(l =~= digits);
    } else {
        lemma_filled(digits, k - 1);
        assert(l.drop_last() =~= leading(digits, digits.len() + k - 1));
        assert(l.last() == '0');
        let v = digits_value(digits);
        let t = ten_to(k - 1);
        assert((v * t) * 10 == v * (10 * t)) by (nonlinear_arith);
    }
}

proof fn lemma_no_word(s: Seq<char>)
    requires
        s.len() > 0,
        is_digit(s[0]) || s[0] == '.',
    ensures
        !is_word(s, "nan"@),
        !is_word(s, "inf"@),
        !is_word(s, "infinity"@),
{
    reveal_strlit("nan");
    reveal_strlit("inf");
    reveal_strlit("infinity");
    if is_word(s, "nan"@) {
        assert(same_letter(s[0], "nan"@[0]));
    }
    if is_word(s, "inf"@) {
        assert(same_letter(s[0], "inf"@[0]));
    }
    if is_word(s, "infinity"@) {
        assert(same_letter(s[0], "infinity"@[0]));
    }
}

/// Whole digits, a point and digits behind it are worth what all the digits write, over a power of
/// ten with as many zeros as there are digits behind the point. A minus sign turns that round.
pub proof fn law_fraction(a: Seq<char>, b: Seq<char>)
    requires
        all_digits(a),
        all_digits(b),
        a.len() + b.len() > 0,
        b.len() <= 330,
        digits_value(a + b) * ten_to(330 - b.len()) <= ten_to(639),
    ensures
        amount_of(a.push('.') + b) == Some(
            Amount::Units(digits_value(a + b) * ten_to(330 - b.len())),
        ),
        amount_of(seq!['-'] + (a.push('.') + b)) == Some(
            Amount::Units(-(digits_value(a + b) * ten_to(330 - b.len()))),
        ),
        amount_of(seq!['+'] + (a.push('.') + b)) == Some(
            Amount::Units(digits_value(a + b) * ten_to(330 - b.len())),
        ),
{
    let s = a.push('.') + b;
    let w = a.len() as int;
    assert forall|i: int| 0 <= i < w implies is_digit(#[trigger] s[i]) by {
        assert(s[i] == a[i]);
    }
    lemma_digit_run(s, w);
    assert(s[w] == '.');
    assert(s.skip(w + 1) =~= b);
    lemma_digit_run(b, b.len() as int);
    assert(s.skip(w + 1 + b.len()) =~= Seq::empty());
    assert(s.take(w) =~= a);
    assert(s.subrange(w + 1, w + 1 + b.len()) =~= b);
    lemma_filled(a + b, 330 - b.len());
    assert(s.len() > 0 && (is_digit(s[0]) || s[0] == '.')) by {
        if w > 0 {
            assert(is_digit(s[0]));
        }
    }
    lemma_no_word(s);
    lemma_signed(s);
}

proof fn lemma_signed(s: Seq<char>)
    requires
        s.len() > 0,
        is_digit(s[0]) || s[0] == '.',
    ensures
        after_sign(s) == (false, s),
        after_sign(seq!['-'] + s) == (true, s),
        after_sign(seq!['+'] + s) == (false, s),
{
    assert((seq!['-'] + s).skip(1) =~= s);
    assert((seq!['+'] + s).skip(1) =~= s);
}

/// Digits alone are worth the whole number that they write.
pub proof fn law_whole(a: Seq<char>)
    requires
        all_digits(a),
        a.len() > 0,
        digits_value(a) * ten_to(330) <= ten_to(639),
    ensures
        amount_of(a) == Some(Amount::Units(digits_value(a) * ten_to(330))),
        amount_of(seq!['-'] + a) == Some(Amount::Units(-(digits_value(a) * ten_to(330)))),
{
    lemma_digit_run(a, a.len() as int);
    assert(a.skip(a.len() as int) =~= Seq::empty());
    assert(a.take(a.len() as int) + Seq::empty() =~= a);
    lemma_filled(a, 330);
    assert(is_digit(a[0]));
    lemma_no_word(a);
    lemma_signed(a);
}

/// An exponent moves the point: digits with an exponent are worth what they write, times ten to
/// that power.
pub proof fn law_exponent(a: Seq<char>, e: Seq<char>)
    requires
        all_digits(a),
        all_digits(e),
        a.len() > 0,
        e.len() > 0,
        digits_value(e) <= 330,
        digits_value(a) * ten_to(330 + digits_value(e)) <= ten_to(639),
    ensures
        amount_of(a.push('e') + e) == Some(
            Amount::Units(digits_value(a) * ten_to(330 + digits_value(e))),
        ),
        digits_value(a) * ten_to(330 - digits_value(e)) <= ten_to(639) ==> amount_of(
            a.push('e').push('-') + e,
        ) == Some(Amount::Units(digits_value(a) * ten_to(330 - digits_value(e)))),
{
    let n = a.len() as int;
    let x = digits_value(e);
    lemma_digits_grow(e, 0);
    let s = a.push('e') + e;
    assert forall|i: int| 0 <= i < n implies is_digit(#[trigger] s[i]) by {
        assert(s[i] == a[i]);
    }
    lemma_digit_run(s, n);
    assert(s[n] == 'e');
    assert(s.skip(n) =~= seq!['e'] + e);
    assert((seq!['e'] + e).skip(1) =~= e);
    assert(is_digit(e[0]));
    assert(s.take(n) + Seq::empty() =~= a);
    lemma_filled(a, 330 + x);
    lemma_no_word(s);
    lemma_signed(s);
    let t = a.push('e').push('-') + e;
    assert forall|i: int| 0 <= i < n implies is_digit(#[trigger] t[i]) by {
        assert(t[i] == a[i]);
    }
    lemma_digit_run(t, n);
    assert(t[n] == 'e');
    assert(t.skip(n) =~= seq!['e', '-'] + e);
    assert((seq!['e', '-'] + e).skip(1) =~= seq!['-'] + e);
    assert((seq!['-'] + e).skip(1) =~= e);
    assert(t.take(n) + Seq::empty() =~= a);
    lemma_filled(a, 330 - x);
    lemma_no_word(t);
    lemma_signed(t);
}

/// A number in whole parts of 10⁻¹⁸, or in whole millionths, is rounded towards zero, the same on
/// both sides of it, and cut to the most there are.
pub proof fn law_parts(units: int, q: int)
    requires
        0 <= q,
    ensures
        q <= LARGEST_ATTOS && q * ten_to(312) <= units < (q + 1) * ten_to(312) ==> attos(units) == q
            && attos(-units) == -q,
        q <= LARGEST && q * millionth() <= units < (q + 1) * millionth() ==> millionths(units) == q
            && millionths(-units) == -q,
        units >= LARGEST_ATTOS * ten_to(312) ==> attos(units) == LARGEST_ATTOS,
        units >= LARGEST * millionth() ==> millionths(units) == LARGEST,
{
    lemma_ten_to(312);
    lemma_ten_to(324);
    lemma_part(units, ten_to(312), q);
    lemma_part(units, ten_to(324), q);
    lemma_part(units, ten_to(312), LARGEST_ATTOS as int);
    lemma_part(units, ten_to(324), LARGEST as int);
}

proof fn lemma_part(units: int, part: int, q: int)
    requires
        0 < part,
        0 <= q,
    ensures
        q * part <= units < (q + 1) * part ==> parts_of(units, part) == q && parts_of(-units, part)
            == -q,
        q * part <= units ==> parts_of(units, part) >= q,
{
    if q * part <= units {
        assert(units >= 0 && units / part >= q) by (nonlinear_arith)
            requires
                q * part <= units,
                0 < part,
                0 <= q,
        ;
        if units < (q + 1) * part {
            assert(units / part == q) by (nonlinear_arith)
                requires
                    q * part <= units < (q + 1) * part,
                    0 < part,
            ;
        }
    }
}

} // verus!
