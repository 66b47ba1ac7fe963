//! Fixed-point monetary amounts and their rounding for reports.
use vstd::prelude::*;

verus! {

/// Units per whole currency unit: amounts are held in `10^-8` steps.
pub const SCALE: u64 = 100_000_000;

/// Units per reported step: reports carry four decimals, `10^-4`.
pub const REPORT_STEP: i128 = 10_000;

/// Half of a reported step, the threshold for rounding up.
pub const HALF_STEP: i128 = 5_000;

/// `v` units rounded to the nearest reported step, halves away from zero,
/// counted in reported steps.
pub open spec fn round4(v: int) -> int {
    if v >= 0 {
        (v + HALF_STEP) / (REPORT_STEP as int)
    } else {
        -((-v + HALF_STEP) / (REPORT_STEP as int))
    }
}

/// Rounds an amount of units to four decimals; the result counts `10^-4`
/// steps (so `55_555_000` units, 0.55555, gives `5556`, 0.5556).
pub fn round_to_precision_4(value: i128) -> (r: i128)
    ensures
        r == round4(value as int),
{
    if value >= 0 {
        let q = value / REPORT_STEP;
        let rem = value % REPORT_STEP;
        if rem >= HALF_STEP {
            q + 1
        } else {
            q
        }
    } else {
        // -value == p + 1, and p cannot overflow
        let p = -(value + 1);
        let q = p / REPORT_STEP;
        let rem = p % REPORT_STEP;
        if rem >= HALF_STEP - 1 {
            -(q + 1)
        } else {
            -q
        }
    }
}

/// Report rounding is consistent: it is off by at most half a step, keeps
/// values that are already whole steps, rounds an exact half away from zero,
/// and treats a value and its negation alike.
pub proof fn lemma_round4_consistent(v: int)
    ensures
        -HALF_STEP <= round4(v) * REPORT_STEP - v <= HALF_STEP,
        v % (REPORT_STEP as int) == 0 ==> round4(v) * REPORT_STEP == v,
        v >= 0 && v % (REPORT_STEP as int) == HALF_STEP ==> round4(v) * REPORT_STEP == v + HALF_STEP,
        round4(-v) == -round4(v),
{
    let m = if v >= 0 { v } else { -v };
    assert(m == (m / 10000) * 10000 + m % 10000) by (nonlinear_arith);
    assert((m + 5000) / 10000 == m / 10000 + (if m % 10000 >= 5000 { 1int } else { 0int })) by (nonlinear_arith)
        requires m >= 0, m == (m / 10000) * 10000 + m % 10000, 0 <= m % 10000 < 10000;
    if v < 0 {
        assert(v % 10000 == 0 ==> m % 10000 == 0) by (nonlinear_arith)
            requires m == -v;
    }
}

/// Most digits that an amount may carry after the decimal point.
pub const MAX_FRACTION_DIGITS: usize = 8;

pub open spec fn is_digit(c: char) -> bool {
    '0' <= c <= '9'
}

pub open spec fn all_digits(s: Seq<char>) -> bool {
    forall|i: int| 0 <= i < s.len() ==> is_digit(#[trigger] s[i])
}

/// The number that a run of decimal digits writes.
pub open spec fn digits_value(s: Seq<char>) -> int
    decreases s.len(),
{
    if s.len() == 0 {
        0
    } else {
        digits_value(s.drop_last()) * 10 + (s.last() as int - '0' as int)
    }
}

pub open spec fn pow10(n: nat) -> int
    decreases n,
{
    if n == 0 {
        1
    } else {
        10 * pow10((n - 1) as nat)
    }
}

/// Whether `s` is a decimal amount whose whole part ends at `k`: one or more
/// digits, then optionally a point and one to eight digits.
pub open spec fn amount_shape(s: Seq<char>, k: int) -> bool {
    &&& 0 < k <= s.len()
    &&& all_digits(s.take(k))
    &&& k < s.len() ==> {
        &&& s[k] == '.'
        &&& 1 <= s.len() - k - 1 <= MAX_FRACTION_DIGITS
        &&& all_digits(s.skip(k + 1))
    }
}

/// The units that an amount of that shape writes.
pub open spec fn amount_units(s: Seq<char>, k: int) -> int {
    digits_value(s.take(k)) * SCALE + if k < s.len() {
        digits_value(s.skip(k + 1)) * pow10((MAX_FRACTION_DIGITS - (s.len() - k - 1)) as nat)
    } else {
        0
    }
}

/// A text has at most one amount shape, so it writes at most one amount.
pub proof fn lemma_amount_shape_unique(s: Seq<char>, k1: int, k2: int)
    requires
        amount_shape(s, k1),
        amount_shape(s, k2),
    ensures
        k1 == k2,
{
    if k1 < k2 {
        assert(s.take(k2)[k1] == s[k1]);
    }
    if k2 < k1 {
        assert(s.take(k1)[k2] == s[k2]);
    }
}

proof fn lemma_digits_step(s: Seq<char>, i: int)
    requires
        0 <= i < s.len(),
    ensures
        digits_value(s.take(i + 1)) == digits_value(s.take(i)) * 10 + (s[i] as int - '0' as int),
{
    assert(s.take(i + 1).drop_last() =~= s.take(i));
}

proof fn lemma_digits_nonneg(s: Seq<char>)
    requires
        all_digits(s),
    ensures
        digits_value(s) >= 0,
    decreases s.len(),
{
    if s.len() > 0 {
        lemma_digits_nonneg(s.drop_last());
    }
}

/// A longer run of leading digits is worth at least as much.
proof fn lemma_digits_prefix_grows(s: Seq<char>, a: int, b: int)
    requires
        0 <= a <= b <= s.len(),
        all_digits(s.take(b)),
    ensures
        digits_value(s.take(b)) >= digits_value(s.take(a)),
    decreases b - a,
{
    if b > a {
        assert(s.take(b - 1) =~= s.take(b).take(b - 1));
        assert(all_digits(s.take(b - 1))) by {
            assert forall|j: int| 0 <= j < b - 1 implies is_digit(#[trigger] s.take(b - 1)[j]) by {
                assert(s.take(b - 1)[j] == s.take(b)[j]);
            }
        }
        lemma_digits_prefix_grows(s, a, b - 1);
        lemma_digits_step(s, b - 1);
        lemma_digits_nonneg(s.take(b - 1));
        assert(is_digit(s.take(b)[b - 1]));
    }
}

proof fn lemma_pow10_add(a: nat, b: nat)
    ensures
        pow10(a + b) == pow10(a) * pow10(b),
    decreases a,
{
    if a > 0 {
        lemma_pow10_add((a - 1) as nat, b);
        assert(pow10(a + b) == 10 * pow10((a - 1 + b) as nat));
        assert(10 * (pow10((a - 1) as nat) * pow10(b)) == (10 * pow10((a - 1) as nat)) * pow10(b)) by (nonlinear_arith);
    }
}

proof fn lemma_pow10_pos(n: nat)
    ensures
        pow10(n) >= 1,
    decreases n,
{
    if n > 0 {
        lemma_pow10_pos((n - 1) as nat);
    }
}

proof fn lemma_pow10_scale()
    ensures
        pow10(MAX_FRACTION_DIGITS as nat) == SCALE,
{
    assert(pow10(0) == 1);
    assert(pow10(1) == 10);
    assert(pow10(2) == 100);
    assert(pow10(3) == 1000);
    assert(pow10(4) == 10000);
    assert(pow10(5) == 100000);
    assert(pow10(6) == 1000000);
    assert(pow10(7) == 10000000);
    assert(pow10(8) == 100000000);
}

/// The fractional part of any amount is non-negative.
proof fn lemma_units_at_least_whole(s: Seq<char>, k: int)
    requires
        amount_shape(s, k),
    ensures
        amount_units(s, k) >= digits_value(s.take(k)) * SCALE,
{
    if k < s.len() {
        lemma_digits_nonneg(s.skip(k + 1));
        lemma_pow10_pos((MAX_FRACTION_DIGITS - (s.len() - k - 1)) as nat);
        let f = digits_value(s.skip(k + 1));
        let p = pow10((MAX_FRACTION_DIGITS - (s.len() - k - 1)) as nat);
        assert(f * p >= 0) by (nonlinear_arith)
            requires f >= 0, p >= 1;
    }
}

/// Where the leading digits of `s` stop at `i`, any amount shape of `s`
/// has its whole part end at `i`.
proof fn lemma_shape_ends_whole(s: Seq<char>, i: int)
    requires
        0 <= i <= s.len(),
        all_digits(s.take(i)),
        i == s.len() || !is_digit(s[i]),
    ensures
        forall|k: int| amount_shape(s, k) ==> k == i,
{
    assert forall|k: int| amount_shape(s, k) implies k == i by {
        if k > i {
            assert(s.take(k)[i] == s[i]);
        }
        if k < i {
            assert(s.take(i)[k] == s[k]);
        }
    }
}

/// Reads a decimal amount such as `12`, `0.5` or `1.5555` into units of
/// `10^-8`. `None` where the text has another shape (a sign, no digit
/// before the point, none or more than eight after it, any other
/// character) or the value does not fit in `u64`.
pub fn parse_amount(s: &str) -> (r: Option<u64>)
    ensures
        match r {
            Some(v) => exists|k: int| amount_shape(s@, k) && amount_units(s@, k) == v,
            None => forall|k: int| amount_shape(s@, k) ==> amount_units(s@, k) > u64::MAX,
        },
{
    let n = s.unicode_len();
    let mut whole: u64 = 0;
    let mut i: usize = 0;
    while i < n
        invariant
            n == s@.len(),
            0 <= i <= n,
            all_digits(s@.take(i as int)),
            whole == digits_value(s@.take(i as int)),
        ensures
            0 <= i <= n,
            all_digits(s@.take(i as int)),
            whole == digits_value(s@.take(i as int)),
            i == n || !is_digit(s@[i as int]),
        decreases n - i,
    {
        let c = s.get_char(i);
        if !('0' <= c && c <= '9') {
            break;
        }
        proof {
            lemma_digits_step(s@, i as int);
            assert(all_digits(s@.take(i + 1))) by {
                assert forall|j: int| 0 <= j < i + 1 implies is_digit(#[trigger] s@.take(i + 1)[j]) by {
                    if j < i {
                        assert(s@.take(i + 1)[j] == s@.take(i as int)[j]);
                    }
                }
            }
        }
        let d = (c as u32 - '0' as u32) as u64;
        if whole > (u64::MAX - d) / 10 {
            proof {
                assert(digits_value(s@.take(i + 1)) > u64::MAX);
                assert forall|k: int| amount_shape(s@, k) implies amount_units(s@, k) > u64::MAX by {
                    if k <= i {
                        assert(s@.take(i + 1)[k] == s@[k]);
                    }
                    lemma_digits_prefix_grows(s@, i + 1, k);
                    lemma_units_at_least_whole(s@, k);
                    let w = digits_value(s@.take(k));
                    assert(w * SCALE >= w) by (nonlinear_arith)
                        requires w >= 0;
                }
            }
            return None;
        }
        whole = whole * 10 + d;
        i += 1;
    }
    proof {
        lemma_shape_ends_whole(s@, i as int);
    }
    if i == 0 {
        return None;
    }
    if whole > u64::MAX / SCALE {
        proof {
            assert(whole * SCALE > u64::MAX) by (nonlinear_arith)
                requires whole > u64::MAX / SCALE, SCALE == 100_000_000;
            if amount_shape(s@, i as int) {
                lemma_units_at_least_whole(s@, i as int);
            }
        }
        return None;
    }
    let units = whole * SCALE;
    if i == n {
        assert(s@.take(n as int) =~= s@);
        assert(amount_shape(s@, i as int));
        return Some(units);
    }
    if s.get_char(i) != '.' || n - i - 1 < 1 || n - i - 1 > MAX_FRACTION_DIGITS {
        return None;
    }
    let start = i + 1;
    let ghost f = s@.skip(start as int);
    let mut frac: u64 = 0;
    let mut j: usize = start;
    let mut step: u64 = SCALE;
    proof {
        lemma_pow10_scale();
        assert(f.take(0) =~= Seq::<char>::empty());
    }
    while j < n
        invariant
            n == s@.len(),
            f == s@.skip(start as int),
            start <= j <= n,
            n - start <= MAX_FRACTION_DIGITS,
            all_digits(f.take(j - start)),
            frac == digits_value(f.take(j - start)),
            frac < pow10((j - start) as nat),
            step == pow10((MAX_FRACTION_DIGITS - (j - start)) as nat),
            pow10(MAX_FRACTION_DIGITS as nat) == SCALE,
            forall|k: int| amount_shape(s@, k) ==> k == i,
            i + 1 == start,
        decreases n - j,
    {
        let c = s.get_char(j);
        assert(f[j - start] == c);
        if !('0' <= c && c <= '9') {
            return None;
        }
        let ghost m = (j - start) as nat;
        proof {
            lemma_digits_step(f, m as int);
            assert(all_digits(f.take(m + 1int))) by {
                assert forall|q: int| 0 <= q < m + 1 implies is_digit(#[trigger] f.take(m + 1int)[q]) by {
                    if q < m {
                        assert(f.take(m + 1int)[q] == f.take(m as int)[q]);
                    }
                }
            }
            lemma_pow10_add(m, (MAX_FRACTION_DIGITS - m) as nat);
            lemma_pow10_pos((MAX_FRACTION_DIGITS - m) as nat);
            let pm = pow10(m);
            let ps = pow10((MAX_FRACTION_DIGITS - m) as nat);
            assert(pm <= SCALE) by (nonlinear_arith)
                requires pm * ps == SCALE, ps >= 1, pm >= 1;
            assert(pow10(m + 1) == 10 * pm);
            assert(ps == 10 * pow10((MAX_FRACTION_DIGITS - m - 1) as nat));
        }
        let d = (c as u32 - '0' as u32) as u64;
        frac = frac * 10 + d;
        step = step / 10;
        j += 1;
    }
    assert(f.take(n - start) =~= f);
    assert(amount_shape(s@, i as int));
    proof {
        lemma_pow10_pos((MAX_FRACTION_DIGITS - (n - start)) as nat);
    }
    let room = u64::MAX - units;
    if frac > room / step {
        proof {
            assert(frac * step > room) by (nonlinear_arith)
                requires frac > room / step, step >= 1;
        }
        return None;
    }
    proof {
        assert(frac * step <= room) by (nonlinear_arith)
            requires frac <= room / step, step >= 1;
    }
    Some(units + frac * step)
}

} // verus!
