//! Rendering of amounts for reports: exactly four decimal places.
use crate::amount::{round4, round_to_precision_4, REPORT_STEP};
use vstd::prelude::*;

verus! {

/// The character of a decimal digit.
pub open spec fn digit_char(d: int) -> char {
    ((48 + d) as u8) as char
}

/// The decimal digits of `n`, most significant first, without leading zeros.
pub open spec fn decimal(n: nat) -> Seq<char>
    decreases n,
{
    if n < 10 {
        seq![digit_char(n as int)]
    } else {
        decimal(n / 10).push(digit_char((n % 10) as int))
    }
}

/// `n` below `10^4` written with exactly four digits.
pub open spec fn four_places(n: nat) -> Seq<char> {
    seq![
        digit_char(((n / 1000) % 10) as int),
        digit_char(((n / 100) % 10) as int),
        digit_char(((n / 10) % 10) as int),
        digit_char((n % 10) as int),
    ]
}

/// A count of `10^-4` steps written as a decimal with four places.
pub open spec fn rendered(steps: int) -> Seq<char> {
    let m = if steps < 0 { -steps } else { steps };
    let sign = if steps < 0 { seq!['-'] } else { Seq::<char>::empty() };
    sign + decimal((m / (REPORT_STEP as int)) as nat) + seq!['.'] + four_places((m % (REPORT_STEP as int)) as nat)
}

fn digit(d: u128) -> (c: char)
    requires
        d < 10,
    ensures
        c == digit_char(d as int),
{
    (48u8 + d as u8) as char
}

fn push_decimal(out: &mut Vec<char>, n: u128)
    ensures
        final(out)@ == old(out)@ + decimal(n as nat),
    decreases n,
{
    if n < 10 {
        out.push(digit(n));
        assert(final(out)@ =~= old(out)@ + decimal(n as nat));
    } else {
        push_decimal(out, n / 10);
        out.push(digit(n % 10));
        assert(final(out)@ =~= old(out)@ + decimal(n as nat));
    }
}

/// Renders an amount of `10^-8` units rounded to four decimal places, as in
/// `-12.3457` or `0.0000`.
pub fn render_amount(units: i128) -> (r: Vec<char>)
    ensures
        r@ == rendered(round4(units as int)),
{
    let steps = round_to_precision_4(units);
    let m: u128 = if steps < 0 {
        (-(steps + 1)) as u128 + 1
    } else {
        steps as u128
    };
    let mut r: Vec<char> = Vec::new();
    if steps < 0 {
        r.push('-');
    }
    push_decimal(&mut r, m / 10_000);
    r.push('.');
    let f = m % 10_000;
    r.push(digit((f / 1000) % 10));
    r.push(digit((f / 100) % 10));
    r.push(digit((f / 10) % 10));
    r.push(digit(f % 10));
    assert(r@ =~= rendered(steps as int));
    r
}

} // verus!
