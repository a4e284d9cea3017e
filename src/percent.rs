use vstd::prelude::*;

verus! {

/// Raised when a percent change is asked for against an entry price of zero.
#[derive(Debug, Clone, Copy, PartialEq, Eq, Structural)]
pub struct DivideByZeroError;

/// Magnitude of the change in hundredths of a percent, rounded half away from
/// zero; used for display only.
pub open spec fn rounded_magnitude(entry: nat, current: nat) -> nat
    recommends
        entry > 0,
{
    let d: nat = if current >= entry { (current - entry) as nat } else { (entry - current) as nat };
    ((d * 20000 + entry) / (2 * entry)) as nat
}

/// The percent change from `entry` to `current` in hundredths of a percent,
/// rounded to the nearest hundredth, ties away from zero.
pub open spec fn percent_hundredths(entry: nat, current: nat) -> int
    recommends
        entry > 0,
{
    if current >= entry {
        rounded_magnitude(entry, current) as int
    } else {
        -(rounded_magnitude(entry, current) as int)
    }
}

/// A percent change held exactly as a fraction: `numerator / denominator`
/// percent.
#[derive(Debug, Clone, Copy, PartialEq, Eq, Structural)]
pub struct PercentChange {
    pub numerator: i128,
    pub denominator: u64,
}

/// Expresses the difference between two prices as a percentage, exactly:
/// `(exit / entry - 1) * 100` is `(exit - entry) * 100 / entry`.
pub fn price_percent(entry_price: u64, exit_price: u64) -> (r: Result<PercentChange, DivideByZeroError>)
    ensures
        entry_price == 0 <==> r is Err,
        r matches Ok(v) ==> v.numerator == (exit_price - entry_price) * 100 && v.denominator == entry_price,
        r matches Ok(v) ==> (exit_price > entry_price ==> v.numerator > 0) && (exit_price < entry_price
            ==> v.numerator < 0) && (exit_price == entry_price ==> v.numerator == 0),
{
    if entry_price == 0 {
        return Err(DivideByZeroError);
    }
    let n: i128 = (exit_price as i128 - entry_price as i128) * 100;
    Ok(PercentChange { numerator: n, denominator: entry_price })
}

/// The change from `entry_price` to `exit_price` in hundredths of a percent,
/// rounded to the nearest hundredth with ties away from zero, for display
/// (`10000` is `100.00%`).
pub fn rounded_hundredths(entry_price: u64, exit_price: u64) -> (r: i128)
    requires
        entry_price > 0,
    ensures
        r == percent_hundredths(entry_price as nat, exit_price as nat),
{
    let e: u128 = entry_price as u128;
    let d: u128 = if exit_price >= entry_price {
        (exit_price - entry_price) as u128
    } else {
        (entry_price - exit_price) as u128
    };
    assert(d * 20000 + e <= u64::MAX as u128 * 20001) by (nonlinear_arith)
        requires d <= u64::MAX, e <= u64::MAX;
    let m: u128 = (d * 20000 + e) / (2 * e);
    assert(m <= d * 20000 + e) by (nonlinear_arith) requires e >= 1, m == (d * 20000 + e) / (2 * e);
    if exit_price >= entry_price {
        m as i128
    } else {
        -(m as i128)
    }
}

/// A price that has not moved is shown as a change of zero.
pub proof fn lemma_no_change(x: nat)
    requires
        x > 0,
    ensures
        percent_hundredths(x, x) == 0,
{
    assert((0nat * 20000 + x) / (2 * x) == 0) by (nonlinear_arith)
        requires x > 0;
}

/// The displayed change is `(current / entry - 1) * 100` to within half a
/// hundredth of a percent: `|2 * (p * entry - (current - entry) * 10000)| <= entry`.
pub proof fn lemma_percent_is_nearest(entry: nat, current: nat)
    requires
        entry > 0,
    ensures
        ({
            let err = percent_hundredths(entry, current) * entry - (current - entry) * 10000;
            -(entry as int) <= 2 * err <= entry
        }),
{
    let d: nat = if current >= entry { (current - entry) as nat } else { (entry - current) as nat };
    let m = rounded_magnitude(entry, current);
    let n: int = (d * 20000 + entry) as int;
    assert(m == n / (2 * entry as int));
    assert(2 * entry * m <= n < 2 * entry * m + 2 * entry) by (nonlinear_arith)
        requires
            entry > 0,
            m == n / (2 * entry as int),
    ;
    if current >= entry {
        assert(percent_hundredths(entry, current) == m);
        assert(percent_hundredths(entry, current) * entry == m * entry) by (nonlinear_arith)
            requires percent_hundredths(entry, current) == m;
    } else {
        assert(percent_hundredths(entry, current) == -m);
        assert(percent_hundredths(entry, current) * entry == -(m * entry)) by (nonlinear_arith)
            requires percent_hundredths(entry, current) == -m;
    }
    assert(2 * entry * m == 2 * (m * entry)) by (nonlinear_arith);
}

} // verus!
