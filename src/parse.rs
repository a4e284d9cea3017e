use vstd::prelude::*;
use vstd::string::StrSliceExecFns;
use crate::config::first_index;

verus! {

/// Number of decimal places a price in ticks carries: one tick is `10^-8`.
pub const PRICE_DECIMALS: usize = 8;

/// Raised when a trade message's price is not a decimal number that fits.
#[derive(Debug, Clone, Copy, PartialEq, Eq, Structural)]
pub struct MalformedMessageError;

/// `c` is an ASCII decimal digit.
pub open spec fn is_digit(c: char) -> bool {
    '0' <= c && c <= '9'
}

/// The value of a decimal digit; zero for any other character.
pub open spec fn digit_value(c: char) -> nat {
    if is_digit(c) {
        (c as u32 - 48) as nat
    } else {
        0
    }
}

/// The number that a run of decimal digits spells.
pub open spec fn value_of(s: Seq<char>) -> nat
    decreases s.len(),
{
    if s.len() == 0 {
        0
    } else {
        value_of(s.drop_last()) * 10 + digit_value(s.last())
    }
}

/// The digits before the point.
pub open spec fn whole_part(s: Seq<char>) -> Seq<char> {
    s.take(first_index(s, '.') as int)
}

/// The digits after the point; empty when there is no point.
pub open spec fn fraction_part(s: Seq<char>) -> Seq<char> {
    let u = first_index(s, '.');
    if u < s.len() {
        s.skip(u + 1 as int)
    } else {
        Seq::empty()
    }
}

/// The places of the fraction that a tick can hold.
pub open spec fn kept_fraction(s: Seq<char>) -> Seq<char> {
    let f = fraction_part(s);
    if f.len() <= PRICE_DECIMALS {
        f
    } else {
        f.take(PRICE_DECIMALS as int)
    }
}

/// The digits of the price in ticks: the whole part, the kept fraction, then
/// zeros up to the full number of decimal places.
pub open spec fn tick_digits(s: Seq<char>) -> Seq<char> {
    whole_part(s) + kept_fraction(s) + Seq::new(
        (PRICE_DECIMALS - kept_fraction(s).len()) as nat,
        |i: int| '0',
    )
}

/// A price is one or more digits, then optionally a point and more digits,
/// of which any past [`PRICE_DECIMALS`] places are zeros.
pub open spec fn well_formed(s: Seq<char>) -> bool {
    &&& whole_part(s).len() > 0
    &&& forall|i: int| 0 <= i < whole_part(s).len() ==> is_digit(#[trigger] whole_part(s)[i])
    &&& forall|i: int| 0 <= i < fraction_part(s).len() ==> is_digit(#[trigger] fraction_part(s)[i])
    &&& forall|i: int|
        PRICE_DECIMALS <= i < fraction_part(s).len() ==> #[trigger] fraction_part(s)[i] == '0'
}

proof fn lemma_value_monotone(s: Seq<char>, k: int)
    requires
        0 <= k <= s.len(),
    ensures
        value_of(s.take(k)) <= value_of(s),
    decreases s.len(),
{
    if k < s.len() {
        assert(s.drop_last().take(k) =~= s.take(k));
        lemma_value_monotone(s.drop_last(), k);
    } else {
        assert(s.take(k) =~= s);
    }
}

fn first_point(s: &str) -> (r: usize)
    ensures
        r == first_index(s@, '.'),
        r <= s@.len(),
{
    let n = s.unicode_len();
    let mut i: usize = 0;
    while i < n
        invariant
            0 <= i <= n,
            n == s@.len(),
            forall|j: int| 0 <= j < i ==> s@[j] != '.',
        decreases n - i,
    {
        if s.get_char(i) == '.' {
            proof {
                crate::config::lemma_first_index(s@, '.', i as int);
            }
            return i;
        }
        i = i + 1;
    }
    proof {
        crate::config::lemma_first_index(s@, '.', n as int);
    }
    n
}

/// Reads a trade price such as `"20000.12"` as a whole number of ticks.
/// Fails when the text is not [`well_formed`] or the price does not fit a `u64`.
pub fn parse_price(s: &str) -> (r: Result<u64, MalformedMessageError>)
    ensures
        r is Ok <==> well_formed(s@) && value_of(tick_digits(s@)) <= u64::MAX,
        r matches Ok(v) ==> v == value_of(tick_digits(s@)),
{
    let n = s.unicode_len();
    let u = first_point(s);
    if u == 0 {
        return Err(MalformedMessageError);
    }
    let full_len: usize = if u < n { n - u - 1 } else { 0 };
    let frac_len: usize = if full_len > PRICE_DECIMALS { PRICE_DECIMALS } else { full_len };
    let ghost f = fraction_part(s@);
    assert(f.len() == full_len);
    let mut t: usize = PRICE_DECIMALS;
    while t < full_len
        invariant
            PRICE_DECIMALS <= t,
            full_len == f.len(),
            f == fraction_part(s@),
            u == first_index(s@, '.'),
            u <= n,
            n == s@.len(),
            full_len > 0 ==> u < n && full_len == n - u - 1,
            forall|x: int| PRICE_DECIMALS <= x < t ==> #[trigger] f[x] == '0',
        decreases full_len - t,
    {
        let c = s.get_char(u + 1 + t);
        assert(c == f[t as int]);
        if c != '0' {
            return Err(MalformedMessageError);
        }
        t = t + 1;
    }
    let ghost d = tick_digits(s@);
    let ghost w = whole_part(s@);
    let ghost k = kept_fraction(s@);
    let total: u128 = u as u128 + PRICE_DECIMALS as u128;
    assert(d.len() == total);
    assert(k.len() == frac_len);
    let mut acc: u128 = 0;
    let mut j: u128 = 0;
    while j < total
        invariant
            0 <= j <= total,
            total == d.len(),
            total == u + PRICE_DECIMALS,
            d == tick_digits(s@),
            w == whole_part(s@),
            k == kept_fraction(s@),
            f == fraction_part(s@),
            w.len() == u,
            k.len() == frac_len,
            u == first_index(s@, '.'),
            u + frac_len <= n,
            n == s@.len(),
            frac_len <= PRICE_DECIMALS,
            frac_len <= f.len(),
            acc == value_of(d.take(j as int)),
            acc <= u64::MAX,
            forall|x: int| 0 <= x < j ==> is_digit(#[trigger] d[x]),
        decreases total - j,
    {
        let c: char = if j < u as u128 {
            s.get_char(j as usize)
        } else if j - (u as u128) < frac_len as u128 {
            s.get_char((j + 1) as usize)
        } else {
            '0'
        };
        assert(c == d[j as int]);
        if !('0' <= c && c <= '9') {
            proof {
                if j < u {
                    assert(w[j as int] == c);
                } else {
                    assert(f[j as int - u] == c);
                }
            }
            return Err(MalformedMessageError);
        }
        proof {
            assert(d.take(j as int + 1).drop_last() =~= d.take(j as int));
        }
        acc = acc * 10 + (c as u32 - 48) as u128;
        if acc > u64::MAX as u128 {
            proof {
                lemma_value_monotone(d, j as int + 1);
            }
            return Err(MalformedMessageError);
        }
        j = j + 1;
    }
    proof {
        assert(d.take(j as int) =~= d);
        assert forall|x: int| 0 <= x < w.len() implies is_digit(#[trigger] w[x]) by {
            assert(w[x] == d[x]);
        }
        assert forall|x: int| 0 <= x < f.len() implies is_digit(#[trigger] f[x]) by {
            if x < frac_len {
                assert(f[x] == d[u + x]);
            } else {
                assert(f[x] == '0');
            }
        }
    }
    Ok(acc as u64)
}

} // verus!
