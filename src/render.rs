use vstd::prelude::*;
use crate::percent::{DivideByZeroError, PercentChange, percent_hundredths, price_percent, rounded_hundredths};
use crate::store::Entry;
use crate::text::{decimal, digit_char, push_char, push_decimal};

verus! {

/// How a percent change is shown: gaining, losing, or flat.
#[derive(Debug, Clone, Copy, PartialEq, Eq, Structural)]
pub enum Tone {
    Positive,
    Negative,
    Neutral,
}

/// A piece of text with the tone it is shown in.
#[derive(Debug, Clone)]
pub struct Tinted {
    pub text: String,
    pub tone: Tone,
}

/// One instrument on the dashboard: its key, its percent change as text, and
/// the tone of that change.
#[derive(Debug, Clone)]
pub struct Cell {
    pub symbol: String,
    pub percent: String,
    pub tone: Tone,
}

/// Positive above a hundredth of a percent, negative below minus one
/// hundredth, else neutral; judged on the exact change.
pub open spec fn tone_of(change: PercentChange) -> Tone {
    if change.numerator * 100 > change.denominator {
        Tone::Positive
    } else if change.numerator * 100 < -(change.denominator as int) {
        Tone::Negative
    } else {
        Tone::Neutral
    }
}

/// A change in hundredths of a percent as text: a sign, the whole percent,
/// a point, two digits and a percent sign (`+5.00%`, `-0.25%`).
pub open spec fn percent_text(v: int) -> Seq<char> {
    let m: nat = if v < 0 { (-v) as nat } else { v as nat };
    let frac: nat = m % 100;
    seq![if v < 0 { '-' } else { '+' }] + decimal(m / 100) + seq!['.', digit_char(frac / 10),
        digit_char(frac % 10), '%']
}

/// Tags `string` with the tone that the exact change `number` calls for.
pub fn positive_negative(number: PercentChange, string: String) -> (r: Tinted)
    requires
        number.numerator * 100 <= i128::MAX,
        number.numerator * 100 >= i128::MIN,
    ensures
        r.text@ == string@,
        r.tone == tone_of(number),
{
    let scaled: i128 = number.numerator * 100;
    let tone = if scaled > number.denominator as i128 {
        Tone::Positive
    } else if scaled < -(number.denominator as i128) {
        Tone::Negative
    } else {
        Tone::Neutral
    };
    Tinted { text: string, tone }
}

/// Writes a change given in hundredths of a percent as text.
pub fn format_percent(v: i128) -> (r: String)
    ensures
        r@ == percent_text(v as int),
{
    let m: u128 = if v < 0 { ((-(v + 1)) as u128) + 1 } else { v as u128 };
    let mut out = String::new();
    push_char(&mut out, if v < 0 { '-' } else { '+' });
    push_decimal(&mut out, m / 100);
    push_char(&mut out, '.');
    let frac: u128 = m % 100;
    push_char(&mut out, (48u8 + (frac / 10) as u8) as char);
    push_char(&mut out, (48u8 + (frac % 10) as u8) as char);
    push_char(&mut out, '%');
    assert(out@ =~= percent_text(v as int));
    out
}

/// The dashboard cell of `e`, or the error when its entry price is zero.
pub fn render_cell(e: &Entry) -> (r: Result<Cell, DivideByZeroError>)
    ensures
        r is Err <==> e.state.entry_price == 0,
        r matches Ok(c) ==> cell_shows(c, *e),
{
    match price_percent(e.state.entry_price, e.state.current_price) {
        Err(z) => Err(z),
        Ok(p) => {
            let h = rounded_hundredths(e.state.entry_price, e.state.current_price);
            let t = positive_negative(p, format_percent(h));
            Ok(Cell { symbol: e.symbol.clone(), percent: t.text, tone: t.tone })
        },
    }
}

/// `c` shows the key of `e` with the percent change from its entry to its
/// current price, as text rounded to hundredths, in the tone of the exact change.
pub open spec fn cell_shows(c: Cell, e: Entry) -> bool {
    let p = percent_hundredths(e.state.entry_price as nat, e.state.current_price as nat);
    let exact = PercentChange {
        numerator: ((e.state.current_price - e.state.entry_price) * 100) as i128,
        denominator: e.state.entry_price,
    };
    &&& c.symbol@ == e.symbol@
    &&& c.percent@ == percent_text(p)
    &&& c.tone == tone_of(exact)
}

/// The dashboard cells of `snapshot`, in its order. Fails when any instrument
/// has an entry price of zero.
pub fn render(snapshot: &Vec<Entry>) -> (r: Result<Vec<Cell>, DivideByZeroError>)
    ensures
        r is Err <==> exists|i: int| 0 <= i < snapshot@.len() && (#[trigger] snapshot@[i]).state.entry_price == 0,
        r matches Ok(cells) ==> cells@.len() == snapshot@.len() && forall|i: int|
            0 <= i < cells@.len() ==> cell_shows(#[trigger] cells@[i], snapshot@[i]),
{
    let mut cells: Vec<Cell> = Vec::new();
    let mut i: usize = 0;
    while i < snapshot.len()
        invariant
            0 <= i <= snapshot@.len(),
            cells@.len() == i,
            forall|j: int| 0 <= j < i ==> snapshot@[j].state.entry_price != 0,
            forall|j: int| 0 <= j < i ==> cell_shows(#[trigger] cells@[j], snapshot@[j]),
        decreases snapshot@.len() - i,
    {
        match render_cell(&snapshot[i]) {
            Err(z) => {
                return Err(z);
            },
            Ok(c) => {
                cells.push(c);
            },
        }
        i = i + 1;
    }
    Ok(cells)
}

} // verus!
