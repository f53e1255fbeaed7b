//! Rendering quantities for reports: exact rationals as integers or
//! terminating decimals, quantities as "amount unit", grouped
//! quantities comma-joined, and list items as "name: quantities".
use vstd::prelude::*;

use crate::grouped::GroupedQuantity;
use crate::ingredient_list::IngredientListItem;
use crate::quantity::{Amount, Quantity};
use crate::rational::Rational;
use crate::text::push_char;

verus! {

/// The decimal digit character for one digit value.
pub open spec fn digit_char(d: int) -> char {
    if d == 0 {
        '0'
    } else if d == 1 {
        '1'
    } else if d == 2 {
        '2'
    } else if d == 3 {
        '3'
    } else if d == 4 {
        '4'
    } else if d == 5 {
        '5'
    } else if d == 6 {
        '6'
    } else if d == 7 {
        '7'
    } else if d == 8 {
        '8'
    } else {
        '9'
    }
}

/// The decimal digits of a non-negative number.
pub open spec fn spec_digits(n: int) -> Seq<char>
    decreases n,
{
    if n < 10 {
        seq![digit_char(n)]
    } else {
        spec_digits(n / 10).push(digit_char(n % 10))
    }
}

fn digit_char_exec(d: u64) -> (r: char)
    requires
        d <= 9,
    ensures
        r == digit_char(d as int),
{
    if d == 0 {
        '0'
    } else if d == 1 {
        '1'
    } else if d == 2 {
        '2'
    } else if d == 3 {
        '3'
    } else if d == 4 {
        '4'
    } else if d == 5 {
        '5'
    } else if d == 6 {
        '6'
    } else if d == 7 {
        '7'
    } else if d == 8 {
        '8'
    } else {
        '9'
    }
}

/// Write a non-negative number in decimal.
pub fn format_u64(n: u64) -> (r: String)
    ensures
        r@ == spec_digits(n as int),
    decreases n,
{
    if n < 10 {
        let mut s = String::new();
        push_char(&mut s, digit_char_exec(n));
        proof {
            assert(s@ =~= seq![digit_char(n as int)]);
        }
        s
    } else {
        let mut s = format_u64(n / 10);
        push_char(&mut s, digit_char_exec(n % 10));
        s
    }
}

/// The decimal digits after the point for a remainder `r` over `den`,
/// within `fuel` digits; nothing if the expansion does not terminate
/// in that many digits.
pub open spec fn frac_digits(r: int, den: int, fuel: nat) -> Option<Seq<char>>
    decreases fuel,
{
    if r == 0 {
        Some(Seq::empty())
    } else if fuel == 0 {
        None
    } else {
        let r10 = r * 10;
        match frac_digits(r10 % den, den, (fuel - 1) as nat) {
            Some(t) => Some(seq![digit_char(r10 / den)] + t),
            None => None,
        }
    }
}

/// At most this many digits are written after the decimal point.
pub open spec fn render_fuel() -> nat {
    12
}

/// How an exact non-negative fraction renders: a plain integer when
/// the division is exact, a terminating decimal of at most
/// `render_fuel` digits, or "num/den" when the expansion does not
/// terminate.
pub open spec fn spec_render_nonneg(num: int, den: int) -> Seq<char> {
    if num % den == 0 {
        spec_digits(num / den)
    } else {
        match frac_digits(num % den, den, render_fuel()) {
            Some(ds) => spec_digits(num / den) + seq!['.'] + ds,
            None => spec_digits(num) + seq!['/'] + spec_digits(den),
        }
    }
}

/// How an exact rational renders: the non-negative rendering with a
/// leading minus for negative values.
pub open spec fn spec_render_rational(p: (int, int)) -> Seq<char> {
    if p.0 < 0 {
        seq!['-'] + spec_render_nonneg(-p.0, p.1)
    } else {
        spec_render_nonneg(p.0, p.1)
    }
}

fn frac_digits_exec(r0: u64, den: u64, fuel: u64) -> (out: Option<String>)
    requires
        1 <= den,
        r0 < den,
    ensures
        ({
            match out {
                Some(s) => frac_digits(r0 as int, den as int, fuel as nat) == Some(s@),
                None => frac_digits(r0 as int, den as int, fuel as nat) is None,
            }
        }),
    decreases fuel,
{
    if r0 == 0 {
        let s = String::new();
        proof {
            assert(s@ =~= Seq::<char>::empty());
        }
        Some(s)
    } else if fuel == 0 {
        None
    } else {
        let r10: u128 = (r0 as u128) * 10;
        let d: u64 = (r10 / (den as u128)) as u64;
        let rem: u64 = (r10 % (den as u128)) as u64;
        proof {
            assert(r10 == r0 * 10);
            assert(r0 * 10 < den * 10) by (nonlinear_arith)
                requires
                    r0 < den,
            ;
            assert(r10 / (den as u128) <= 9) by (nonlinear_arith)
                requires
                    r10 < den * 10,
                    den >= 1,
                    r10 >= 0,
            ;
            assert(r10 % (den as u128) < den as u128) by (nonlinear_arith)
                requires
                    den >= 1,
            ;
            assert(d == (r10 as int) / (den as int));
            assert(rem == (r10 as int) % (den as int));
        }
        match frac_digits_exec(rem, den, fuel - 1) {
            Some(t) => {
                let mut s = String::new();
                push_char(&mut s, digit_char_exec(d));
                s.append(t.as_str());
                proof {
                    assert(s@ =~= seq![digit_char(d as int)] + t@);
                }
                Some(s)
            },
            None => None,
        }
    }
}

/// Render an exact rational: "400", "2.5", "-1.25", or "8/6" when the
/// decimal does not terminate.
pub fn render_rational(x: Rational) -> (r: String)
    requires
        x.wf(),
    ensures
        r@ == spec_render_rational(x.frac()),
{
    let neg = x.num < 0;
    let a: u64 = if x.num < 0 {
        if x.num == i64::MIN {
            9223372036854775808u64
        } else {
            (-x.num) as u64
        }
    } else {
        x.num as u64
    };
    let den: u64 = x.den as u64;
    proof {
        if neg {
            assert(a == -(x.num as int));
        } else {
            assert(a == x.num as int);
        }
    }
    let q: u64 = a / den;
    let rem: u64 = a % den;
    let mut out = String::new();
    if neg {
        push_char(&mut out, '-');
    }
    if rem == 0 {
        out.append(format_u64(q).as_str());
        proof {
            if neg {
                assert(out@ =~= seq!['-'] + spec_digits(a as int / den as int));
            } else {
                assert(out@ =~= spec_digits(a as int / den as int));
            }
        }
        out
    } else {
        match frac_digits_exec(rem, den, 12) {
            Some(ds) => {
                out.append(format_u64(q).as_str());
                push_char(&mut out, '.');
                out.append(ds.as_str());
                proof {
                    let body = spec_digits(a as int / den as int) + seq!['.'] + ds@;
                    if neg {
                        assert(out@ =~= seq!['-'] + body);
                    } else {
                        assert(out@ =~= body);
                    }
                }
                out
            },
            None => {
                out.append(format_u64(a).as_str());
                push_char(&mut out, '/');
                out.append(format_u64(den).as_str());
                proof {
                    let body = spec_digits(a as int) + seq!['/'] + spec_digits(den as int);
                    if neg {
                        assert(out@ =~= seq!['-'] + body);
                    } else {
                        assert(out@ =~= body);
                    }
                }
                out
            },
        }
    }
}

/// How an amount renders: the number, "start-end" for a range, or the
/// text itself.
pub open spec fn spec_render_amount(a: crate::quantity::AmountModel) -> Seq<char> {
    match a {
        crate::quantity::AmountModel::Num(p) => spec_render_rational(p),
        crate::quantity::AmountModel::Rng(lo, hi) => spec_render_rational(lo) + seq!['-']
            + spec_render_rational(hi),
        crate::quantity::AmountModel::Txt(t) => t,
    }
}

/// How a quantity renders: its amount, then a space and the unit when
/// one is declared.
pub open spec fn spec_render_quantity(q: crate::quantity::QuantityModel) -> Seq<char> {
    match q.unit {
        Some(u) => spec_render_amount(q.amount) + seq![' '] + u,
        None => spec_render_amount(q.amount),
    }
}

/// Render one quantity, as the model says.
pub fn render_quantity(q: &Quantity) -> (r: String)
    requires
        q.wf(),
    ensures
        r@ == spec_render_quantity(q@),
{
    let mut out: String = match &q.amount {
        Amount::Number(x) => render_rational(*x),
        Amount::Range(lo, hi) => {
            let mut s = render_rational(*lo);
            push_char(&mut s, '-');
            s.append(render_rational(*hi).as_str());
            s
        },
        Amount::Text(t) => t.clone(),
    };
    match &q.unit {
        Some(u) => {
            push_char(&mut out, ' ');
            out.append(u.as_str());
        },
        None => {},
    }
    out
}

/// How a group renders: its quantities comma-joined.
pub open spec fn spec_render_grouped(qs: Seq<crate::quantity::QuantityModel>) -> Seq<char>
    decreases qs.len(),
{
    if qs.len() == 0 {
        Seq::empty()
    } else if qs.len() == 1 {
        spec_render_quantity(qs[0])
    } else {
        spec_render_grouped(qs.drop_last()) + seq![',', ' '] + spec_render_quantity(qs.last())
    }
}

/// Render a grouped quantity comma-joined, as the model says:
/// "6 large, 4".
pub fn render_grouped(g: &GroupedQuantity) -> (r: String)
    requires
        g.wf(),
    ensures
        r@ == spec_render_grouped(g@),
{
    let qs = g.quantities();
    let n: usize = qs.len();
    let mut out = String::new();
    let mut i: usize = 0;
    proof {
        assert(g@.take(0) =~= Seq::<crate::quantity::QuantityModel>::empty());
    }
    while i < n
        invariant
            0 <= i <= n,
            n == qs@.len(),
            qs@.map_values(|q: Quantity| q@) == g@,
            forall|j: int| 0 <= j < qs@.len() ==> (#[trigger] qs@[j]).wf(),
            out@ == spec_render_grouped(g@.take(i as int)),
        decreases n - i,
    {
        if i > 0 {
            push_char(&mut out, ',');
            push_char(&mut out, ' ');
        }
        let piece = render_quantity(&qs[i]);
        out.append(piece.as_str());
        proof {
            assert(g@.take(i + 1).drop_last() =~= g@.take(i as int));
            assert(g@.take(i + 1).last() == g@[i as int]);
            assert(g@[i as int] == qs@[i as int]@);
        }
        i = i + 1;
    }
    proof {
        assert(g@.take(n as int) =~= g@);
    }
    out
}

impl IngredientListItem {
    /// The formatted quantities of this entry.
    pub fn quantities_str(&self) -> (r: String)
        requires
            self.wf(),
        ensures
            r@ == spec_render_grouped(self@.quantities),
    {
        render_grouped(&self.quantities)
    }

    /// "name: quantities", or the bare name when no quantity was ever
    /// stated.
    pub fn display_string(&self) -> (r: String)
        requires
            self.wf(),
        ensures
            self@.quantities.len() == 0 ==> r@ == self@.name,
            self@.quantities.len() > 0 ==> r@ == self@.name + seq![':', ' ']
                + spec_render_grouped(self@.quantities),
    {
        if self.quantities.is_empty() {
            self.name.clone()
        } else {
            let mut out = self.name.clone();
            push_char(&mut out, ':');
            push_char(&mut out, ' ');
            out.append(self.quantities_str().as_str());
            out
        }
    }
}

} // verus!
