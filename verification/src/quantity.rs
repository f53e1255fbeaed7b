//! The quantity model: an amount (number, range or free text) with an
//! optional unit, plus unit-aware merging and exact scaling.
use vstd::prelude::*;

use crate::rational::{frac_add, frac_add_fits, frac_mul, frac_mul_fits, Rational};

verus! {

/// Mathematical model of an amount: exact fractions or free text.
pub enum AmountModel {
    Num((int, int)),
    Rng((int, int), (int, int)),
    Txt(Seq<char>),
}

/// Mathematical model of a quantity.
pub struct QuantityModel {
    pub amount: AmountModel,
    pub unit: Option<Seq<char>>,
}

/// An amount: a plain number, a two-ended range, or free text such as
/// "a pinch" when no number is parseable.
#[derive(Debug)]
pub enum Amount {
    Number(Rational),
    Range(Rational, Rational),
    Text(String),
}

/// A single quantity: an amount with an optional unit.
#[derive(Debug)]
pub struct Quantity {
    pub amount: Amount,
    pub unit: Option<String>,
}

impl Clone for Amount {
    fn clone(&self) -> (r: Self)
        ensures
            r == *self,
    {
        match self {
            Amount::Number(x) => Amount::Number(*x),
            Amount::Range(lo, hi) => Amount::Range(*lo, *hi),
            Amount::Text(t) => Amount::Text(t.clone()),
        }
    }
}

impl Clone for Quantity {
    fn clone(&self) -> (r: Self)
        ensures
            r == *self,
    {
        Quantity {
            amount: self.amount.clone(),
            unit: match &self.unit {
                Some(u) => Some(u.clone()),
                None => None,
            },
        }
    }
}

impl View for Amount {
    type V = AmountModel;

    open spec fn view(&self) -> AmountModel {
        match self {
            Amount::Number(r) => AmountModel::Num(r.frac()),
            Amount::Range(s, e) => AmountModel::Rng(s.frac(), e.frac()),
            Amount::Text(t) => AmountModel::Txt(t@),
        }
    }
}

impl View for Quantity {
    type V = QuantityModel;

    open spec fn view(&self) -> QuantityModel {
        QuantityModel {
            amount: self.amount@,
            unit: match self.unit {
                Some(ref u) => Some(u@),
                None => None,
            },
        }
    }
}

impl Amount {
    /// Well-formed: every fraction in the amount has a positive denominator.
    pub open spec fn wf(self) -> bool {
        match self {
            Amount::Number(r) => r.wf(),
            Amount::Range(s, e) => s.wf() && e.wf(),
            Amount::Text(_) => true,
        }
    }

    /// Free-text amounts carry no number to merge or scale.
    pub open spec fn is_text(self) -> bool {
        self is Text
    }
}

impl Quantity {
    pub open spec fn wf(self) -> bool {
        self.amount.wf()
    }
}

/// Two quantities are unit-compatible: units equal (or both absent) and
/// neither amount is free text.
pub open spec fn compatible(a: QuantityModel, b: QuantityModel) -> bool {
    &&& a.unit == b.unit
    &&& !(a.amount is Txt)
    &&& !(b.amount is Txt)
}

/// The merged amount of two unit-compatible amounts: numbers sum, and a
/// range absorbs a number on both ends.
pub open spec fn amount_add(a: AmountModel, b: AmountModel) -> AmountModel {
    match (a, b) {
        (AmountModel::Num(x), AmountModel::Num(y)) => AmountModel::Num(frac_add(x, y)),
        (AmountModel::Num(x), AmountModel::Rng(s, e)) => AmountModel::Rng(
            frac_add(x, s),
            frac_add(x, e),
        ),
        (AmountModel::Rng(s, e), AmountModel::Num(y)) => AmountModel::Rng(
            frac_add(s, y),
            frac_add(e, y),
        ),
        (AmountModel::Rng(s1, e1), AmountModel::Rng(s2, e2)) => AmountModel::Rng(
            frac_add(s1, s2),
            frac_add(e1, e2),
        ),
        _ => a,
    }
}

/// An amount scaled by a factor: numbers and ranges multiply, free text
/// is left as it stands.
pub open spec fn amount_scale(a: AmountModel, s: (int, int)) -> AmountModel {
    match a {
        AmountModel::Num(x) => AmountModel::Num(frac_mul(x, s)),
        AmountModel::Rng(lo, hi) => AmountModel::Rng(frac_mul(lo, s), frac_mul(hi, s)),
        AmountModel::Txt(t) => AmountModel::Txt(t),
    }
}

/// The merged amount of two unit-compatible amounts stays within
/// machine bounds.
pub open spec fn amount_add_fits(a: AmountModel, b: AmountModel) -> bool {
    match (a, b) {
        (AmountModel::Num(x), AmountModel::Num(y)) => frac_add_fits(x, y),
        (AmountModel::Num(x), AmountModel::Rng(s, e)) => frac_add_fits(x, s) && frac_add_fits(
            x,
            e,
        ),
        (AmountModel::Rng(s, e), AmountModel::Num(y)) => frac_add_fits(s, y) && frac_add_fits(
            e,
            y,
        ),
        (AmountModel::Rng(s1, e1), AmountModel::Rng(s2, e2)) => frac_add_fits(s1, s2)
            && frac_add_fits(e1, e2),
        _ => true,
    }
}

/// A scaled amount stays within machine bounds.
pub open spec fn amount_scale_fits(a: AmountModel, s: (int, int)) -> bool {
    match a {
        AmountModel::Num(x) => frac_mul_fits(x, s),
        AmountModel::Rng(lo, hi) => frac_mul_fits(lo, s) && frac_mul_fits(hi, s),
        AmountModel::Txt(_) => true,
    }
}

/// The outcome of merging two quantities.
pub enum MergeOutcome {
    /// Units compatible; the summed quantity.
    Merged(Quantity),
    /// Units differ, or one side is free text: the two stay separate.
    Unmergeable,
    /// The exact sum left the machine's integer range.
    Overflow,
}

fn unit_matches(a: &Option<String>, b: &Option<String>) -> (r: bool)
    ensures
        r == ((match a {
            Some(u) => Some(u@),
            None => None,
        }) == (match b {
            Some(u) => Some(u@),
            None => None,
        })),
{
    match (a, b) {
        (None, None) => true,
        (Some(x), Some(y)) => *x == *y,
        _ => false,
    }
}

fn rat_add_opt(a: Rational, b: Rational) -> (r: Option<Rational>)
    requires
        a.wf(),
        b.wf(),
    ensures
        r is Some <==> frac_add_fits(a.frac(), b.frac()),
        r matches Some(s) ==> s.wf() && s.frac() == frac_add(a.frac(), b.frac()),
{
    a.add(b)
}

/// Merge two quantities: the exact sum when they are unit-compatible,
/// `Unmergeable` when they are not, `Overflow` when the sum cannot be
/// represented.
pub fn merge(a: &Quantity, b: &Quantity) -> (r: MergeOutcome)
    requires
        a.wf(),
        b.wf(),
    ensures
        r is Unmergeable <==> !compatible(a@, b@),
        r is Overflow <==> compatible(a@, b@) && !amount_add_fits(a@.amount, b@.amount),
        r matches MergeOutcome::Merged(q) ==> q.wf() && q@ == (QuantityModel {
            amount: amount_add(a@.amount, b@.amount),
            unit: a@.unit,
        }),
{
    if !unit_matches(&a.unit, &b.unit) {
        return MergeOutcome::Unmergeable;
    }
    let merged: Option<Amount> = match (&a.amount, &b.amount) {
        (Amount::Text(_), _) => {
            return MergeOutcome::Unmergeable;
        },
        (_, Amount::Text(_)) => {
            return MergeOutcome::Unmergeable;
        },
        (Amount::Number(x), Amount::Number(y)) => match rat_add_opt(*x, *y) {
            Some(s) => Some(Amount::Number(s)),
            None => None,
        },
        (Amount::Number(x), Amount::Range(s, e)) => match (rat_add_opt(*x, *s), rat_add_opt(
            *x,
            *e,
        )) {
            (Some(lo), Some(hi)) => Some(Amount::Range(lo, hi)),
            _ => None,
        },
        (Amount::Range(s, e), Amount::Number(y)) => match (rat_add_opt(*s, *y), rat_add_opt(
            *e,
            *y,
        )) {
            (Some(lo), Some(hi)) => Some(Amount::Range(lo, hi)),
            _ => None,
        },
        (Amount::Range(s1, e1), Amount::Range(s2, e2)) => match (rat_add_opt(*s1, *s2),
        rat_add_opt(*e1, *e2)) {
            (Some(lo), Some(hi)) => Some(Amount::Range(lo, hi)),
            _ => None,
        },
    };
    match merged {
        Some(amount) => MergeOutcome::Merged(
            Quantity {
                amount,
                unit: match &a.unit {
                    Some(u) => Some(u.clone()),
                    None => None,
                },
            },
        ),
        None => MergeOutcome::Overflow,
    }
}

/// Scale a quantity by an exact factor; free text is left unscaled.
/// `None` exactly when a product leaves the machine's integer range.
pub fn scale_quantity(q: &Quantity, s: Rational) -> (r: Option<Quantity>)
    requires
        q.wf(),
        s.wf(),
    ensures
        r is Some <==> amount_scale_fits(q@.amount, s.frac()),
        r matches Some(q2) ==> q2.wf() && q2@ == (QuantityModel {
            amount: amount_scale(q@.amount, s.frac()),
            unit: q@.unit,
        }),
        q@.amount is Txt ==> (r matches Some(q2) && q2@ == q@),
{
    let amount: Option<Amount> = match &q.amount {
        Amount::Number(x) => match x.mul(s) {
            Some(p) => Some(Amount::Number(p)),
            None => None,
        },
        Amount::Range(lo, hi) => match (lo.mul(s), hi.mul(s)) {
            (Some(l2), Some(h2)) => Some(Amount::Range(l2, h2)),
            _ => None,
        },
        Amount::Text(t) => Some(Amount::Text(t.clone())),
    };
    match amount {
        Some(amount) => Some(
            Quantity {
                amount,
                unit: match &q.unit {
                    Some(u) => Some(u.clone()),
                    None => None,
                },
            },
        ),
        None => None,
    }
}

/// Merging unit-compatible quantities is commutative: the summed amount
/// is the same pair for pair whichever side comes first.
pub proof fn lemma_amount_add_comm(a: AmountModel, b: AmountModel)
    requires
        !(a is Txt),
        !(b is Txt),
    ensures
        amount_add(a, b) == amount_add(b, a),
{
    match (a, b) {
        (AmountModel::Num(x), AmountModel::Num(y)) => {
            crate::rational::lemma_frac_add_comm(x, y);
        },
        (AmountModel::Num(x), AmountModel::Rng(s, e)) => {
            crate::rational::lemma_frac_add_comm(x, s);
            crate::rational::lemma_frac_add_comm(x, e);
        },
        (AmountModel::Rng(s, e), AmountModel::Num(y)) => {
            crate::rational::lemma_frac_add_comm(s, y);
            crate::rational::lemma_frac_add_comm(e, y);
        },
        (AmountModel::Rng(s1, e1), AmountModel::Rng(s2, e2)) => {
            crate::rational::lemma_frac_add_comm(s1, s2);
            crate::rational::lemma_frac_add_comm(e1, e2);
        },
        _ => {},
    }
}

/// Merging unit-compatible quantities is associative.
pub proof fn lemma_amount_add_assoc(a: AmountModel, b: AmountModel, c: AmountModel)
    requires
        !(a is Txt),
        !(b is Txt),
        !(c is Txt),
    ensures
        amount_add(amount_add(a, b), c) == amount_add(a, amount_add(b, c)),
{
    match (a, b, c) {
        (AmountModel::Num(x), AmountModel::Num(y), AmountModel::Num(z)) => {
            crate::rational::lemma_frac_add_assoc(x, y, z);
        },
        (AmountModel::Num(x), AmountModel::Num(y), AmountModel::Rng(s, e)) => {
            crate::rational::lemma_frac_add_assoc(x, y, s);
            crate::rational::lemma_frac_add_assoc(x, y, e);
        },
        (AmountModel::Num(x), AmountModel::Rng(s, e), AmountModel::Num(z)) => {
            crate::rational::lemma_frac_add_assoc(x, s, z);
            crate::rational::lemma_frac_add_assoc(x, e, z);
        },
        (AmountModel::Num(x), AmountModel::Rng(s1, e1), AmountModel::Rng(s2, e2)) => {
            crate::rational::lemma_frac_add_assoc(x, s1, s2);
            crate::rational::lemma_frac_add_assoc(x, e1, e2);
        },
        (AmountModel::Rng(s, e), AmountModel::Num(y), AmountModel::Num(z)) => {
            crate::rational::lemma_frac_add_assoc(s, y, z);
            crate::rational::lemma_frac_add_assoc(e, y, z);
        },
        (AmountModel::Rng(s1, e1), AmountModel::Num(y), AmountModel::Rng(s2, e2)) => {
            crate::rational::lemma_frac_add_assoc(s1, y, s2);
            crate::rational::lemma_frac_add_assoc(e1, y, e2);
        },
        (AmountModel::Rng(s1, e1), AmountModel::Rng(s2, e2), AmountModel::Num(z)) => {
            crate::rational::lemma_frac_add_assoc(s1, s2, z);
            crate::rational::lemma_frac_add_assoc(e1, e2, z);
        },
        (AmountModel::Rng(s1, e1), AmountModel::Rng(s2, e2), AmountModel::Rng(s3, e3)) => {
            crate::rational::lemma_frac_add_assoc(s1, s2, s3);
            crate::rational::lemma_frac_add_assoc(e1, e2, e3);
        },
        _ => {},
    }
}

/// Scaling by the identity factor leaves an amount exactly as it
/// stands — so with reference expansion disabled, where every frame
/// keeps the identity scale, a recorded quantity is the bare requested
/// quantity, unscaled by any recipe metadata.
pub proof fn lemma_scale_one(a: AmountModel)
    ensures
        amount_scale(a, (1int, 1int)) == a,
{
    match a {
        AmountModel::Num(x) => {
            assert(frac_mul(x, (1int, 1int)) == x);
        },
        AmountModel::Rng(lo, hi) => {
            assert(frac_mul(lo, (1int, 1int)) == lo);
            assert(frac_mul(hi, (1int, 1int)) == hi);
        },
        AmountModel::Txt(_) => {},
    }
}

/// Scaling by `s1` and then by `s2` gives the same amount, pair for
/// pair, as scaling once by the product `s1 * s2`.
pub proof fn lemma_scale_compose(a: AmountModel, s1: (int, int), s2: (int, int))
    ensures
        amount_scale(amount_scale(a, s1), s2) == amount_scale(a, frac_mul(s1, s2)),
{
    match a {
        AmountModel::Num(x) => {
            crate::rational::lemma_frac_mul_assoc(x, s1, s2);
        },
        AmountModel::Rng(lo, hi) => {
            crate::rational::lemma_frac_mul_assoc(lo, s1, s2);
            crate::rational::lemma_frac_mul_assoc(hi, s1, s2);
        },
        AmountModel::Txt(_) => {},
    }
}

} // verus!
