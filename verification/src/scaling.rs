//! The scaling resolver: what factor a reference's requested quantity
//! applies to the referenced recipe, given that recipe's declared
//! servings or yield.
use vstd::prelude::*;

use crate::error::{AggError, MetadataField};
use crate::quantity::{AmountModel, Quantity, QuantityModel};
use crate::rational::{frac_div, frac_fits, Rational};

verus! {

/// A recipe's declared total output: an amount with its unit.
#[derive(Debug)]
pub struct YieldDecl {
    pub amount: Rational,
    pub unit: String,
}

/// The scaling-relevant metadata of a parsed recipe.
#[derive(Debug)]
pub struct RecipeMeta {
    pub servings: Option<u32>,
    pub declared_yield: Option<YieldDecl>,
}

/// Model of the scaling-relevant metadata.
pub struct MetaModel {
    pub servings: Option<u32>,
    pub declared_yield: Option<((int, int), Seq<char>)>,
}

impl View for RecipeMeta {
    type V = MetaModel;

    open spec fn view(&self) -> MetaModel {
        MetaModel {
            servings: self.servings,
            declared_yield: match self.declared_yield {
                Some(ref y) => Some((y.amount.frac(), y.unit@)),
                None => None,
            },
        }
    }
}

impl RecipeMeta {
    pub open spec fn wf(self) -> bool {
        match self.declared_yield {
            Some(y) => y.amount.wf(),
            None => true,
        }
    }
}

/// What the resolver decides, in the mathematical model.
pub enum ResolvedModel {
    Scale((int, int)),
    Missing(MetadataField),
    Mismatch { requested: Seq<char>, declared: Seq<char> },
}

/// The scale factor a requested quantity resolves to against declared
/// metadata. A bare number is a direct multiplier; a number in the
/// servings keyword divides by declared servings; a number in any
/// other unit divides by the declared yield amount, whose unit must
/// match exactly. A request without a numeric amount counts as 1.
/// Declared servings or yield of zero cannot scale and count as
/// missing.
pub open spec fn spec_resolve(
    requested: Option<QuantityModel>,
    meta: MetaModel,
    keywords: Seq<Seq<char>>,
) -> ResolvedModel {
    match requested {
        None => ResolvedModel::Scale((1int, 1int)),
        Some(q) => {
            let n: (int, int) = match q.amount {
                AmountModel::Num(x) => x,
                _ => (1int, 1int),
            };
            match q.unit {
                None => match q.amount {
                    AmountModel::Num(x) => ResolvedModel::Scale(x),
                    _ => ResolvedModel::Scale((1int, 1int)),
                },
                Some(u) => {
                    if keywords.contains(u) {
                        match meta.servings {
                            Some(sv) => if sv > 0 {
                                ResolvedModel::Scale((n.0, n.1 * sv))
                            } else {
                                ResolvedModel::Missing(MetadataField::Servings)
                            },
                            None => ResolvedModel::Missing(MetadataField::Servings),
                        }
                    } else {
                        match meta.declared_yield {
                            Some((ya, yu)) => if yu != u {
                                ResolvedModel::Mismatch { requested: u, declared: yu }
                            } else if ya.0 == 0 {
                                ResolvedModel::Missing(MetadataField::Yield)
                            } else {
                                ResolvedModel::Scale(frac_div(n, ya))
                            },
                            None => ResolvedModel::Missing(MetadataField::Yield),
                        }
                    }
                },
            }
        },
    }
}

fn keyword_match(keywords: &Vec<String>, u: &String) -> (r: bool)
    ensures
        r == keywords@.map_values(|k: String| k@).contains(u@),
{
    let n: usize = keywords.len();
    let mut i: usize = 0;
    while i < n
        invariant
            0 <= i <= n,
            n == keywords@.len(),
            forall|j: int| 0 <= j < i ==> (#[trigger] keywords@[j])@ != u@,
        decreases n - i,
    {
        if *u == keywords[i] {
            assert(keywords@.map_values(|k: String| k@)[i as int] == u@);
            return true;
        }
        i = i + 1;
    }
    proof {
        let mapped = keywords@.map_values(|k: String| k@);
        if mapped.contains(u@) {
            let j = choose|j: int| 0 <= j < mapped.len() && mapped[j] == u@;
            assert(mapped[j] == keywords@[j]@);
            assert(false);
        }
    }
    false
}

/// Resolve the scale factor for one reference. `recipe` names the
/// referenced recipe for error reporting. Fails with the model's
/// missing-metadata or unit-mismatch outcome exactly when the model
/// says so, and with `Overflow` exactly when the model's factor is not
/// a machine rational.
pub fn resolve_scale(
    requested: &Option<Quantity>,
    meta: &RecipeMeta,
    recipe: &String,
    keywords: &Vec<String>,
) -> (r: Result<Rational, AggError>)
    requires
        match requested {
            Some(q) => q.wf(),
            None => true,
        },
        meta.wf(),
    ensures
        ({
            let rv = spec_resolve(
                match requested {
                    Some(q) => Some(q@),
                    None => None,
                },
                meta@,
                keywords@.map_values(|k: String| k@),
            );
            match r {
                Ok(s) => s.wf() && (rv matches ResolvedModel::Scale(p) && s.frac() == p
                    && frac_fits(p)),
                Err(e) => match e {
                    AggError::Overflow => (rv matches ResolvedModel::Scale(p) && !frac_fits(p)),
                    AggError::MissingScalingMetadata { recipe: rc, field, chain: ch } => rv
                        == ResolvedModel::Missing(field) && rc@ == recipe@ && ch@.len() == 0,
                    AggError::UnitMismatch {
                        recipe: rc,
                        requested: rq,
                        declared: dc,
                        chain: ch,
                    } => rv == (ResolvedModel::Mismatch { requested: rq@, declared: dc@ }) && rc@
                        == recipe@ && ch@.len() == 0,
                    _ => false,
                },
            }
        }),
{
    let one = Rational::one();
    let q = match requested {
        None => {
            return Ok(one);
        },
        Some(q) => q,
    };
    let n: Rational = match &q.amount {
        crate::quantity::Amount::Number(x) => *x,
        _ => one,
    };
    let u = match &q.unit {
        None => {
            if n.num == i64::MIN {
                return Err(AggError::Overflow);
            }
            return Ok(n);
        },
        Some(u) => u,
    };
    if keyword_match(keywords, u) {
        match meta.servings {
            Some(sv) => {
                if sv > 0 {
                    match n.den.checked_mul(sv as i64) {
                        Some(d) => {
                            proof {
                                assert(d >= 1) by (nonlinear_arith)
                                    requires
                                        d == n.den * sv,
                                        n.den >= 1,
                                        sv >= 1,
                                ;
                            }
                            if n.num == i64::MIN {
                                Err(AggError::Overflow)
                            } else {
                                Ok(Rational::new(n.num, d))
                            }
                        },
                        None => {
                            proof {
                                assert(n.den * sv > i64::MAX) by (nonlinear_arith)
                                    requires
                                        n.den >= 1,
                                        sv >= 1,
                                        !(i64::MIN <= n.den * sv <= i64::MAX),
                                ;
                            }
                            Err(AggError::Overflow)
                        },
                    }
                } else {
                    Err(
                        AggError::MissingScalingMetadata {
                            recipe: recipe.clone(),
                            field: MetadataField::Servings,
                            chain: Vec::new(),
                        },
                    )
                }
            },
            None => Err(
                AggError::MissingScalingMetadata {
                    recipe: recipe.clone(),
                    field: MetadataField::Servings,
                    chain: Vec::new(),
                },
            ),
        }
    } else {
        match &meta.declared_yield {
            Some(y) => {
                if !(*u == y.unit) {
                    Err(
                        AggError::UnitMismatch {
                            recipe: recipe.clone(),
                            requested: u.clone(),
                            declared: y.unit.clone(),
                            chain: Vec::new(),
                        },
                    )
                } else if y.amount.num == 0 {
                    Err(
                        AggError::MissingScalingMetadata {
                            recipe: recipe.clone(),
                            field: MetadataField::Yield,
                            chain: Vec::new(),
                        },
                    )
                } else {
                    match n.div(y.amount) {
                        Some(s) => Ok(s),
                        None => Err(AggError::Overflow),
                    }
                }
            },
            None => Err(
                AggError::MissingScalingMetadata {
                    recipe: recipe.clone(),
                    field: MetadataField::Yield,
                    chain: Vec::new(),
                },
            ),
        }
    }
}

} // verus!
