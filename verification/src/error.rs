//! Errors of the aggregation engine. Every failure is fatal to the
//! aggregation call that raised it; the variants carry enough context
//! to diagnose a failure that happened deep in a reference chain, and
//! `message` spells that context out for the top-level caller.
use vstd::prelude::*;

verus! {

/// The scaling basis a reference asked for.
#[derive(Debug, Clone, Copy, PartialEq, Eq, Structural)]
pub enum MetadataField {
    Servings,
    Yield,
}

/// An error during ingredient aggregation.
#[derive(Debug)]
pub enum AggError {
    /// A referenced recipe could not be located under any base path.
    /// `chain` is the whole resolving chain at failure time, the failing
    /// path last.
    NotFound { path: String, referrer: Option<String>, chain: Vec<String> },
    /// A referenced recipe failed to parse; carries every parse error
    /// and the resolving chain.
    ParseFailure { path: String, errors: Vec<String>, referrer: Option<String>, chain: Vec<String> },
    /// A servings- or yield-based target was requested but the recipe
    /// declares no usable value for it.
    MissingScalingMetadata { recipe: String, field: MetadataField, chain: Vec<String> },
    /// A yield-based target named a unit other than the declared one.
    UnitMismatch { recipe: String, requested: String, declared: String, chain: Vec<String> },
    /// A reference path came up again while still being resolved; the
    /// chain runs from the top-level recipe down to the repeat.
    CircularDependency { chain: Vec<String>, repeated: String },
    /// A structurally invalid ingredient record reached the engine.
    MalformedIngredient { detail: String },
    /// An exact quantity left the machine's integer range.
    Overflow,
}

/// Model of an aggregation error.
pub enum ErrModel {
    NotFound { path: Seq<char>, referrer: Option<Seq<char>>, chain: Seq<Seq<char>> },
    ParseFailure {
        path: Seq<char>,
        errors: Seq<Seq<char>>,
        referrer: Option<Seq<char>>,
        chain: Seq<Seq<char>>,
    },
    MissingScalingMetadata { recipe: Seq<char>, field: MetadataField, chain: Seq<Seq<char>> },
    UnitMismatch {
        recipe: Seq<char>,
        requested: Seq<char>,
        declared: Seq<char>,
        chain: Seq<Seq<char>>,
    },
    CircularDependency { chain: Seq<Seq<char>>, repeated: Seq<char> },
    MalformedIngredient { detail: Seq<char> },
    Overflow,
}

impl View for AggError {
    type V = ErrModel;

    open spec fn view(&self) -> ErrModel {
        match self {
            AggError::NotFound { path, referrer, chain } => ErrModel::NotFound {
                path: path@,
                referrer: match referrer {
                    Some(r) => Some(r@),
                    None => None,
                },
                chain: chain@.map_values(|p: String| p@),
            },
            AggError::ParseFailure { path, errors, referrer, chain } => ErrModel::ParseFailure {
                path: path@,
                errors: errors@.map_values(|e: String| e@),
                referrer: match referrer {
                    Some(r) => Some(r@),
                    None => None,
                },
                chain: chain@.map_values(|p: String| p@),
            },
            AggError::MissingScalingMetadata { recipe, field, chain } => {
                ErrModel::MissingScalingMetadata {
                    recipe: recipe@,
                    field: *field,
                    chain: chain@.map_values(|p: String| p@),
                }
            },
            AggError::UnitMismatch { recipe, requested, declared, chain } => ErrModel::UnitMismatch {
                recipe: recipe@,
                requested: requested@,
                declared: declared@,
                chain: chain@.map_values(|p: String| p@),
            },
            AggError::CircularDependency { chain, repeated } => ErrModel::CircularDependency {
                chain: chain@.map_values(|p: String| p@),
                repeated: repeated@,
            },
            AggError::MalformedIngredient { detail } => ErrModel::MalformedIngredient {
                detail: detail@,
            },
            AggError::Overflow => ErrModel::Overflow,
        }
    }
}

/// The resolving chain joined with " -> ".
pub open spec fn spec_join_arrow(paths: Seq<Seq<char>>) -> Seq<char>
    decreases paths.len(),
{
    if paths.len() == 0 {
        Seq::empty()
    } else if paths.len() == 1 {
        paths[0]
    } else {
        spec_join_arrow(paths.drop_last()) + " -> "@ + paths.last()
    }
}

/// Parse errors, one per line, each indented behind a dash.
pub open spec fn spec_error_lines(errors: Seq<Seq<char>>) -> Seq<char>
    decreases errors.len(),
{
    if errors.len() == 0 {
        Seq::empty()
    } else {
        spec_error_lines(errors.drop_last()) + "\n  - "@ + errors.last()
    }
}

/// The words the metadata field is named by.
pub open spec fn spec_field_name(field: MetadataField) -> Seq<char> {
    match field {
        MetadataField::Servings => "servings"@,
        MetadataField::Yield => "yield"@,
    }
}

/// The resolving chain spelled out behind a deep failure; a chain of
/// one entry is the failing reference itself and adds nothing.
pub open spec fn spec_chain_suffix(chain: Seq<Seq<char>>) -> Seq<char> {
    if chain.len() <= 1 {
        Seq::empty()
    } else {
        "\n  (resolving chain: "@ + spec_join_arrow(chain) + ")"@
    }
}

/// The full diagnostic text of an error: what failed, in which recipe,
/// from where it was referenced, and the whole causal chain of
/// references down to the failure; a cycle carries its chain in
/// traversal order.
pub open spec fn spec_message(e: ErrModel) -> Seq<char> {
    match e {
        ErrModel::NotFound { path, referrer, chain } => (match referrer {
            Some(r) => "Recipe '"@ + path + "' (referenced from '"@ + r + "') was not found"@,
            None => "Recipe '"@ + path + "' was not found"@,
        }) + spec_chain_suffix(chain),
        ErrModel::ParseFailure { path, errors, referrer, chain } => {
            let head = "Failed to parse recipe '"@ + path + "':"@ + spec_error_lines(errors);
            (match referrer {
                Some(r) => head + "\n  (referenced from '"@ + r + "')"@,
                None => head,
            }) + spec_chain_suffix(chain)
        },
        ErrModel::MissingScalingMetadata { recipe, field, chain } => "Failed to scale recipe '"@
            + recipe + "': no usable '"@ + spec_field_name(field) + "' metadata"@
            + spec_chain_suffix(chain),
        ErrModel::UnitMismatch { recipe, requested, declared, chain } => "Failed to scale recipe '"@
            + recipe + "': requested unit '"@ + requested + "' does not match declared yield unit '"@
            + declared + "'"@ + spec_chain_suffix(chain),
        ErrModel::CircularDependency { chain, repeated: _ } => "Circular dependency found: "@
            + spec_join_arrow(chain),
        ErrModel::MalformedIngredient { detail } => "Malformed ingredient: "@ + detail,
        ErrModel::Overflow => "Quantity arithmetic left the machine's integer range"@,
    }
}

proof fn lemma_join_arrow_step(paths: Seq<Seq<char>>, i: int)
    requires
        0 <= i < paths.len(),
    ensures
        i == 0 ==> spec_join_arrow(paths.take(i + 1)) =~= paths[0],
        i > 0 ==> spec_join_arrow(paths.take(i + 1)) =~= spec_join_arrow(paths.take(i)) + " -> "@
            + paths[i],
{
    if i == 0 {
        assert(paths.take(1).len() == 1);
        assert(paths.take(1)[0] == paths[0]);
    } else {
        assert(paths.take(i + 1).drop_last() =~= paths.take(i));
        assert(paths.take(i + 1).last() == paths[i]);
    }
}

proof fn lemma_error_lines_step(errors: Seq<Seq<char>>, i: int)
    requires
        0 <= i < errors.len(),
    ensures
        spec_error_lines(errors.take(i + 1)) =~= spec_error_lines(errors.take(i)) + "\n  - "@
            + errors[i],
{
    assert(errors.take(i + 1).drop_last() =~= errors.take(i));
    assert(errors.take(i + 1).last() == errors[i]);
}

fn join_arrow(paths: &Vec<String>) -> (r: String)
    ensures
        r@ == spec_join_arrow(paths@.map_values(|p: String| p@)),
{
    let ghost mapped = paths@.map_values(|p: String| p@);
    let n: usize = paths.len();
    let mut r = String::new();
    let mut i: usize = 0;
    proof {
        assert(r@ =~= spec_join_arrow(mapped.take(0)));
    }
    while i < n
        invariant
            0 <= i <= n,
            n == paths@.len(),
            mapped == paths@.map_values(|p: String| p@),
            r@ == spec_join_arrow(mapped.take(i as int)),
        decreases n - i,
    {
        if i > 0 {
            r.append(" -> ");
        }
        r.append(paths[i].as_str());
        proof {
            lemma_join_arrow_step(mapped, i as int);
            assert(mapped[i as int] == paths@[i as int]@);
        }
        i = i + 1;
    }
    proof {
        assert(mapped.take(n as int) =~= mapped);
    }
    r
}

fn error_lines(errors: &Vec<String>) -> (r: String)
    ensures
        r@ == spec_error_lines(errors@.map_values(|e: String| e@)),
{
    let ghost mapped = errors@.map_values(|e: String| e@);
    let n: usize = errors.len();
    let mut r = String::new();
    let mut i: usize = 0;
    proof {
        assert(r@ =~= spec_error_lines(mapped.take(0)));
    }
    while i < n
        invariant
            0 <= i <= n,
            n == errors@.len(),
            mapped == errors@.map_values(|e: String| e@),
            r@ == spec_error_lines(mapped.take(i as int)),
        decreases n - i,
    {
        r.append("\n  - ");
        r.append(errors[i].as_str());
        proof {
            lemma_error_lines_step(mapped, i as int);
            assert(mapped[i as int] == errors@[i as int]@);
        }
        i = i + 1;
    }
    proof {
        assert(mapped.take(n as int) =~= mapped);
    }
    r
}

fn append_chain_suffix(r: &mut String, chain: &Vec<String>)
    ensures
        final(r)@ == old(r)@ + spec_chain_suffix(chain@.map_values(|p: String| p@)),
{
    if chain.len() > 1 {
        r.append("\n  (resolving chain: ");
        r.append(join_arrow(chain).as_str());
        r.append(")");
    } else {
        proof {
            assert(old(r)@ + spec_chain_suffix(chain@.map_values(|p: String| p@)) =~= old(r)@);
        }
    }
}

impl AggError {
    /// Render the full diagnostic text, exactly as the message model
    /// says.
    pub fn message(&self) -> (r: String)
        ensures
            r@ == spec_message(self@),
    {
        match self {
            AggError::NotFound { path, referrer, chain } => {
                let mut r = String::new();
                r.append("Recipe '");
                r.append(path.as_str());
                match referrer {
                    Some(from) => {
                        r.append("' (referenced from '");
                        r.append(from.as_str());
                        r.append("') was not found");
                    },
                    None => {
                        r.append("' was not found");
                    },
                }
                append_chain_suffix(&mut r, chain);
                assert(r@ =~= spec_message(self@));
                r
            },
            AggError::ParseFailure { path, errors, referrer, chain } => {
                let mut r = String::new();
                r.append("Failed to parse recipe '");
                r.append(path.as_str());
                r.append("':");
                r.append(error_lines(errors).as_str());
                match referrer {
                    Some(from) => {
                        r.append("\n  (referenced from '");
                        r.append(from.as_str());
                        r.append("')");
                    },
                    None => {},
                }
                append_chain_suffix(&mut r, chain);
                assert(r@ =~= spec_message(self@));
                r
            },
            AggError::MissingScalingMetadata { recipe, field, chain } => {
                let mut r = String::new();
                r.append("Failed to scale recipe '");
                r.append(recipe.as_str());
                r.append("': no usable '");
                match field {
                    MetadataField::Servings => r.append("servings"),
                    MetadataField::Yield => r.append("yield"),
                }
                r.append("' metadata");
                append_chain_suffix(&mut r, chain);
                assert(r@ =~= spec_message(self@));
                r
            },
            AggError::UnitMismatch { recipe, requested, declared, chain } => {
                let mut r = String::new();
                r.append("Failed to scale recipe '");
                r.append(recipe.as_str());
                r.append("': requested unit '");
                r.append(requested.as_str());
                r.append("' does not match declared yield unit '");
                r.append(declared.as_str());
                r.append("'");
                append_chain_suffix(&mut r, chain);
                assert(r@ =~= spec_message(self@));
                r
            },
            AggError::CircularDependency { chain, repeated: _ } => {
                let mut r = String::new();
                r.append("Circular dependency found: ");
                r.append(join_arrow(chain).as_str());
                assert(r@ =~= spec_message(self@));
                r
            },
            AggError::MalformedIngredient { detail } => {
                let mut r = String::new();
                r.append("Malformed ingredient: ");
                r.append(detail.as_str());
                assert(r@ =~= spec_message(self@));
                r
            },
            AggError::Overflow => {
                let mut r = String::new();
                r.append("Quantity arithmetic left the machine's integer range");
                assert(r@ =~= spec_message(self@));
                r
            },
        }
    }
}

} // verus!
