//! The reference expansion engine: a state machine that walks an
//! ingredient list depth first, merging plain ingredients into the
//! accumulator and pausing whenever a referenced recipe has to be
//! loaded. The caller performs the load — the only outside work — and
//! hands the parsed recipe back; every decision in between is made
//! here. A set of in-progress reference paths, threaded through the
//! recursion, detects cycles.
use vstd::prelude::*;

use crate::error::{AggError, ErrModel};
use crate::ingredient_list::{
    acc_add, acc_add_fits, all_merged, distinct_names, EntryModel, IngredientList,
};
use crate::quantity::{amount_scale, amount_scale_fits, Quantity, QuantityModel};
use crate::rational::{frac_fits, frac_mul, frac_mul_fits, Rational};
use crate::scaling::{resolve_scale, spec_resolve, MetaModel, RecipeMeta, ResolvedModel};

verus! {

/// One ingredient record, as validated recipe data hands it over:
/// either a plain foodstuff or a reference to another recipe.
#[derive(Debug)]
pub struct Ingredient {
    pub name: String,
    pub alias: Option<String>,
    pub quantity: Option<Quantity>,
    pub reference: bool,
    pub reference_path: Option<String>,
}

/// Model of one ingredient record.
pub struct IngredientModel {
    pub name: Seq<char>,
    pub alias: Option<Seq<char>>,
    pub quantity: Option<QuantityModel>,
    pub reference: bool,
    pub reference_path: Option<Seq<char>>,
}

impl View for Ingredient {
    type V = IngredientModel;

    open spec fn view(&self) -> IngredientModel {
        IngredientModel {
            name: self.name@,
            alias: match self.alias {
                Some(ref a) => Some(a@),
                None => None,
            },
            quantity: match self.quantity {
                Some(ref q) => Some(q@),
                None => None,
            },
            reference: self.reference,
            reference_path: match self.reference_path {
                Some(ref p) => Some(p@),
                None => None,
            },
        }
    }
}

impl Ingredient {
    pub open spec fn wf(self) -> bool {
        match self.quantity {
            Some(q) => q.wf(),
            None => true,
        }
    }
}

/// The display name an ingredient is recorded under: its alias when
/// declared, otherwise its name.
pub open spec fn display_name(it: IngredientModel) -> Seq<char> {
    match it.alias {
        Some(a) => a,
        None => it.name,
    }
}

/// A reference path with one leading slash removed.
pub open spec fn spec_normalize(p: Seq<char>) -> Seq<char> {
    if p.len() > 0 && p[0] == '/' {
        p.skip(1)
    } else {
        p
    }
}

/// The path a reference ingredient resolves through: its declared
/// reference path, normalized, or its plain name.
pub open spec fn ref_path_of(it: IngredientModel) -> Seq<char> {
    match it.reference_path {
        Some(p) => spec_normalize(p),
        None => it.name,
    }
}

/// Strip one leading slash from a reference path.
pub fn normalize_path(path: &String) -> (r: String)
    ensures
        r@ == spec_normalize(path@),
{
    let len: usize = path.as_str().unicode_len();
    if len > 0 && path.as_str().get_char(0) == '/' {
        let rest = path.as_str().substring_char(1, len);
        String::from_str(rest)
    } else {
        path.clone()
    }
}

/// Validate one raw ingredient record at the boundary where external
/// recipe data enters the engine. The name is required — a reference
/// or ingredient without one is structurally malformed — and the
/// quantity's value text is read as a number, a range or free text.
pub fn validate_ingredient(
    name: Option<String>,
    alias: Option<String>,
    quantity_value: Option<String>,
    quantity_unit: Option<String>,
    reference: bool,
    reference_path: Option<String>,
) -> (r: Result<Ingredient, AggError>)
    ensures
        r is Ok <==> name is Some,
        r matches Ok(it) ==> it.wf() && (name matches Some(n) && it@.name == n@) && it@.alias
            == (match alias {
            Some(a) => Some(a@),
            None => None,
        }) && it@.reference == reference && it@.reference_path == (match reference_path {
            Some(p) => Some(p@),
            None => None,
        }) && (quantity_value is None ==> it@.quantity is None) && (quantity_value matches Some(v)
            ==> (it@.quantity matches Some(qm) && (qm.amount
            == crate::numeric::spec_quantity_value(v@) || (!crate::numeric::value_fits(v@)
            && qm.amount == crate::quantity::AmountModel::Txt(v@))) && qm.unit == (match quantity_unit {
            Some(u) => Some(u@),
            None => None,
        }))),
        r matches Err(e) ==> e is MalformedIngredient,
{
    let name = match name {
        Some(n) => n,
        None => {
            let mut detail = String::new();
            detail.append("ingredient record without a name");
            return Err(AggError::MalformedIngredient { detail });
        },
    };
    let quantity = match quantity_value {
        Some(v) => Some(crate::numeric::quantity_from_text(v.as_str(), quantity_unit)),
        None => None,
    };
    Ok(Ingredient { name, alias, quantity, reference, reference_path })
}

/// A recipe as the loader hands it back: its ingredient records and
/// its scaling-relevant metadata.
#[derive(Debug)]
pub struct LoadedRecipe {
    pub ingredients: Vec<Ingredient>,
    pub meta: RecipeMeta,
}

/// Model of a loaded recipe.
pub struct LoadedModel {
    pub ingredients: Seq<IngredientModel>,
    pub meta: MetaModel,
}

impl View for LoadedRecipe {
    type V = LoadedModel;

    open spec fn view(&self) -> LoadedModel {
        LoadedModel {
            ingredients: self.ingredients@.map_values(|it: Ingredient| it@),
            meta: self.meta@,
        }
    }
}

impl LoadedRecipe {
    pub open spec fn wf(self) -> bool {
        &&& forall|i: int| 0 <= i < self.ingredients@.len() ==> (#[trigger] self.ingredients@[i]).wf()
        &&& self.meta.wf()
    }
}

/// Why the loader could not produce a recipe.
#[derive(Debug)]
pub enum LoadError {
    /// No file for the path under any base path.
    NotFound,
    /// The file's text failed to parse; every parse error, not just the
    /// first.
    ParseFailure(Vec<String>),
}

/// Model of a load failure.
pub enum LoadErrModel {
    NotFound,
    ParseFailure(Seq<Seq<char>>),
}

impl View for LoadError {
    type V = LoadErrModel;

    open spec fn view(&self) -> LoadErrModel {
        match self {
            LoadError::NotFound => LoadErrModel::NotFound,
            LoadError::ParseFailure(errs) => LoadErrModel::ParseFailure(
                errs@.map_values(|e: String| e@),
            ),
        }
    }
}

/// One traversal frame: an ingredient list part-way processed at some
/// accumulated scale.
#[derive(Debug)]
pub struct Frame {
    pub items: Vec<Ingredient>,
    pub pos: usize,
    pub scale: Rational,
    pub path: Option<String>,
}

/// Model of one traversal frame.
pub struct FrameModel {
    pub items: Seq<IngredientModel>,
    pub pos: int,
    pub scale: (int, int),
    pub path: Option<Seq<char>>,
}

impl View for Frame {
    type V = FrameModel;

    open spec fn view(&self) -> FrameModel {
        FrameModel {
            items: self.items@.map_values(|it: Ingredient| it@),
            pos: self.pos as int,
            scale: self.scale.frac(),
            path: match self.path {
                Some(ref p) => Some(p@),
                None => None,
            },
        }
    }
}

impl Frame {
    pub open spec fn wf(self) -> bool {
        &&& self.pos <= self.items@.len()
        &&& self.scale.wf()
        &&& forall|i: int| 0 <= i < self.items@.len() ==> (#[trigger] self.items@[i]).wf()
    }
}

/// A reference waiting for its recipe to be loaded.
#[derive(Debug)]
pub struct Pending {
    pub path: String,
    pub requested: Option<Quantity>,
    pub parent: Rational,
    pub referrer: Option<String>,
}

/// Model of a pending reference.
pub struct PendingModel {
    pub path: Seq<char>,
    pub requested: Option<QuantityModel>,
    pub parent: (int, int),
    pub referrer: Option<Seq<char>>,
}

impl View for Pending {
    type V = PendingModel;

    open spec fn view(&self) -> PendingModel {
        PendingModel {
            path: self.path@,
            requested: match self.requested {
                Some(ref q) => Some(q@),
                None => None,
            },
            parent: self.parent.frac(),
            referrer: match self.referrer {
                Some(ref p) => Some(p@),
                None => None,
            },
        }
    }
}

/// Model of the whole engine state.
pub struct EngineModel {
    pub expand: bool,
    pub keywords: Seq<Seq<char>>,
    pub acc: Seq<EntryModel>,
    pub frames: Seq<FrameModel>,
    pub resolving: Seq<Seq<char>>,
    pub pending: Option<PendingModel>,
}

/// What one engine run step ends in.
pub enum StepModel {
    /// The recipe at this path must be loaded before anything more can
    /// happen.
    Need(Seq<char>),
    /// Every frame is exhausted; the accumulator holds the result.
    Finished,
    /// A fatal error; the traversal is abandoned.
    Failed(ErrModel),
}

/// Ingredients not yet processed, over all frames.
pub open spec fn rem(frames: Seq<FrameModel>) -> nat
    decreases frames.len(),
{
    if frames.len() == 0 {
        0
    } else {
        rem(frames.drop_last()) + if frames.last().pos <= frames.last().items.len() {
            (frames.last().items.len() - frames.last().pos) as nat
        } else {
            0
        }
    }
}

proof fn lemma_rem_update_last(frames: Seq<FrameModel>, f2: FrameModel)
    requires
        frames.len() > 0,
    ensures
        rem(frames.update(frames.len() - 1, f2)) == rem(frames.drop_last()) + if f2.pos
            <= f2.items.len() {
            (f2.items.len() - f2.pos) as nat
        } else {
            0
        },
{
    let u = frames.update(frames.len() - 1, f2);
    assert(u.last() == f2);
    assert(u.drop_last() =~= frames.drop_last());
}

/// The state after the engine runs until it needs a load, finishes, or
/// fails. Plain ingredients are scaled by the frame's factor and merged
/// under their display name — an exact value that leaves the machine's
/// integer range fails the run with `Overflow`, the state untouched;
/// exhausted frames pop, releasing their reference path; a reference
/// whose path is already being resolved fails with the full chain; any
/// other reference pauses the run.
pub open spec fn spec_run(s: EngineModel) -> (EngineModel, StepModel)
    decreases rem(s.frames), s.frames.len(),
    via spec_run_decreases
{
    if s.frames.len() == 0 {
        (s, StepModel::Finished)
    } else {
        let f = s.frames.last();
        if f.pos >= f.items.len() {
            let s2 = EngineModel {
                frames: s.frames.drop_last(),
                resolving: if f.path is Some && s.resolving.len() > 0 {
                    s.resolving.drop_last()
                } else {
                    s.resolving
                },
                ..s
            };
            spec_run(s2)
        } else {
            let it = f.items[f.pos];
            let f2 = FrameModel { pos: f.pos + 1, ..f };
            let frames2 = s.frames.update(s.frames.len() - 1, f2);
            if !(it.reference && s.expand) {
                if (it.quantity matches Some(qm) && !amount_scale_fits(qm.amount, f.scale)) {
                    (s, StepModel::Failed(ErrModel::Overflow))
                } else {
                    let q2 = match it.quantity {
                        Some(qm) => Some(
                            QuantityModel {
                                amount: amount_scale(qm.amount, f.scale),
                                unit: qm.unit,
                            },
                        ),
                        None => None,
                    };
                    if !acc_add_fits(s.acc, display_name(it), q2) {
                        (s, StepModel::Failed(ErrModel::Overflow))
                    } else {
                        let s2 = EngineModel {
                            acc: acc_add(s.acc, display_name(it), q2),
                            frames: frames2,
                            ..s
                        };
                        spec_run(s2)
                    }
                }
            } else {
                let p = ref_path_of(it);
                if s.resolving.contains(p) {
                    (
                        s,
                        StepModel::Failed(
                            ErrModel::CircularDependency {
                                chain: s.resolving.push(p),
                                repeated: p,
                            },
                        ),
                    )
                } else {
                    let s2 = EngineModel {
                        frames: frames2,
                        resolving: s.resolving.push(p),
                        pending: Some(
                            PendingModel {
                                path: p,
                                requested: it.quantity,
                                parent: f.scale,
                                referrer: f.path,
                            },
                        ),
                        ..s
                    };
                    (s2, StepModel::Need(p))
                }
            }
        }
    }
}

#[via_fn]
proof fn spec_run_decreases(s: EngineModel) {
    if s.frames.len() > 0 {
        let f = s.frames.last();
        if f.pos >= f.items.len() {
            assert(rem(s.frames) == rem(s.frames.drop_last()));
        } else {
            let f2 = FrameModel { pos: f.pos + 1, ..f };
            lemma_rem_update_last(s.frames, f2);
            assert(rem(s.frames) == rem(s.frames.drop_last()) + (f.items.len() - f.pos));
        }
    }
}

/// The state and verdict after a loaded recipe (or a load failure) is
/// handed back for the pending reference. A failure is wrapped with
/// the reference's path, its referrer and the whole resolving chain,
/// and releases the pending path from the resolving set — the path is
/// popped on success and on propagated failure alike, success popping
/// it later, when its frame is exhausted. On success the scaling
/// resolver decides the reference's own factor, and the recipe's
/// ingredients become a new frame at the combined scale — unless the
/// factor or the combination is not a machine rational, which fails
/// with `Overflow`.
pub open spec fn spec_supply(s: EngineModel, loaded: Result<LoadedModel, LoadErrModel>) -> (
    EngineModel,
    Option<ErrModel>,
) {
    let p = s.pending->0;
    let failed = EngineModel {
        pending: None,
        resolving: if s.resolving.len() > 0 {
            s.resolving.drop_last()
        } else {
            s.resolving
        },
        ..s
    };
    match loaded {
        Err(LoadErrModel::NotFound) => (
            failed,
            Some(
                ErrModel::NotFound { path: p.path, referrer: p.referrer, chain: s.resolving },
            ),
        ),
        Err(LoadErrModel::ParseFailure(errs)) => (
            failed,
            Some(
                ErrModel::ParseFailure {
                    path: p.path,
                    errors: errs,
                    referrer: p.referrer,
                    chain: s.resolving,
                },
            ),
        ),
        Ok(rm) => match spec_resolve(p.requested, rm.meta, s.keywords) {
            ResolvedModel::Missing(field) => (
                failed,
                Some(
                    ErrModel::MissingScalingMetadata {
                        recipe: p.path,
                        field,
                        chain: s.resolving,
                    },
                ),
            ),
            ResolvedModel::Mismatch { requested, declared } => (
                failed,
                Some(
                    ErrModel::UnitMismatch {
                        recipe: p.path,
                        requested,
                        declared,
                        chain: s.resolving,
                    },
                ),
            ),
            ResolvedModel::Scale(sc) => if !frac_fits(sc) || !frac_mul_fits(sc, p.parent) {
                (failed, Some(ErrModel::Overflow))
            } else {
                (
                    EngineModel {
                        pending: None,
                        frames: s.frames.push(
                            FrameModel {
                                items: rm.ingredients,
                                pos: 0,
                                scale: frac_mul(sc, p.parent),
                                path: Some(p.path),
                            },
                        ),
                        ..s
                    },
                    None,
                )
            },
        },
    }
}

/// The models of a sequence of frames.
pub open spec fn frames_view(s: Seq<Frame>) -> Seq<FrameModel> {
    s.map_values(|f: Frame| f@)
}

/// No reference path occurs twice.
pub open spec fn distinct_paths(s: Seq<Seq<char>>) -> bool {
    forall|i: int, j: int| 0 <= i < j < s.len() ==> s[i] != s[j]
}

/// What one call of `run_until_load` reports.
#[derive(Debug)]
pub enum Outcome {
    /// The engine needs this recipe loaded and handed to
    /// `supply_recipe` before it can continue.
    NeedRecipe(String),
    /// Traversal is complete; `finish` yields the ingredient list.
    Finished,
    /// The traversal failed and was abandoned.
    Failed(AggError),
}

/// The reference expansion engine.
#[derive(Debug)]
pub struct Engine {
    expand: bool,
    keywords: Vec<String>,
    acc: IngredientList,
    frames: Vec<Frame>,
    resolving: Vec<String>,
    pending: Option<Pending>,
}

impl View for Engine {
    type V = EngineModel;

    closed spec fn view(&self) -> EngineModel {
        EngineModel {
            expand: self.expand,
            keywords: self.keywords@.map_values(|k: String| k@),
            acc: self.acc@,
            frames: frames_view(self.frames@),
            resolving: self.resolving@.map_values(|p: String| p@),
            pending: match self.pending {
                Some(ref p) => Some(p@),
                None => None,
            },
        }
    }
}

fn clone_paths(v: &Vec<String>) -> (r: Vec<String>)
    ensures
        r@ == v@,
{
    let n: usize = v.len();
    let mut r: Vec<String> = Vec::new();
    let mut i: usize = 0;
    while i < n
        invariant
            0 <= i <= n,
            n == v@.len(),
            r@ =~= v@.take(i as int),
        decreases n - i,
    {
        r.push(v[i].clone());
        assert(r@ =~= v@.take(i as int).push(v@[i as int]));
        assert(v@.take(i as int).push(v@[i as int]) =~= v@.take(i + 1));
        i = i + 1;
    }
    proof {
        assert(v@.take(n as int) =~= v@);
    }
    r
}

fn contains_path(v: &Vec<String>, p: &String) -> (r: bool)
    ensures
        r == v@.map_values(|s: String| s@).contains(p@),
{
    let n: usize = v.len();
    let mut i: usize = 0;
    while i < n
        invariant
            0 <= i <= n,
            n == v@.len(),
            forall|j: int| 0 <= j < i ==> (#[trigger] v@[j])@ != p@,
        decreases n - i,
    {
        if *p == v[i] {
            assert(v@.map_values(|s: String| s@)[i as int] == p@);
            return true;
        }
        i = i + 1;
    }
    proof {
        let mapped = v@.map_values(|s: String| s@);
        if mapped.contains(p@) {
            let j = choose|j: int| 0 <= j < mapped.len() && mapped[j] == p@;
            assert(mapped[j] == v@[j]@);
            assert(false);
        }
    }
    false
}

impl Engine {
    /// Engine invariants: well-formed, fully merged accumulator entries
    /// under distinct display names, well-formed frames, no reference
    /// path resolving twice, and traversal depth bounded by the number
    /// of paths being resolved.
    pub closed spec fn wf(self) -> bool {
        &&& self.acc.wf()
        &&& distinct_names(self.acc@)
        &&& all_merged(self.acc@)
        &&& forall|i: int| 0 <= i < self.frames@.len() ==> (#[trigger] self.frames@[i]).wf()
        &&& distinct_paths(self@.resolving)
        &&& match self.pending {
            Some(p) => p.parent.wf() && match p.requested {
                Some(q) => q.wf(),
                None => true,
            },
            None => true,
        }
        &&& self.frames@.len() <= self.resolving@.len() + (if self.pending is Some {
            0int
        } else {
            1int
        })
    }

    /// Start one aggregation pass over a top-level ingredient list.
    /// The servings keywords default to "servings" and "serving".
    pub fn new(top: Vec<Ingredient>, expand_references: bool) -> (r: Engine)
        requires
            forall|i: int| 0 <= i < top@.len() ==> (#[trigger] top@[i]).wf(),
        ensures
            r.wf(),
            r@.expand == expand_references,
            r@.acc =~= Seq::<EntryModel>::empty(),
            r@.frames =~= seq![
                FrameModel {
                    items: top@.map_values(|it: Ingredient| it@),
                    pos: 0,
                    scale: (1int, 1int),
                    path: None,
                },
            ],
            r@.resolving =~= Seq::<Seq<char>>::empty(),
            r@.pending is None,
            r@.keywords =~= seq!["servings"@, "serving"@],
    {
        let mut keywords: Vec<String> = Vec::new();
        keywords.push(String::from_str("servings"));
        keywords.push(String::from_str("serving"));
        let r = Engine::with_keywords(top, expand_references, keywords);
        proof {
            assert(r@.keywords =~= seq!["servings"@, "serving"@]);
        }
        r
    }

    /// Start one aggregation pass with the caller's own servings
    /// keywords: a requested quantity whose unit matches any of them is
    /// read as a servings target.
    pub fn with_keywords(top: Vec<Ingredient>, expand_references: bool, keywords: Vec<String>) -> (r:
        Engine)
        requires
            forall|i: int| 0 <= i < top@.len() ==> (#[trigger] top@[i]).wf(),
        ensures
            r.wf(),
            r@.expand == expand_references,
            r@.acc =~= Seq::<EntryModel>::empty(),
            r@.frames =~= seq![
                FrameModel {
                    items: top@.map_values(|it: Ingredient| it@),
                    pos: 0,
                    scale: (1int, 1int),
                    path: None,
                },
            ],
            r@.resolving =~= Seq::<Seq<char>>::empty(),
            r@.pending is None,
            r@.keywords =~= keywords@.map_values(|k: String| k@),
    {
        let mut frames: Vec<Frame> = Vec::new();
        frames.push(Frame { items: top, pos: 0, scale: Rational::one(), path: None });
        let r = Engine {
            expand: expand_references,
            keywords,
            acc: IngredientList::new(),
            frames,
            resolving: Vec::new(),
            pending: None,
        };
        proof {
            assert(r@.frames =~= seq![
                FrameModel {
                    items: top@.map_values(|it: Ingredient| it@),
                    pos: 0,
                    scale: (1int, 1int),
                    path: None,
                },
            ]);
        }
        r
    }

    /// Run until a referenced recipe must be loaded, the traversal
    /// finishes, or it fails — exactly as the transition model says,
    /// failures included.
    pub fn run_until_load(&mut self) -> (r: Outcome)
        requires
            old(self).wf(),
            old(self)@.pending is None,
        ensures
            final(self).wf(),
            ({
                let (s2, ev) = spec_run(old(self)@);
                match r {
                    Outcome::NeedRecipe(p) => final(self)@ == s2 && ev == StepModel::Need(p@)
                        && final(self)@.pending is Some,
                    Outcome::Finished => final(self)@ == s2 && ev is Finished
                        && final(self)@.pending is None,
                    Outcome::Failed(e) => final(self)@ == s2 && ev == StepModel::Failed(e@),
                }
            }),
    {
        let ghost start = self@;
        loop
            invariant
                self.wf(),
                self@.pending is None,
                spec_run(self@) == spec_run(start),
                start == old(self)@,
            decreases rem(self@.frames), self@.frames.len(),
        {
            let ghost s_pre = self@;
            let flen = self.frames.len();
            if flen == 0 {
                return Outcome::Finished;
            }
            let ghost frames_pre = self.frames@;
            let mut f = self.frames.pop().unwrap();
            proof {
                assert(frames_view(frames_pre).last() == f@);
                assert(frames_view(self.frames@) =~= frames_view(frames_pre).drop_last());
            }
            if f.pos >= f.items.len() {
                if f.path.is_some() {
                    let ghost res_pre = self.resolving@;
                    let popped = self.resolving.pop();
                    proof {
                        if res_pre.len() > 0 {
                            assert(self@.resolving =~= s_pre.resolving.drop_last());
                        } else {
                            assert(self@.resolving =~= s_pre.resolving);
                        }
                        lemma_distinct_paths_prefix(s_pre.resolving, self@.resolving);
                    }
                } else {
                    proof {
                        assert(self@.resolving =~= s_pre.resolving);
                    }
                }
                proof {
                    let s2 = EngineModel {
                        frames: s_pre.frames.drop_last(),
                        resolving: if f@.path is Some && s_pre.resolving.len() > 0 {
                            s_pre.resolving.drop_last()
                        } else {
                            s_pre.resolving
                        },
                        ..s_pre
                    };
                    assert(self@ == s2);
                    assert(spec_run(s_pre) == spec_run(s2));
                    assert(s_pre.frames.last().pos >= s_pre.frames.last().items.len());
                    assert(rem(self@.frames) == rem(s_pre.frames));
                }
            } else {
                let pos = f.pos;
                let ghost it_model = f@.items[pos as int];
                proof {
                    assert(f.items@[pos as int]@ == it_model);
                }
                let is_ref = f.items[pos].reference && self.expand;
                if !is_ref {
                    let display: String = match &f.items[pos].alias {
                        Some(a) => a.clone(),
                        None => f.items[pos].name.clone(),
                    };
                    let qopt: Option<Quantity> = match &f.items[pos].quantity {
                        Some(q) => match crate::quantity::scale_quantity(q, f.scale) {
                            Some(q2) => Some(q2),
                            None => {
                                self.frames.push(f);
                                proof {
                                    assert(self@.frames =~= s_pre.frames);
                                    assert(self@ == s_pre);
                                }
                                return Outcome::Failed(AggError::Overflow);
                            },
                        },
                        None => None,
                    };
                    let ghost q2 = match it_model.quantity {
                        Some(qm) => Some(
                            QuantityModel {
                                amount: amount_scale(qm.amount, f@.scale),
                                unit: qm.unit,
                            },
                        ),
                        None => None,
                    };
                    proof {
                        assert(display@ == display_name(it_model));
                        assert((match qopt {
                            Some(q) => Some(q@),
                            None => None,
                        }) == q2);
                    }
                    match self.acc.add_ingredient(display, qopt) {
                        Ok(()) => {
                            f.pos = pos + 1;
                            let ghost f2 = f@;
                            self.frames.push(f);
                            proof {
                                let fm = s_pre.frames.last();
                                let it = fm.items[fm.pos];
                                let s2 = EngineModel {
                                    acc: acc_add(s_pre.acc, display_name(it), q2),
                                    frames: s_pre.frames.update(
                                        s_pre.frames.len() - 1,
                                        FrameModel { pos: fm.pos + 1, ..fm },
                                    ),
                                    ..s_pre
                                };
                                assert(acc_add_fits(s_pre.acc, display_name(it), q2));
                                assert(self@.acc == s2.acc);
                                assert(self@.frames =~= s2.frames);
                                assert(self@ == s2);
                                assert(spec_run(s_pre) == spec_run(s2));
                                lemma_rem_update_last(
                                    s_pre.frames,
                                    FrameModel { pos: fm.pos + 1, ..fm },
                                );
                                assert(rem(self@.frames) < rem(s_pre.frames));
                            }
                        },
                        Err(e) => {
                            self.frames.push(f);
                            proof {
                                assert(!acc_add_fits(s_pre.acc, display_name(it_model), q2));
                                assert(self@.frames =~= s_pre.frames);
                                assert(self@ == s_pre);
                            }
                            return Outcome::Failed(e);
                        },
                    }
                } else {
                    let path: String = match &f.items[pos].reference_path {
                        Some(p) => normalize_path(p),
                        None => f.items[pos].name.clone(),
                    };
                    proof {
                        assert(path@ == ref_path_of(it_model));
                    }
                    if contains_path(&self.resolving, &path) {
                        let mut chain = clone_paths(&self.resolving);
                        chain.push(path.clone());
                        self.frames.push(f);
                        let err = AggError::CircularDependency { chain, repeated: path };
                        proof {
                            assert(err@ matches ErrModel::CircularDependency {
                                chain: c,
                                repeated: rp,
                            } && c =~= s_pre.resolving.push(ref_path_of(it_model)) && rp
                                == ref_path_of(it_model));
                            assert(self@.frames =~= s_pre.frames);
                            assert(self@ == s_pre);
                        }
                        return Outcome::Failed(err);
                    } else {
                        let requested: Option<Quantity> = match &f.items[pos].quantity {
                            Some(q) => Some(q.clone()),
                            None => None,
                        };
                        let parent = f.scale;
                        let referrer: Option<String> = match &f.path {
                            Some(p) => Some(p.clone()),
                            None => None,
                        };
                        f.pos = pos + 1;
                        let ghost f2 = f@;
                        self.frames.push(f);
                        self.resolving.push(path.clone());
                        self.pending = Some(
                            Pending { path: path.clone(), requested, parent, referrer },
                        );
                        proof {
                            let fm = s_pre.frames.last();
                            let it = fm.items[fm.pos];
                            let p = ref_path_of(it);
                            let s2 = EngineModel {
                                frames: s_pre.frames.update(
                                    s_pre.frames.len() - 1,
                                    FrameModel { pos: fm.pos + 1, ..fm },
                                ),
                                resolving: s_pre.resolving.push(p),
                                pending: Some(
                                    PendingModel {
                                        path: p,
                                        requested: it.quantity,
                                        parent: fm.scale,
                                        referrer: fm.path,
                                    },
                                ),
                                ..s_pre
                            };
                            assert(self@.frames =~= s2.frames);
                            assert(self@.resolving =~= s2.resolving);
                            assert(self@ == s2);
                            assert forall|x: int, y: int|
                                0 <= x < y < self@.resolving.len() implies self@.resolving[x]
                                != self@.resolving[y] by {
                                if y < s_pre.resolving.len() {
                                    assert(s_pre.resolving[x] != s_pre.resolving[y]);
                                } else {
                                    assert(!s_pre.resolving.contains(p));
                                    assert(self@.resolving[x] == s_pre.resolving[x]);
                                }
                            }
                        }
                        return Outcome::NeedRecipe(path);
                    }
                }
            }
        }
    }

    /// Release the pending reference's path from the resolving set: the
    /// pop that a propagated failure owes before returning.
    fn release_pending_path(&mut self, Ghost(pre): Ghost<EngineModel>)
        requires
            old(self)@ == (EngineModel { pending: None, ..pre }),
            distinct_paths(pre.resolving),
        ensures
            final(self)@ == (EngineModel {
                pending: None,
                resolving: if pre.resolving.len() > 0 {
                    pre.resolving.drop_last()
                } else {
                    pre.resolving
                },
                ..pre
            }),
            distinct_paths(final(self)@.resolving),
            final(self).acc == old(self).acc,
            final(self).frames == old(self).frames,
            final(self).pending == old(self).pending,
            final(self)@.resolving.len() + (if old(self)@.resolving.len() > 0 {
                1int
            } else {
                0int
            }) == old(self)@.resolving.len(),
    {
        let ghost res_pre = self.resolving@;
        let popped = self.resolving.pop();
        proof {
            if res_pre.len() > 0 {
                assert(self@.resolving =~= pre.resolving.drop_last());
            } else {
                assert(self@.resolving =~= pre.resolving);
            }
            lemma_distinct_paths_prefix(pre.resolving, self@.resolving);
        }
    }

    /// Hand back the recipe the last `NeedRecipe` asked for (or the
    /// load failure). `None` means the engine can continue; an error
    /// abandons the traversal. Exactly as the supply model says,
    /// failures included.
    pub fn supply_recipe(&mut self, loaded: Result<LoadedRecipe, LoadError>) -> (r: Option<
        AggError,
    >)
        requires
            old(self).wf(),
            old(self)@.pending is Some,
            loaded matches Ok(lr) ==> lr.wf(),
        ensures
            final(self).wf(),
            ({
                let lm = match loaded {
                    Ok(lr) => Ok::<LoadedModel, LoadErrModel>(lr@),
                    Err(le) => Err::<LoadedModel, LoadErrModel>(le@),
                };
                let (s2, ev) = spec_supply(old(self)@, lm);
                match r {
                    None => final(self)@ == s2 && ev is None && final(self)@.pending is None,
                    Some(e) => final(self)@ == s2 && ev == Some(e@),
                }
            }),
    {
        let ghost s_pre = self@;
        let (path, requested, parent, referrer) = match &self.pending {
            Some(p) => (
                p.path.clone(),
                match &p.requested {
                    Some(q) => Some(q.clone()),
                    None => None,
                },
                p.parent,
                match &p.referrer {
                    Some(x) => Some(x.clone()),
                    None => None,
                },
            ),
            None => {
                proof {
                    assert(false);
                }
                (String::new(), None, Rational::one(), None)
            },
        };
        self.pending = None;
        proof {
            assert(self@ == (EngineModel { pending: None, ..s_pre }));
        }
        match loaded {
            Err(LoadError::NotFound) => {
                let chain = clone_paths(&self.resolving);
                self.release_pending_path(Ghost(s_pre));
                Some(AggError::NotFound { path, referrer, chain })
            },
            Err(LoadError::ParseFailure(errs)) => {
                let chain = clone_paths(&self.resolving);
                self.release_pending_path(Ghost(s_pre));
                Some(AggError::ParseFailure { path, errors: errs, referrer, chain })
            },
            Ok(recipe) => {
                match resolve_scale(&requested, &recipe.meta, &path, &self.keywords) {
                    Err(e) => {
                        let chain = clone_paths(&self.resolving);
                        self.release_pending_path(Ghost(s_pre));
                        match e {
                            AggError::MissingScalingMetadata { recipe: rc, field, chain: _ } => {
                                Some(AggError::MissingScalingMetadata { recipe: rc, field, chain })
                            },
                            AggError::UnitMismatch {
                                recipe: rc,
                                requested: rq,
                                declared: dc,
                                chain: _,
                            } => Some(
                                AggError::UnitMismatch {
                                    recipe: rc,
                                    requested: rq,
                                    declared: dc,
                                    chain,
                                },
                            ),
                            other => Some(other),
                        }
                    },
                    Ok(sc) => {
                        match sc.mul(parent) {
                            None => {
                                self.release_pending_path(Ghost(s_pre));
                                Some(AggError::Overflow)
                            },
                            Some(combined) => {
                                let ghost frames_pre = self.frames@;
                                self.frames.push(
                                    Frame {
                                        items: recipe.ingredients,
                                        pos: 0,
                                        scale: combined,
                                        path: Some(path),
                                    },
                                );
                                proof {
                                    let p = s_pre.pending->0;
                                    let s2 = EngineModel {
                                        pending: None,
                                        frames: s_pre.frames.push(
                                            FrameModel {
                                                items: recipe@.ingredients,
                                                pos: 0,
                                                scale: frac_mul(sc.frac(), p.parent),
                                                path: Some(p.path),
                                            },
                                        ),
                                        ..s_pre
                                    };
                                    assert(self@.frames =~= s2.frames);
                                    assert(self@ == s2);
                                }
                                None
                            },
                        }
                    },
                }
            },
        }
    }

    /// True when every frame is exhausted and the result is ready.
    pub fn is_finished(&self) -> (r: bool)
        ensures
            r == (self@.frames.len() == 0),
    {
        self.frames.len() == 0
    }

    /// Drain the finished traversal into the name-sorted flat list.
    pub fn finish(self) -> (r: IngredientList)
        requires
            self.wf(),
            self@.frames.len() == 0,
        ensures
            r.wf(),
            r@.to_multiset() == self@.acc.to_multiset(),
            r@.len() == self@.acc.len(),
            forall|i: int|
                0 <= i < r@.len() - 1 ==> crate::text::lex_lt(
                    r@[i].name,
                    #[trigger] r@[i + 1].name,
                ),
            distinct_names(r@),
    {
        self.acc.into_sorted()
    }

    /// The cycle check keeps the traversal bounded: no path resolves
    /// twice at once, and the frame stack is never deeper than the
    /// resolving chain plus the top-level list — so with finitely many
    /// recipe files a traversal can neither recurse nor loop forever.
    pub proof fn lemma_depth_bounded(&self)
        requires
            self.wf(),
        ensures
            distinct_paths(self@.resolving),
            self@.frames.len() <= self@.resolving.len() + 1,
    {
    }
}

/// With reference expansion disabled the engine never asks for a
/// load: a run only records entries and finishes or fails, and every
/// reference ingredient is recorded once, under its own display name,
/// like a plain ingredient.
pub proof fn lemma_disabled_expansion_never_loads(s: EngineModel)
    requires
        !s.expand,
    ensures
        !(spec_run(s).1 is Need),
    decreases rem(s.frames), s.frames.len(),
{
    if s.frames.len() == 0 {
    } else {
        let f = s.frames.last();
        if f.pos >= f.items.len() {
            let s2 = EngineModel {
                frames: s.frames.drop_last(),
                resolving: if f.path is Some && s.resolving.len() > 0 {
                    s.resolving.drop_last()
                } else {
                    s.resolving
                },
                ..s
            };
            assert(rem(s.frames) == rem(s.frames.drop_last()));
            lemma_disabled_expansion_never_loads(s2);
        } else {
            let it = f.items[f.pos];
            let f2 = FrameModel { pos: f.pos + 1, ..f };
            let frames2 = s.frames.update(s.frames.len() - 1, f2);
            if (it.quantity matches Some(qm) && !amount_scale_fits(qm.amount, f.scale)) {
            } else {
                let q2 = match it.quantity {
                    Some(qm) => Some(
                        QuantityModel { amount: amount_scale(qm.amount, f.scale), unit: qm.unit },
                    ),
                    None => None,
                };
                if !acc_add_fits(s.acc, display_name(it), q2) {
                } else {
                    let s2 = EngineModel {
                        acc: acc_add(s.acc, display_name(it), q2),
                        frames: frames2,
                        ..s
                    };
                    lemma_rem_update_last(s.frames, f2);
                    assert(rem(s.frames) == rem(s.frames.drop_last()) + (f.items.len() - f.pos));
                    lemma_disabled_expansion_never_loads(s2);
                }
            }
        }
    }
}

proof fn lemma_distinct_paths_prefix(s: Seq<Seq<char>>, t: Seq<Seq<char>>)
    requires
        distinct_paths(s),
        t == s || (s.len() > 0 && t == s.drop_last()),
    ensures
        distinct_paths(t),
{
    if s.len() > 0 && t == s.drop_last() {
        assert forall|i: int, j: int| 0 <= i < j < t.len() implies t[i] != t[j] by {
            assert(t[i] == s[i] && t[j] == s[j]);
        }
    }
}

} // verus!
