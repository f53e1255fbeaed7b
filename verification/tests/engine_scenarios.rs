use cooklang_reports::engine::{
    normalize_path, validate_ingredient, Engine, Ingredient, LoadError, LoadedRecipe, Outcome,
};
use cooklang_reports::error::{AggError, MetadataField};
use cooklang_reports::ingredient_list::IngredientList;
use cooklang_reports::quantity::{Amount, Quantity};
use cooklang_reports::rational::Rational;
use cooklang_reports::scaling::{RecipeMeta, YieldDecl};

fn qty(num: i64, den: i64, unit: Option<&str>) -> Quantity {
    Quantity {
        amount: Amount::Number(Rational::new(num, den)),
        unit: unit.map(|u| u.to_string()),
    }
}

fn text_qty(t: &str, unit: Option<&str>) -> Quantity {
    Quantity { amount: Amount::Text(t.to_string()), unit: unit.map(|u| u.to_string()) }
}

fn plain(name: &str, q: Option<Quantity>) -> Ingredient {
    Ingredient {
        name: name.to_string(),
        alias: None,
        quantity: q,
        reference: false,
        reference_path: None,
    }
}

fn reference(path: &str, q: Option<Quantity>) -> Ingredient {
    Ingredient {
        name: path.to_string(),
        alias: None,
        quantity: q,
        reference: true,
        reference_path: None,
    }
}

fn meta(servings: Option<u32>, yield_amount: Option<(i64, &str)>) -> RecipeMeta {
    RecipeMeta {
        servings,
        declared_yield: yield_amount.map(|(n, u)| YieldDecl {
            amount: Rational::new(n, 1),
            unit: u.to_string(),
        }),
    }
}

/// Run an engine against an in-memory corpus of (path, recipe) pairs.
fn run(mut engine: Engine, corpus: &[(&str, Vec<Ingredient>, RecipeMeta)]) -> Result<IngredientList, AggError> {
    loop {
        match engine.run_until_load() {
            Outcome::Finished => return Ok(engine.finish()),
            Outcome::Failed(e) => return Err(e),
            Outcome::NeedRecipe(path) => {
                let found = corpus.iter().find(|(p, _, _)| *p == path);
                let loaded = match found {
                    Some((_, ings, m)) => {
                        let ingredients = ings
                            .iter()
                            .map(|i| Ingredient {
                                name: i.name.clone(),
                                alias: i.alias.clone(),
                                quantity: i.quantity.clone(),
                                reference: i.reference,
                                reference_path: i.reference_path.clone(),
                            })
                            .collect();
                        Ok(LoadedRecipe {
                            ingredients,
                            meta: RecipeMeta {
                                servings: m.servings,
                                declared_yield: m.declared_yield.as_ref().map(|y| YieldDecl {
                                    amount: y.amount,
                                    unit: y.unit.clone(),
                                }),
                            },
                        })
                    }
                    None => Err(LoadError::NotFound),
                };
                if let Some(e) = engine.supply_recipe(loaded) {
                    return Err(e);
                }
            }
        }
    }
}

fn entries(list: &IngredientList) -> Vec<(String, String)> {
    list.items()
        .iter()
        .map(|it| (it.name.clone(), it.quantities_str()))
        .collect()
}

#[test]
fn servings_scaling() {
    // Recipe R declares servings: 4; the reference requests 8 servings;
    // R contains flour 200 g. Expected contribution: flour 400 g.
    let top = vec![reference("R", Some(qty(8, 1, Some("servings"))))];
    let corpus = [("R", vec![plain("flour", Some(qty(200, 1, Some("g"))))], meta(Some(4), None))];
    let list = run(Engine::new(top, true), &corpus).unwrap();
    assert_eq!(entries(&list), vec![("flour".to_string(), "400 g".to_string())]);
}

#[test]
fn yield_scaling() {
    // Recipe Y declares yield: 500 g; the reference requests 250 g;
    // Y contains butter 100 g. Expected contribution: butter 50 g.
    let top = vec![reference("Y", Some(qty(250, 1, Some("g"))))];
    let corpus =
        [("Y", vec![plain("butter", Some(qty(100, 1, Some("g"))))], meta(None, Some((500, "g"))))];
    let list = run(Engine::new(top, true), &corpus).unwrap();
    assert_eq!(entries(&list), vec![("butter".to_string(), "50 g".to_string())]);
}

#[test]
fn yield_unit_mismatch() {
    // Requesting 250 ml against a 500 g yield must fail with UnitMismatch.
    let top = vec![reference("Y", Some(qty(250, 1, Some("ml"))))];
    let corpus =
        [("Y", vec![plain("butter", Some(qty(100, 1, Some("g"))))], meta(None, Some((500, "g"))))];
    let err = run(Engine::new(top, true), &corpus).unwrap_err();
    match err {
        AggError::UnitMismatch { recipe, requested, declared, chain } => {
            assert_eq!(recipe, "Y");
            assert_eq!(requested, "ml");
            assert_eq!(declared, "g");
            assert_eq!(chain, vec!["Y".to_string()]);
        }
        other => panic!("expected a unit mismatch, got {:?}", other),
    }
}

#[test]
fn missing_servings_metadata() {
    let top = vec![reference("NoServings", Some(qty(4, 1, Some("servings"))))];
    let corpus = [("NoServings", vec![plain("flour", Some(qty(100, 1, Some("g"))))], meta(None, None))];
    let err = run(Engine::new(top, true), &corpus).unwrap_err();
    match err {
        AggError::MissingScalingMetadata { recipe, field, .. } => {
            assert_eq!(recipe, "NoServings");
            assert!(matches!(field, MetadataField::Servings));
        }
        other => panic!("expected missing servings metadata, got {:?}", other),
    }
}

#[test]
fn missing_yield_metadata() {
    let top = vec![reference("Pancakes", Some(qty(500, 1, Some("g"))))];
    let corpus = [("Pancakes", vec![plain("eggs", Some(qty(3, 1, None)))], meta(Some(4), None))];
    let err = run(Engine::new(top, true), &corpus).unwrap_err();
    assert!(matches!(err, AggError::MissingScalingMetadata { field: MetadataField::Yield, .. }));
}

#[test]
fn cross_file_merge() {
    // The top-level recipe lists milk 200 ml directly and references P
    // (milk 250 ml) at 2x: one merged entry, milk 700 ml.
    let top = vec![
        plain("milk", Some(qty(200, 1, Some("ml")))),
        reference("P", Some(qty(2, 1, None))),
    ];
    let corpus = [("P", vec![plain("milk", Some(qty(250, 1, Some("ml"))))], meta(None, None))];
    let list = run(Engine::new(top, true), &corpus).unwrap();
    assert_eq!(entries(&list), vec![("milk".to_string(), "700 ml".to_string())]);
}

#[test]
fn unmergeable_units() {
    // One reference contributes eggs 6 large, another eggs 4 without a
    // unit: a single entry with two components, "6 large, 4".
    let top = vec![reference("A", None), reference("B", None)];
    let corpus = [
        ("A", vec![plain("eggs", Some(qty(6, 1, Some("large"))))], meta(None, None)),
        ("B", vec![plain("eggs", Some(qty(4, 1, None)))], meta(None, None)),
    ];
    let list = run(Engine::new(top, true), &corpus).unwrap();
    assert_eq!(entries(&list), vec![("eggs".to_string(), "6 large, 4".to_string())]);
}

#[test]
fn nested_scale_composition() {
    // A requests 2x of B; B requests 3x of C; C holds sugar 10 g. The
    // innermost contribution carries the combined factor: 60 g.
    let top = vec![reference("B", Some(qty(2, 1, None)))];
    let corpus = [
        ("B", vec![reference("C", Some(qty(3, 1, None)))], meta(None, None)),
        ("C", vec![plain("sugar", Some(qty(10, 1, Some("g"))))], meta(None, None)),
    ];
    let list = run(Engine::new(top, true), &corpus).unwrap();
    assert_eq!(entries(&list), vec![("sugar".to_string(), "60 g".to_string())]);
}

#[test]
fn reference_without_quantity_uses_default_scale() {
    // A reference with no requested quantity keeps the referenced
    // recipe at its own scale of 1.
    let top = vec![reference("P", None)];
    let corpus = [("P", vec![plain("milk", Some(qty(250, 1, Some("ml"))))], meta(None, None))];
    let list = run(Engine::new(top, true), &corpus).unwrap();
    assert_eq!(entries(&list), vec![("milk".to_string(), "250 ml".to_string())]);
}

#[test]
fn singular_serving_keyword() {
    // The singular keyword works like the plural one.
    let top = vec![reference("R", Some(qty(2, 1, Some("serving"))))];
    let corpus = [("R", vec![plain("flour", Some(qty(200, 1, Some("g"))))], meta(Some(4), None))];
    let list = run(Engine::new(top, true), &corpus).unwrap();
    assert_eq!(entries(&list), vec![("flour".to_string(), "100 g".to_string())]);
}

#[test]
fn cycle_detection() {
    // The top recipe references B, B references A, and A references B
    // again: the run fails with the full chain in traversal order and
    // never loops.
    let top = vec![reference("B", None)];
    let corpus = [
        ("B", vec![reference("A", None)], meta(None, None)),
        ("A", vec![reference("B", None)], meta(None, None)),
    ];
    let err = run(Engine::new(top, true), &corpus).unwrap_err();
    match err {
        AggError::CircularDependency { chain, repeated } => {
            assert_eq!(chain, vec!["B".to_string(), "A".to_string(), "B".to_string()]);
            assert_eq!(repeated, "B");
        }
        other => panic!("expected a circular dependency, got {:?}", other),
    }
}

#[test]
fn disabled_expansion_keeps_references() {
    // With expansion off a reference shows up exactly once, under its
    // own name, with its bare requested quantity; nothing is loaded.
    let top = vec![
        reference("Pancakes", Some(qty(2, 1, None))),
        plain("milk", Some(qty(200, 1, Some("ml")))),
        plain("sugar", Some(qty(2, 1, Some("tbsp")))),
    ];
    let list = run(Engine::new(top, false), &[]).unwrap();
    assert_eq!(
        entries(&list),
        vec![
            ("Pancakes".to_string(), "2".to_string()),
            ("milk".to_string(), "200 ml".to_string()),
            ("sugar".to_string(), "2 tbsp".to_string()),
        ]
    );
}

#[test]
fn not_found_reference() {
    let top = vec![reference("Missing", None)];
    let err = run(Engine::new(top, true), &[]).unwrap_err();
    match err {
        AggError::NotFound { path, referrer, chain } => {
            assert_eq!(path, "Missing");
            assert_eq!(referrer, None);
            assert_eq!(chain, vec!["Missing".to_string()]);
        }
        other => panic!("expected not-found, got {:?}", other),
    }
}

#[test]
fn parse_failure_reference() {
    let top = vec![reference("Broken", None)];
    let mut engine = Engine::new(top, true);
    match engine.run_until_load() {
        Outcome::NeedRecipe(p) => assert_eq!(p, "Broken"),
        other => panic!("expected a load request, got {:?}", other),
    }
    let err = engine
        .supply_recipe(Err(LoadError::ParseFailure(vec!["bad token".to_string()])))
        .unwrap();
    match err {
        AggError::ParseFailure { path, errors, .. } => {
            assert_eq!(path, "Broken");
            assert_eq!(errors, vec!["bad token".to_string()]);
        }
        other => panic!("expected a parse failure, got {:?}", other),
    }
}

#[test]
fn failed_supply_releases_the_resolving_path() {
    // A load failure pops the path it pushed: a caller who continues
    // sees the next reference, and a later legitimate reference to the
    // same recipe is not misreported as a cycle.
    let top = vec![reference("Missing", None), reference("Missing", None)];
    let mut engine = Engine::new(top, true);
    match engine.run_until_load() {
        Outcome::NeedRecipe(p) => assert_eq!(p, "Missing"),
        other => panic!("expected a load request, got {:?}", other),
    }
    let err = engine.supply_recipe(Err(LoadError::NotFound)).unwrap();
    assert!(matches!(err, AggError::NotFound { .. }));
    match engine.run_until_load() {
        Outcome::NeedRecipe(p) => assert_eq!(p, "Missing"),
        other => panic!("expected a fresh load request, got {:?}", other),
    }
}

#[test]
fn deep_failure_messages_embed_the_chain() {
    // A failure deep in the reference graph reports the whole causal
    // chain, not just the immediate referrer.
    let top = vec![reference("A", None)];
    let corpus = [("A", vec![reference("Missing", None)], meta(None, None))];
    let err = run(Engine::new(top, true), &corpus).unwrap_err();
    match &err {
        AggError::NotFound { path, referrer, chain } => {
            assert_eq!(path, "Missing");
            assert_eq!(referrer.as_deref(), Some("A"));
            assert_eq!(chain, &vec!["A".to_string(), "Missing".to_string()]);
        }
        other => panic!("expected not-found, got {:?}", other),
    }
    assert_eq!(
        err.message(),
        "Recipe 'Missing' (referenced from 'A') was not found\n  (resolving chain: A -> Missing)"
    );
}

#[test]
fn custom_servings_keyword() {
    // The servings keyword is configurable; with "portions" declared,
    // a portions-unit request scales by declared servings.
    let top = vec![reference("R", Some(qty(8, 1, Some("portions"))))];
    let corpus = [("R", vec![plain("flour", Some(qty(200, 1, Some("g"))))], meta(Some(4), None))];
    let engine = Engine::with_keywords(top, true, vec!["portions".to_string()]);
    let list = run(engine, &corpus).unwrap();
    assert_eq!(entries(&list), vec![("flour".to_string(), "400 g".to_string())]);
}

#[test]
fn error_messages_carry_context() {
    let top = vec![reference("B", None)];
    let corpus = [
        ("B", vec![reference("A", None)], meta(None, None)),
        ("A", vec![reference("B", None)], meta(None, None)),
    ];
    let err = run(Engine::new(top, true), &corpus).unwrap_err();
    assert_eq!(err.message(), "Circular dependency found: B -> A -> B");

    let top = vec![reference("Missing", None)];
    let err = run(Engine::new(top, true), &[]).unwrap_err();
    assert_eq!(err.message(), "Recipe 'Missing' was not found");

    let top = vec![reference("NoServings", Some(qty(4, 1, Some("servings"))))];
    let corpus = [("NoServings", vec![plain("flour", None)], meta(None, None))];
    let err = run(Engine::new(top, true), &corpus).unwrap_err();
    assert_eq!(
        err.message(),
        "Failed to scale recipe 'NoServings': no usable 'servings' metadata"
    );
}

#[test]
fn parse_failure_message_lists_every_error() {
    let top = vec![reference("Broken", None)];
    let mut engine = Engine::new(top, true);
    match engine.run_until_load() {
        Outcome::NeedRecipe(p) => assert_eq!(p, "Broken"),
        other => panic!("expected a load request, got {:?}", other),
    }
    let err = engine
        .supply_recipe(Err(LoadError::ParseFailure(vec![
            "bad token".to_string(),
            "worse token".to_string(),
        ])))
        .unwrap();
    assert_eq!(
        err.message(),
        "Failed to parse recipe 'Broken':\n  - bad token\n  - worse token"
    );
}

#[test]
fn normalized_reference_paths() {
    assert_eq!(normalize_path(&"/Pancakes".to_string()), "Pancakes");
    assert_eq!(normalize_path(&"dir/Pancakes".to_string()), "dir/Pancakes");
    // A declared reference path is normalized before the cycle check.
    let mut it = reference("ignored", None);
    it.reference_path = Some("/P".to_string());
    let corpus = [("P", vec![plain("milk", Some(qty(250, 1, Some("ml"))))], meta(None, None))];
    let list = run(Engine::new(vec![it], true), &corpus).unwrap();
    assert_eq!(entries(&list), vec![("milk".to_string(), "250 ml".to_string())]);
}

#[test]
fn malformed_ingredient_record() {
    let err = validate_ingredient(None, None, Some("2".to_string()), None, true, None).unwrap_err();
    assert!(matches!(err, AggError::MalformedIngredient { .. }));
    let ok = validate_ingredient(
        Some("milk".to_string()),
        None,
        Some("250".to_string()),
        Some("ml".to_string()),
        false,
        None,
    )
    .unwrap();
    assert_eq!(ok.name, "milk");
}

#[test]
fn alias_is_display_name() {
    let mut it = plain("whole milk", Some(qty(200, 1, Some("ml"))));
    it.alias = Some("milk".to_string());
    let list = run(Engine::new(vec![it], true), &[]).unwrap();
    assert_eq!(entries(&list), vec![("milk".to_string(), "200 ml".to_string())]);
}

#[test]
fn text_quantities_stay_separate_and_unscaled() {
    // Free-text amounts neither scale nor merge: two contributions stay
    // side by side even at 2x.
    let top = vec![reference("P", Some(qty(2, 1, None)))];
    let corpus = [(
        "P",
        vec![
            plain("salt", Some(text_qty("to taste", None))),
            plain("salt", Some(text_qty("a pinch", None))),
        ],
        meta(None, None),
    )];
    let list = run(Engine::new(top, true), &corpus).unwrap();
    assert_eq!(entries(&list), vec![("salt".to_string(), "to taste, a pinch".to_string())]);
}

#[test]
fn output_sorted_by_name() {
    let top = vec![
        plain("sugar", Some(qty(2, 1, Some("tbsp")))),
        plain("eggs", Some(qty(3, 1, None))),
        plain("milk", Some(qty(250, 1, Some("ml")))),
    ];
    let list = run(Engine::new(top, true), &[]).unwrap();
    let names: Vec<String> = list.items().iter().map(|it| it.name.clone()).collect();
    assert_eq!(names, vec!["eggs".to_string(), "milk".to_string(), "sugar".to_string()]);
}

#[test]
fn merge_order_is_immaterial() {
    // The final grouped quantity per name does not depend on the order
    // unit-compatible contributions arrive in.
    let forward = vec![
        plain("milk", Some(qty(200, 1, Some("ml")))),
        plain("milk", Some(qty(1, 2, Some("ml")))),
        plain("milk", Some(qty(3, 10, Some("ml")))),
    ];
    let backward = vec![
        plain("milk", Some(qty(3, 10, Some("ml")))),
        plain("milk", Some(qty(1, 2, Some("ml")))),
        plain("milk", Some(qty(200, 1, Some("ml")))),
    ];
    let a = run(Engine::new(forward, true), &[]).unwrap();
    let b = run(Engine::new(backward, true), &[]).unwrap();
    assert_eq!(entries(&a), entries(&b));
    assert_eq!(entries(&a), vec![("milk".to_string(), "200.8 ml".to_string())]);

    // Interleaving other names between the contributions changes
    // nothing about the merged entry either.
    let interleaved = vec![
        plain("milk", Some(qty(1, 2, Some("ml")))),
        plain("eggs", Some(qty(3, 1, None))),
        plain("milk", Some(qty(200, 1, Some("ml")))),
        plain("flour", Some(qty(125, 1, Some("g")))),
        plain("milk", Some(qty(3, 10, Some("ml")))),
    ];
    let c = run(Engine::new(interleaved, true), &[]).unwrap();
    let milk = entries(&c)
        .into_iter()
        .find(|(n, _)| n == "milk")
        .unwrap();
    assert_eq!(milk.1, "200.8 ml");
}

#[test]
fn half_scaling_renders_decimals() {
    let top = vec![reference("Pancakes", Some(qty(1, 2, None)))];
    let corpus =
        [("Pancakes", vec![plain("eggs", Some(qty(3, 1, Some("large"))))], meta(None, None))];
    let list = run(Engine::new(top, true), &corpus).unwrap();
    assert_eq!(entries(&list), vec![("eggs".to_string(), "1.5 large".to_string())]);
}

#[test]
fn range_quantities_scale_and_merge() {
    let top = vec![
        plain("chillies", Some(Quantity {
            amount: Amount::Range(Rational::new(1, 1), Rational::new(2, 1)),
            unit: None,
        })),
        plain("chillies", Some(qty(1, 1, None))),
    ];
    let list = run(Engine::new(top, true), &[]).unwrap();
    assert_eq!(entries(&list), vec![("chillies".to_string(), "2-3".to_string())]);
}

#[test]
fn overflow_is_reported() {
    let top = vec![
        plain("dust", Some(qty(i64::MAX, 1, Some("g")))),
        plain("dust", Some(qty(i64::MAX, 1, Some("g")))),
    ];
    let err = run(Engine::new(top, true), &[]).unwrap_err();
    assert!(matches!(err, AggError::Overflow));
}
