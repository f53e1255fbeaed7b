use cooklang_reports::aisle::{aisled, AisleCategory, AisleRules};
use cooklang_reports::grouped::GroupedQuantity;
use cooklang_reports::ingredient_list::{IngredientList, IngredientListItem};
use cooklang_reports::pantry::{excluding_pantry, from_pantry};
use cooklang_reports::quantity::{
    merge, scale_quantity, Amount, MergeOutcome, Quantity,
};
use cooklang_reports::rational::Rational;

fn qty(num: i64, den: i64, unit: Option<&str>) -> Quantity {
    Quantity {
        amount: Amount::Number(Rational::new(num, den)),
        unit: unit.map(|u| u.to_string()),
    }
}

fn item(name: &str) -> IngredientListItem {
    IngredientListItem::new(name.to_string(), GroupedQuantity::new())
}

fn names(items: &[IngredientListItem]) -> Vec<String> {
    items.iter().map(|i| i.name.clone()).collect()
}

#[test]
fn merge_is_commutative() {
    let a = qty(200, 1, Some("ml"));
    let b = qty(1, 2, Some("ml"));
    let ab = match merge(&a, &b) {
        MergeOutcome::Merged(q) => q,
        _ => panic!("compatible quantities must merge"),
    };
    let ba = match merge(&b, &a) {
        MergeOutcome::Merged(q) => q,
        _ => panic!("compatible quantities must merge"),
    };
    match (ab.amount, ba.amount) {
        (Amount::Number(x), Amount::Number(y)) => {
            assert_eq!(x.num as i128 * y.den as i128, y.num as i128 * x.den as i128);
        }
        _ => panic!("expected numbers"),
    }
}

#[test]
fn merge_refuses_unit_mismatch_and_text() {
    let a = qty(6, 1, Some("large"));
    let b = qty(4, 1, None);
    assert!(matches!(merge(&a, &b), MergeOutcome::Unmergeable));
    let t = Quantity { amount: Amount::Text("to taste".to_string()), unit: None };
    assert!(matches!(merge(&b, &t), MergeOutcome::Unmergeable));
}

#[test]
fn scale_composition_on_values() {
    // Scaling by 2 then by 3 equals scaling once by 6.
    let q = qty(100, 1, Some("g"));
    let s1 = Rational::new(2, 1);
    let s2 = Rational::new(3, 1);
    let once = scale_quantity(&q, Rational::new(6, 1)).unwrap();
    let twice = scale_quantity(&scale_quantity(&q, s1).unwrap(), s2).unwrap();
    match (once.amount, twice.amount) {
        (Amount::Number(x), Amount::Number(y)) => {
            assert_eq!(x.num as i128 * y.den as i128, y.num as i128 * x.den as i128);
        }
        _ => panic!("expected numbers"),
    }
}

#[test]
fn text_amounts_do_not_scale() {
    let q = Quantity { amount: Amount::Text("to taste".to_string()), unit: None };
    let scaled = scale_quantity(&q, Rational::new(5, 1)).unwrap();
    assert!(matches!(scaled.amount, Amount::Text(t) if t == "to taste"));
}

#[test]
fn grouped_add_orders_agree() {
    let contributions = [qty(1, 2, Some("ml")), qty(1, 3, Some("ml")), qty(1, 6, Some("ml"))];
    let mut forward = GroupedQuantity::new();
    for q in contributions.iter() {
        forward.add(q).unwrap();
    }
    let mut backward = GroupedQuantity::new();
    for q in contributions.iter().rev() {
        backward.add(q).unwrap();
    }
    let f = forward.quantities();
    let b = backward.quantities();
    assert_eq!(f.len(), 1);
    assert_eq!(b.len(), 1);
    match (&f[0].amount, &b[0].amount) {
        (Amount::Number(x), Amount::Number(y)) => {
            assert_eq!(x.num as i128 * y.den as i128, y.num as i128 * x.den as i128);
        }
        _ => panic!("expected numbers"),
    }
}

#[test]
fn accumulator_no_quantity_entry_appears_once() {
    let mut list = IngredientList::new();
    list.add_ingredient("garnish".to_string(), None).unwrap();
    list.add_ingredient("garnish".to_string(), None).unwrap();
    let sorted = list.into_sorted();
    assert_eq!(sorted.len(), 1);
    assert!(sorted.items()[0].quantities.is_empty());
}

#[test]
fn pantry_partition() {
    let items = vec![item("eggs"), item("flour"), item("milk"), item("butter")];
    let pantry = vec!["flour".to_string(), "butter".to_string()];
    let buy = excluding_pantry(&items, &pantry);
    let have = from_pantry(&items, &pantry);
    assert_eq!(names(&buy), vec!["eggs".to_string(), "milk".to_string()]);
    assert_eq!(names(&have), vec!["flour".to_string(), "butter".to_string()]);
}

#[test]
fn pantry_empty_rules() {
    let items = vec![item("eggs"), item("milk")];
    let pantry: Vec<String> = vec![];
    assert_eq!(names(&excluding_pantry(&items, &pantry)), vec!["eggs".to_string(), "milk".to_string()]);
    assert_eq!(names(&from_pantry(&items, &pantry)), Vec::<String>::new());
}

#[test]
fn aisle_grouping() {
    let items = vec![item("eggs"), item("milk"), item("flour"), item("saffron")];
    let rules = AisleRules {
        categories: vec![
            AisleCategory {
                name: "dairy".to_string(),
                members: vec!["milk".to_string(), "eggs".to_string()],
            },
            AisleCategory { name: "grains".to_string(), members: vec!["flour".to_string()] },
        ],
    };
    let grouped = aisled(&items, &rules);
    let summary: Vec<(String, Vec<String>)> =
        grouped.iter().map(|(c, l)| (c.clone(), names(l))).collect();
    assert_eq!(
        summary,
        vec![
            ("dairy".to_string(), vec!["eggs".to_string(), "milk".to_string()]),
            ("grains".to_string(), vec!["flour".to_string()]),
            ("other".to_string(), vec!["saffron".to_string()]),
        ]
    );
}

#[test]
fn aisle_without_rules_puts_everything_in_other() {
    let items = vec![item("eggs"), item("milk")];
    let rules = AisleRules { categories: vec![] };
    let grouped = aisled(&items, &rules);
    assert_eq!(grouped.len(), 1);
    assert_eq!(grouped[0].0, "other");
    assert_eq!(names(&grouped[0].1), vec!["eggs".to_string(), "milk".to_string()]);
}

#[test]
fn grouped_quantity_renders_comma_joined() {
    let g = GroupedQuantity::from_quantities(vec![qty(6, 1, Some("large")), qty(4, 1, None)]);
    let entry = IngredientListItem::new("eggs".to_string(), g);
    assert_eq!(entry.quantities_str(), "6 large, 4");
    assert_eq!(entry.display_string(), "eggs: 6 large, 4");
    assert!(!entry.quantities.is_empty());
}
