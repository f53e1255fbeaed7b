use cooklang_reports::numeric::{parse_numeric, quantity_from_text};
use cooklang_reports::quantity::Amount;

fn test(num: i64, den: i64, actual: &str) {
    let r = parse_numeric(actual).unwrap();
    assert_eq!(r.num as i128 * den as i128, num as i128 * r.den as i128);
}

#[test]
fn integer() {
    test(42, 1, "42");
}

#[test]
fn float() {
    test(4254, 100, "42.54");
}

#[test]
fn fraction() {
    test(1, 2, "1/2");
}

#[test]
fn integer_with_text() {
    test(42, 1, "42oz");
    test(42, 1, "42 ounces");
}

#[test]
fn float_with_text() {
    test(4254, 100, "42.54c");
    test(4254, 100, "42.54 cups");
    test(4254, 100, "42.54 cup.units");
}

#[test]
fn fraction_with_text() {
    test(1, 2, "1/2tsp");
    test(1, 2, "1/2 teaspoon");
    test(1, 2, "1/2 tea/spoons");
}

#[test]
fn err_non_numeric() {
    assert!(parse_numeric("pinch, single").is_none());
    assert!(parse_numeric("pi2nch, single").is_none());
    assert!(parse_numeric("pinch, 3single").is_none());
}

#[test]
fn divide_by_zero() {
    assert!(parse_numeric("1/0").is_none());
}

#[test]
fn quantity_value_number() {
    let q = quantity_from_text("2.5", Some("kg".to_string()));
    match q.amount {
        Amount::Number(r) => assert_eq!(r.num as i128 * 2, 5 * r.den as i128),
        _ => panic!("expected a number"),
    }
    assert_eq!(q.unit.as_deref(), Some("kg"));
}

#[test]
fn quantity_value_range() {
    let q = quantity_from_text("1-2", None);
    match q.amount {
        Amount::Range(lo, hi) => {
            assert_eq!(lo.num, 1);
            assert_eq!(lo.den, 1);
            assert_eq!(hi.num, 2);
            assert_eq!(hi.den, 1);
        }
        _ => panic!("expected a range"),
    }
}

#[test]
fn quantity_value_text() {
    let q = quantity_from_text("a pinch", None);
    match q.amount {
        Amount::Text(t) => assert_eq!(t, "a pinch"),
        _ => panic!("expected free text"),
    }
}
