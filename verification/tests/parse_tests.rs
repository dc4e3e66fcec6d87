//! Parsing catalog rows and dependency encodings.

use prodplan::error::Error;
use prodplan::product::{build_dependencies, parse_craft_type, CraftType, ProductRow};
use prodplan::text::{parse_ratio, parse_u32};

#[test]
fn parse_whole_number() {
    let v = parse_ratio("2").unwrap();
    assert_eq!((v.num(), v.den()), (2, 1));
}

#[test]
fn parse_decimal_is_exact() {
    let v = parse_ratio("3.2").unwrap();
    assert_eq!((v.num(), v.den()), (16, 5));
}

#[test]
fn parse_leading_and_trailing_point_forms() {
    let v = parse_ratio(".5").unwrap();
    assert_eq!((v.num(), v.den()), (1, 2));
    let w = parse_ratio("5.").unwrap();
    assert_eq!((w.num(), w.den()), (5, 1));
}

#[test]
fn parse_rejects_bad_numerals() {
    assert!(matches!(parse_ratio(""), Err(Error::MalformedInput(_))));
    assert!(matches!(parse_ratio("."), Err(Error::MalformedInput(_))));
    assert!(matches!(parse_ratio("1.2.3"), Err(Error::MalformedInput(_))));
    assert!(matches!(parse_ratio("abc"), Err(Error::MalformedInput(_))));
    assert!(matches!(parse_ratio("-1"), Err(Error::MalformedInput(_))));
}

#[test]
fn parse_rejects_values_out_of_range() {
    assert!(matches!(parse_ratio("4294967296"), Err(Error::ValueOverflow)));
    // 1/(10^10) cannot reduce into u32 components.
    assert!(matches!(parse_ratio("0.0000000001"), Err(Error::ValueOverflow)));
}

#[test]
fn parse_u32_whole_numbers() {
    assert_eq!(parse_u32("17").unwrap(), 17);
    assert!(matches!(parse_u32(""), Err(Error::MalformedInput(_))));
    assert!(matches!(parse_u32("1x"), Err(Error::MalformedInput(_))));
    assert!(matches!(parse_u32("4294967296"), Err(Error::ValueOverflow)));
}

#[test]
fn craft_type_names() {
    assert_eq!(parse_craft_type("Ore"), Some(CraftType::Ore));
    assert_eq!(parse_craft_type("Smelt"), Some(CraftType::Smelt));
    assert_eq!(parse_craft_type("Assemble"), Some(CraftType::Assemble));
    assert_eq!(parse_craft_type("Chemical"), Some(CraftType::Chemical));
    assert_eq!(parse_craft_type("Silo"), Some(CraftType::Silo));
    assert_eq!(parse_craft_type("Launch"), Some(CraftType::Launch));
    assert_eq!(parse_craft_type("Furnace"), None);
}

#[test]
fn dependencies_parse_in_order() {
    let deps = build_dependencies("iron_plate:2;copper_wire:1.5").unwrap();
    assert_eq!(deps.len(), 2);
    assert_eq!(deps[0].id, "iron_plate");
    assert_eq!((deps[0].quantity.num(), deps[0].quantity.den()), (2, 1));
    assert_eq!(deps[1].id, "copper_wire");
    assert_eq!((deps[1].quantity.num(), deps[1].quantity.den()), (3, 2));
}

#[test]
fn empty_dependencies_are_allowed() {
    let deps = build_dependencies("").unwrap();
    assert_eq!(deps.len(), 0);
}

#[test]
fn later_record_for_an_identifier_wins() {
    let deps = build_dependencies("a:2;a:3").unwrap();
    assert_eq!(deps.len(), 1);
    assert_eq!((deps[0].quantity.num(), deps[0].quantity.den()), (3, 1));
}

#[test]
fn wrong_arity_is_malformed() {
    assert!(matches!(build_dependencies("a"), Err(Error::MalformedInput(_))));
    assert!(matches!(build_dependencies("a:1:2"), Err(Error::MalformedInput(_))));
    assert!(matches!(build_dependencies("a:1;;b:2"), Err(Error::MalformedInput(_))));
}

#[test]
fn non_numeric_quantity_is_malformed() {
    match build_dependencies("a:xx") {
        Err(Error::MalformedInput(f)) => assert_eq!(f, "xx"),
        other => panic!("unexpected: {:?}", other),
    }
}

#[test]
fn row_into_domain() {
    let row = ProductRow {
        id: "gear".to_string(),
        name: "Iron Gear".to_string(),
        craft_duration: "0.5".to_string(),
        craft_type: "Assemble".to_string(),
        quantity: "1".to_string(),
        dependencies: "iron_plate:2".to_string(),
    };
    let p = row.into_domain().unwrap();
    assert_eq!(p.id, "gear");
    assert_eq!(p.name, "Iron Gear");
    assert_eq!((p.craft_duration.num(), p.craft_duration.den()), (1, 2));
    assert_eq!(p.craft_type, CraftType::Assemble);
    assert_eq!(p.quantity, 1);
    assert_eq!(p.dependencies.len(), 1);
}

#[test]
fn row_rejects_unknown_craft_type() {
    let row = ProductRow {
        id: "x".to_string(),
        name: "X".to_string(),
        craft_duration: "1".to_string(),
        craft_type: "Bake".to_string(),
        quantity: "1".to_string(),
        dependencies: "".to_string(),
    };
    assert!(matches!(row.into_domain(), Err(Error::MalformedInput(_))));
}

#[test]
fn row_rejects_zero_quantity() {
    let row = ProductRow {
        id: "x".to_string(),
        name: "X".to_string(),
        craft_duration: "1".to_string(),
        craft_type: "Ore".to_string(),
        quantity: "0".to_string(),
        dependencies: "".to_string(),
    };
    assert!(matches!(row.into_domain(), Err(Error::MalformedInput(_))));
}
