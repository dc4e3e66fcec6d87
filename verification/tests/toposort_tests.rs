//! Topological ordering and cycle detection.

use prodplan::error::Error;
use prodplan::product::{Product, ProductRow};
use prodplan::toposort::topological_sort;

fn item(id: &str, deps: &str) -> Product {
    ProductRow {
        id: id.to_string(),
        name: id.to_string(),
        craft_duration: "1".to_string(),
        craft_type: "Assemble".to_string(),
        quantity: "1".to_string(),
        dependencies: deps.to_string(),
    }
    .into_domain()
    .unwrap()
}

fn ids(products: &[Product]) -> Vec<String> {
    products.iter().map(|p| p.id.clone()).collect()
}

#[test]
fn dependencies_come_before_dependents() {
    let catalog = vec![item("gear", "plate:2"), item("plate", "ore:2"), item("ore", "")];
    let sorted = topological_sort(&catalog).unwrap();
    assert_eq!(ids(&sorted), vec!["ore", "plate", "gear"]);
}

#[test]
fn every_item_appears_exactly_once() {
    // An isolated item takes part in the order too.
    let catalog = vec![item("lone", ""), item("gear", "plate:2"), item("plate", "")];
    let sorted = topological_sort(&catalog).unwrap();
    let mut got = ids(&sorted);
    got.sort();
    assert_eq!(got, vec!["gear", "lone", "plate"]);
    assert_eq!(sorted.len(), 3);
}

#[test]
fn declaration_order_breaks_ties() {
    let catalog = vec![item("child", ""), item("parent", "child:1")];
    let sorted = topological_sort(&catalog).unwrap();
    assert_eq!(ids(&sorted), vec!["child", "parent"]);

    let catalog2 = vec![item("parent", "child:1"), item("child", "")];
    let sorted2 = topological_sort(&catalog2).unwrap();
    assert_eq!(ids(&sorted2), vec!["child", "parent"]);
}

#[test]
fn rerunning_yields_the_identical_sequence() {
    let catalog = vec![
        item("a", "b:1;c:2"),
        item("b", "d:1"),
        item("c", "d:3"),
        item("d", ""),
        item("e", "a:1"),
    ];
    let first = ids(&topological_sort(&catalog).unwrap());
    let second = ids(&topological_sort(&catalog).unwrap());
    assert_eq!(first, second);
}

#[test]
fn a_cycle_is_reported_and_no_order_returned() {
    let catalog = vec![item("a", "b:1"), item("b", "a:1")];
    match topological_sort(&catalog) {
        Err(Error::Cycle(id)) => assert!(id == "a" || id == "b"),
        other => panic!("unexpected: {:?}", other),
    }
}

#[test]
fn a_self_dependency_is_a_cycle() {
    let catalog = vec![item("a", "a:1")];
    assert!(matches!(topological_sort(&catalog), Err(Error::Cycle(_))));
}

#[test]
fn unknown_dependencies_do_not_block_the_sort() {
    let catalog = vec![item("a", "ghost:1")];
    let sorted = topological_sort(&catalog).unwrap();
    assert_eq!(ids(&sorted), vec!["a"]);
}
