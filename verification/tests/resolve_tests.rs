//! Demand propagation and plan building, end to end.

use prodplan::demand::Demand;
use prodplan::error::Error;
use prodplan::graph::{classify_edge, Color, Node};
use prodplan::product::{Product, ProductRow};
use prodplan::rat::Ratio;
use prodplan::resolve::resolve;
use prodplan::tech::{Assembler, CraftTech, CraftTechStatus, Furnace, Miner, SimpleCraftTech};

fn item(id: &str, craft_type: &str, duration: &str, quantity: &str, deps: &str) -> Product {
    ProductRow {
        id: id.to_string(),
        name: id.to_string(),
        craft_duration: duration.to_string(),
        craft_type: craft_type.to_string(),
        quantity: quantity.to_string(),
        dependencies: deps.to_string(),
    }
    .into_domain()
    .unwrap()
}

fn default_tech() -> CraftTechStatus {
    CraftTechStatus::new(Miner::Electric, Furnace::Steel, Assembler::blue())
}

fn node_for<'a>(nodes: &'a [Node], id: &str) -> &'a Node {
    nodes.iter().find(|n| n.id == id).expect("node missing")
}

fn seed(pairs: &[(&str, u32, u32)]) -> Demand {
    let mut d = Demand::new();
    for (id, num, den) in pairs {
        d.set(id, Ratio::new(*num, *den).unwrap());
    }
    d
}

#[test]
fn demand_is_conserved_down_a_chain() {
    // A needs 2 B per craft, A yields 1 per craft, no productivity bonus:
    // a seed of 3 A/s demands exactly 6 B/s.
    let catalog = vec![item("a", "Assemble", "1", "1", "b:2"), item("b", "Smelt", "1", "1", "")];
    let (nodes, _) = resolve(&catalog, &seed(&[("a", 3, 1)]), &default_tech()).unwrap();
    let b = node_for(&nodes, "b");
    assert_eq!((b.amount.num(), b.amount.den()), (6, 1));
}

#[test]
fn productivity_divides_upstream_demand() {
    // Same chain, but B's facility has productivity 1.10: 6 / 1.1 = 60/11.
    let catalog = vec![item("a", "Assemble", "1", "1", "b:2"), item("b", "Smelt", "1", "1", "")];
    let mut tech = default_tech();
    tech.add_override(
        "b",
        CraftTech::Simple(SimpleCraftTech::new(
            "Foundry",
            Ratio::new(2, 1).unwrap(),
            Ratio::new(11, 10).unwrap(),
        )),
    );
    let (nodes, _) = resolve(&catalog, &seed(&[("a", 3, 1)]), &tech).unwrap();
    let b = node_for(&nodes, "b");
    assert_eq!((b.amount.num(), b.amount.den()), (60, 11));
}

#[test]
fn facility_count_follows_the_formula() {
    // With throughput 60/11, duration 1, speed 2, quantity 1:
    // 60/11 * 1 / 2 / 1 = 30/11 facilities.
    let catalog = vec![item("a", "Assemble", "1", "1", "b:2"), item("b", "Smelt", "1", "1", "")];
    let mut tech = default_tech();
    tech.add_override(
        "b",
        CraftTech::Simple(SimpleCraftTech::new(
            "Foundry",
            Ratio::new(2, 1).unwrap(),
            Ratio::new(11, 10).unwrap(),
        )),
    );
    let (nodes, _) = resolve(&catalog, &seed(&[("a", 3, 1)]), &tech).unwrap();
    let b = node_for(&nodes, "b");
    assert_eq!((b.source_amount.num(), b.source_amount.den()), (30, 11));
    assert_eq!(b.source_name, "Foundry");
}

#[test]
fn edge_share_boundaries_are_strict() {
    let one = Ratio::one();
    let half = Ratio::new(1, 2).unwrap();
    let quarter = Ratio::new(1, 4).unwrap();
    let just_over_half = Ratio::new(51, 100).unwrap();
    let just_over_quarter = Ratio::new(26, 100).unwrap();
    // Exactly half is medium, not high; exactly a quarter is low.
    assert_eq!(classify_edge(&half, &one), Color::Yellow);
    assert_eq!(classify_edge(&quarter, &one), Color::Green);
    assert_eq!(classify_edge(&just_over_half, &one), Color::Red);
    assert_eq!(classify_edge(&just_over_quarter, &one), Color::Yellow);
}

#[test]
fn phantom_identifiers_never_become_entries() {
    let catalog = vec![item("a", "Assemble", "1", "1", "ghost:1")];
    let (nodes, edges) = resolve(&catalog, &seed(&[("a", 2, 1)]), &default_tech()).unwrap();
    assert!(nodes.iter().all(|n| n.id != "ghost"));
    assert!(edges.iter().all(|e| e.from != "ghost" && e.to != "ghost"));
    assert_eq!(nodes.len(), 1);
    assert_eq!(nodes[0].id, "a");
}

#[test]
fn zero_speed_is_rejected_not_divided_by() {
    let catalog = vec![item("a", "Assemble", "1", "1", "")];
    let mut tech = default_tech();
    tech.add_override(
        "a",
        CraftTech::Simple(SimpleCraftTech::new(
            "Stalled Plant",
            Ratio::zero(),
            Ratio::one(),
        )),
    );
    match resolve(&catalog, &seed(&[("a", 1, 1)]), &tech) {
        Err(Error::ZeroSpeed(id)) => assert_eq!(id, "a"),
        other => panic!("unexpected: {:?}", other),
    }
}

#[test]
fn a_cyclic_catalog_resolves_to_a_cycle_error() {
    let catalog = vec![item("a", "Assemble", "1", "1", "b:1"), item("b", "Assemble", "1", "1", "a:1")];
    assert!(matches!(
        resolve(&catalog, &seed(&[("a", 1, 1)]), &default_tech()),
        Err(Error::Cycle(_))
    ));
}

#[test]
fn resolving_twice_gives_identical_plans() {
    let catalog = vec![
        item("gear", "Assemble", "0.5", "1", "plate:2"),
        item("plate", "Smelt", "3.2", "1", "raw_ore:2"),
        item("raw_ore", "Ore", "1", "1", ""),
    ];
    let s = seed(&[("gear", 1, 1)]);
    let tech = default_tech();
    let (n1, e1) = resolve(&catalog, &s, &tech).unwrap();
    let (n2, e2) = resolve(&catalog, &s, &tech).unwrap();
    let ids1: Vec<&str> = n1.iter().map(|n| n.id.as_str()).collect();
    let ids2: Vec<&str> = n2.iter().map(|n| n.id.as_str()).collect();
    assert_eq!(ids1, ids2);
    assert_eq!(e1.len(), e2.len());
    for (a, b) in e1.iter().zip(e2.iter()) {
        assert_eq!((a.from.as_str(), a.to.as_str()), (b.from.as_str(), b.to.as_str()));
        assert_eq!((a.amount.num(), a.amount.den()), (b.amount.num(), b.amount.den()));
    }
}

#[test]
fn end_to_end_three_item_chain() {
    // Catalog: RawOre (no deps), Plate (RawOre:2, quantity 1, duration 3.2,
    // smelted), Gear (Plate:2, quantity 1, duration 0.5, assembled).
    // Seed: 1 Gear/s. Expect Plate 2/s and RawOre 4/s.
    let catalog = vec![
        item("RawOre", "Ore", "1", "1", ""),
        item("Plate", "Smelt", "3.2", "1", "RawOre:2"),
        item("Gear", "Assemble", "0.5", "1", "Plate:2"),
    ];
    let tech = default_tech();
    let (nodes, edges) = resolve(&catalog, &seed(&[("Gear", 1, 1)]), &tech).unwrap();

    let gear = node_for(&nodes, "Gear");
    let plate = node_for(&nodes, "Plate");
    let ore = node_for(&nodes, "RawOre");

    assert_eq!((gear.amount.num(), gear.amount.den()), (1, 1));
    assert_eq!((plate.amount.num(), plate.amount.den()), (2, 1));
    assert_eq!((ore.amount.num(), ore.amount.den()), (4, 1));

    // Facility counts: Gear 1*0.5/0.75 = 2/3 blue assemblers, Plate
    // 2*3.2/2 = 16/5 steel furnaces, RawOre 4*1/0.5 = 8 electric miners.
    assert_eq!((gear.source_amount.num(), gear.source_amount.den()), (2, 3));
    assert_eq!(gear.source_name, "Blue Assembler (..)");
    assert_eq!((plate.source_amount.num(), plate.source_amount.den()), (16, 5));
    assert_eq!(plate.source_name, "Steel Furnace");
    assert_eq!((ore.source_amount.num(), ore.source_amount.den()), (8, 1));
    assert_eq!(ore.source_name, "Electric Miner");

    // Nodes come out in resolved order: dependencies first.
    let ids: Vec<&str> = nodes.iter().map(|n| n.id.as_str()).collect();
    assert_eq!(ids, vec!["RawOre", "Plate", "Gear"]);

    // Each item flows entirely into its single consumer: every edge is high
    // load.
    assert_eq!(edges.len(), 2);
    assert_eq!((edges[0].from.as_str(), edges[0].to.as_str()), ("RawOre", "Plate"));
    assert_eq!((edges[0].amount.num(), edges[0].amount.den()), (4, 1));
    assert_eq!(edges[0].color, Color::Red);
    assert_eq!((edges[1].from.as_str(), edges[1].to.as_str()), ("Plate", "Gear"));
    assert_eq!((edges[1].amount.num(), edges[1].amount.den()), (2, 1));
    assert_eq!(edges[1].color, Color::Red);
}

#[test]
fn zero_demand_items_are_dropped() {
    let catalog = vec![item("a", "Assemble", "1", "1", ""), item("b", "Assemble", "1", "1", "")];
    let (nodes, _) = resolve(&catalog, &seed(&[("a", 1, 1)]), &default_tech()).unwrap();
    assert_eq!(nodes.len(), 1);
    assert_eq!(nodes[0].id, "a");
}
