//! Facilities, modules, and the technology status.

use prodplan::error::Error;
use prodplan::module::{Module, ModuleList};
use prodplan::product::{CraftType, ProductRow};
use prodplan::rat::Ratio;
use prodplan::tech::{Assembler, CraftTech, CraftTechStatus, Furnace, Miner, SimpleCraftTech};

#[test]
fn module_bonuses_in_hundredths() {
    assert_eq!(Module::Speed1.speed_bonus(), 20);
    assert_eq!(Module::Speed3.speed_bonus(), 50);
    assert_eq!(Module::Productivity3.speed_bonus(), -15);
    assert_eq!(Module::Productivity1.productivity_bonus(), 4);
    assert_eq!(Module::Speed2.productivity_bonus(), 0);
}

#[test]
fn module_list_respects_capacity() {
    let mut l: ModuleList<2> = ModuleList::new();
    assert!(l.add_module(Module::Speed1).is_ok());
    assert!(l.add_module(Module::Speed2).is_ok());
    assert!(matches!(l.add_module(Module::Speed3), Err(Error::Configuration(_))));
    assert_eq!(l.len(), 2);
}

#[test]
fn fifth_module_on_four_slots_fails_and_changes_nothing() {
    let mut tech = CraftTech::Assembler(Assembler::green());
    for _ in 0..4 {
        assert!(tech.add_module(Module::Productivity3).is_ok());
    }
    let r = tech.add_module(Module::Productivity3);
    assert!(matches!(r, Err(Error::Configuration(_))));
    // The loadout still holds exactly four modules: the productivity is
    // unchanged at 1 + 4 * 0.10 = 7/5, the speed at 1.25 * 0.40 = 1/2.
    let p = tech.productivity();
    assert_eq!((p.num(), p.den()), (7, 5));
    let s = tech.speed();
    assert_eq!((s.num(), s.den()), (1, 2));
}

#[test]
fn moduleless_facilities_reject_modules() {
    let mut m = CraftTech::Miner(Miner::Electric);
    assert!(matches!(m.add_module(Module::Speed1), Err(Error::Configuration(_))));
    let mut f = CraftTech::Furnace(Furnace::Stone);
    assert!(matches!(f.add_module(Module::Speed1), Err(Error::Configuration(_))));
    let mut b = CraftTech::Assembler(Assembler::Basic);
    assert!(matches!(b.add_module(Module::Speed1), Err(Error::Configuration(_))));
}

#[test]
fn base_speeds() {
    assert_eq!((CraftTech::Miner(Miner::Burner).speed().num(), CraftTech::Miner(Miner::Burner).speed().den()), (1, 4));
    assert_eq!((CraftTech::Miner(Miner::Electric).speed().num(), CraftTech::Miner(Miner::Electric).speed().den()), (1, 2));
    assert_eq!((CraftTech::Furnace(Furnace::Steel).speed().num(), CraftTech::Furnace(Furnace::Steel).speed().den()), (2, 1));
    let blue = CraftTech::Assembler(Assembler::blue());
    assert_eq!((blue.speed().num(), blue.speed().den()), (3, 4));
    let basic = CraftTech::Assembler(Assembler::Basic);
    assert_eq!((basic.speed().num(), basic.speed().den()), (1, 2));
}

#[test]
fn speed_modules_raise_assembler_speed() {
    let mut tech = CraftTech::Assembler(Assembler::blue());
    tech.add_module(Module::Speed1).unwrap();
    tech.add_module(Module::Speed1).unwrap();
    // 0.75 * (1 + 0.2 + 0.2) = 21/20.
    let s = tech.speed();
    assert_eq!((s.num(), s.den()), (21, 20));
}

#[test]
fn facility_names() {
    assert_eq!(CraftTech::Miner(Miner::Burner).name(), "Burner Miner");
    assert_eq!(CraftTech::Furnace(Furnace::Electric).name(), "Electric Furnace");
    assert_eq!(CraftTech::Assembler(Assembler::Basic).name(), "Basic Assembler");
    let mut blue = CraftTech::Assembler(Assembler::blue());
    assert_eq!(blue.name(), "Blue Assembler (..)");
    blue.add_module(Module::Productivity3).unwrap();
    assert_eq!(blue.name(), "Blue Assembler (Pr3.)");
}

#[test]
fn status_defaults_and_overrides() {
    let mut status = CraftTechStatus::new(Miner::Electric, Furnace::Steel, Assembler::blue());
    assert_eq!((status.miner_speed().num(), status.miner_speed().den()), (1, 2));
    assert_eq!((status.furnace_speed().num(), status.furnace_speed().den()), (2, 1));
    assert_eq!((status.assembler_speed().num(), status.assembler_speed().den()), (3, 4));
    assert_eq!((status.chemical_speed().num(), status.chemical_speed().den()), (1, 1));
    assert_eq!((status.silo_speed().num(), status.silo_speed().den()), (1, 1));

    let row = ProductRow {
        id: "plate".to_string(),
        name: "Plate".to_string(),
        craft_duration: "3.2".to_string(),
        craft_type: "Smelt".to_string(),
        quantity: "1".to_string(),
        dependencies: "".to_string(),
    };
    let plate = row.into_domain().unwrap();
    assert_eq!(status.tech_for(&plate).name(), "Steel Furnace");

    status.add_override(
        "plate",
        CraftTech::Simple(SimpleCraftTech::new(
            "Foundry",
            Ratio::new(3, 1).unwrap(),
            Ratio::new(11, 10).unwrap(),
        )),
    );
    assert_eq!(status.tech_for(&plate).name(), "Foundry");
}

#[test]
fn launches_count_as_speed_one() {
    let status = CraftTechStatus::new(Miner::Burner, Furnace::Stone, Assembler::Basic);
    let s = CraftType::Launch.best_craft_speed(&status);
    assert_eq!((s.num(), s.den()), (1, 1));
    assert_eq!(CraftType::Launch.craft_tech(&status).name(), "Rocket Silo");
}
