//! The demand vector.

use prodplan::demand::Demand;
use prodplan::error::Error;
use prodplan::rat::Ratio;

#[test]
fn absent_identifiers_read_as_zero() {
    let d = Demand::new();
    assert!(d.get("anything").is_zero());
}

#[test]
fn set_records_and_replaces() {
    let mut d = Demand::new();
    d.set("a", Ratio::new(3, 2).unwrap());
    assert_eq!((d.get("a").num(), d.get("a").den()), (3, 2));
    d.set("a", Ratio::new(1, 4).unwrap());
    assert_eq!((d.get("a").num(), d.get("a").den()), (1, 4));
    assert_eq!(d.len(), 1);
}

#[test]
fn add_to_accumulates_exactly() {
    let mut d = Demand::new();
    d.add_to("a", Ratio::new(1, 3).unwrap()).unwrap();
    d.add_to("a", Ratio::new(1, 6).unwrap()).unwrap();
    assert_eq!((d.get("a").num(), d.get("a").den()), (1, 2));
}

#[test]
fn add_to_fails_on_unrepresentable_sums() {
    let mut d = Demand::new();
    d.set("a", Ratio::new(4294967291, 1).unwrap());
    let r = d.add_to("a", Ratio::new(1, 2).unwrap());
    assert!(matches!(r, Err(Error::ValueOverflow)));
    // The vector is unchanged after the failed attempt.
    assert_eq!((d.get("a").num(), d.get("a").den()), (4294967291, 1));
}

#[test]
fn duplicate_copies_all_entries() {
    let mut d = Demand::new();
    d.set("a", Ratio::new(1, 2).unwrap());
    d.set("b", Ratio::new(5, 1).unwrap());
    let c = d.duplicate();
    assert_eq!(c.len(), 2);
    assert_eq!((c.get("a").num(), c.get("a").den()), (1, 2));
    assert_eq!((c.get("b").num(), c.get("b").den()), (5, 1));
    let e = c.entry_at(0);
    assert_eq!(e.0, "a");
}
