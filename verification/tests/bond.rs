use ringo::model::{BondDirection, BondOrder};
use ringo::smiles::bond::parse_bond;

#[test]
fn parse_bond_empty() {
    assert!(parse_bond("").is_err())
}

#[test]
fn parse_bond_single() {
    assert_eq!(parse_bond("-").unwrap().1.order, BondOrder::Single);
}

#[test]
fn parse_bond_double() {
    assert_eq!(parse_bond("=").unwrap().1.order, BondOrder::Double);
}

#[test]
fn parse_bond_triple() {
    assert_eq!(parse_bond("#").unwrap().1.order, BondOrder::Triple);
}

#[test]
fn parse_bond_aromatic() {
    assert_eq!(parse_bond(":").unwrap().1.order, BondOrder::Aromatic);
}

#[test]
fn parse_bond_cistrans_up() {
    let bond = parse_bond("/").unwrap().1;
    assert_eq!(bond.order, BondOrder::Single);
    assert_eq!(bond.direction, BondDirection::Up);
}

#[test]
fn parse_bond_cistrans_down() {
    let bond = parse_bond(r"\").unwrap().1;
    assert_eq!(bond.order, BondOrder::Single);
    assert_eq!(bond.direction, BondDirection::Down);
}

#[test]
fn bond_parse_bond_empty() {
    assert!(parse_bond("").is_err())
}

#[test]
fn bond_parse_bond_single() {
    assert_eq!(parse_bond("-").unwrap().1.order, BondOrder::Single);
}

#[test]
fn bond_parse_bond_double() {
    assert_eq!(parse_bond("=").unwrap().1.order, BondOrder::Double);
}

#[test]
fn bond_parse_bond_triple() {
    assert_eq!(parse_bond("#").unwrap().1.order, BondOrder::Triple);
}

#[test]
fn bond_parse_bond_aromatic() {
    assert_eq!(parse_bond(":").unwrap().1.order, BondOrder::Aromatic);
}
