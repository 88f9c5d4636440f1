use ringo::errors::ParseError;
use ringo::smiles::hydrogens::parse_hydrogens;

#[test]
fn parse_hydrogens_empty() {
    assert_eq!(parse_hydrogens(""), Err(ParseError::ExpectedHydrogen));
}

#[test]
fn parse_hydrogens_h() {
    assert_eq!(parse_hydrogens("H").unwrap().1, 1);
}

#[test]
fn parse_hydrogens_h1() {
    assert_eq!(parse_hydrogens("H1").unwrap().1, 1);
}

#[test]
fn parse_hydrogens_h2() {
    assert_eq!(parse_hydrogens("H2").unwrap().1, 2);
}

#[test]
fn parse_hydrogens_ha() {
    assert_eq!(parse_hydrogens("Ha").unwrap(), ("a", 1));
}
