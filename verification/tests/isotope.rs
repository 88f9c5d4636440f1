use ringo::errors::ParseError;
use ringo::smiles::isotope::parse_isotope;

#[test]
fn parse_isotope_empty() {
    assert_eq!(parse_isotope(""), Err(ParseError::ExpectedDigit));
}

#[test]
fn parse_isotope_2() {
    assert_eq!(parse_isotope("2").unwrap().1, 2);
}

#[test]
fn parse_isotope_12() {
    assert_eq!(parse_isotope("12").unwrap().1, 12);
}
