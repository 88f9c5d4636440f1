use ringo::model::Chirality;
use ringo::smiles::chirality::parse_chirality;

#[test]
fn test_parse_chirality_unspecified() {
    let (remaining_input, chirality) = parse_chirality("H]");
    assert_eq!(chirality, Chirality::Unspecified);
    assert_eq!(remaining_input, "H]");
}

#[test]
fn test_parse_chirality_anticlockwise() {
    let (remaining_input, chirality) = parse_chirality("@H]");
    assert_eq!(chirality, Chirality::Anticlockwise);
    assert_eq!(remaining_input, "H]");
}

#[test]
fn test_parse_chirality_clockwise() {
    let (remaining_input, chirality) = parse_chirality("@@H]");
    assert_eq!(chirality, Chirality::Clockwise);
    assert_eq!(remaining_input, "H]");
}
