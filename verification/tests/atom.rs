use ringo::model::Chirality;
use ringo::smiles::atom::parse_atom;

fn do_test_parse_atom(
    input: &str,
    atomic_number: u8,
    charge: i8,
    hs: u8,
    isotope: u8,
    chirality: Chirality,
) {
    let (remaining_input, atom) = parse_atom(input).unwrap();
    assert_eq!(atom.element.atomic_number, atomic_number);
    assert_eq!(atom.isotope, isotope);
    assert_eq!(atom.charge, charge);
    assert_eq!(atom.hs, hs);
    assert_eq!(atom.chirality, chirality);
    assert_eq!(remaining_input, "");
}

#[test]
fn parse_atom_c() {
    do_test_parse_atom("C", 6, 0, 0, 0, Chirality::Unspecified);
}

#[test]
fn parse_atom_n_plus() {
    do_test_parse_atom("[N+]", 7, 1, 0, 0, Chirality::Unspecified);
}

#[test]
fn parse_atom_o_minus_1() {
    do_test_parse_atom("[O-1]", 8, -1, 0, 0, Chirality::Unspecified);
}

#[test]
fn parse_atom_nh2() {
    do_test_parse_atom("[NH2]", 7, 0, 2, 0, Chirality::Unspecified);
}

#[test]
fn parse_atom_cl_minus_1() {
    do_test_parse_atom("[Cl-1]", 17, -1, 0, 0, Chirality::Unspecified);
}

#[test]
fn parse_atom_cl_minus_minus() {
    do_test_parse_atom("[Cl--]", 17, -2, 0, 0, Chirality::Unspecified);
}

#[test]
fn parse_atom_13_c_h3_minus() {
    do_test_parse_atom("[13CH3-]", 6, -1, 3, 13, Chirality::Unspecified);
}

#[test]
fn parse_atom_13_c_h3_minus_incorrect_closing() {
    assert!(parse_atom("[13CH3-C").is_err())
}

#[test]
fn parse_atom_chiral() {
    do_test_parse_atom("[C@@H]", 6, 0, 1, 0, Chirality::Clockwise);
}

#[test]
fn atom_parse_atom_c() {
    do_test_parse_atom("C", 6, 0, 0, 0, Chirality::Unspecified);
}

#[test]
fn atom_parse_atom_n_plus() {
    do_test_parse_atom("[N+]", 7, 1, 0, 0, Chirality::Unspecified);
}

#[test]
fn atom_parse_atom_o_minus_1() {
    do_test_parse_atom("[O-1]", 8, -1, 0, 0, Chirality::Unspecified);
}

#[test]
fn atom_parse_atom_nh2() {
    do_test_parse_atom("[NH2]", 7, 0, 2, 0, Chirality::Unspecified);
}

#[test]
fn atom_parse_atom_cl_minus_1() {
    do_test_parse_atom("[Cl-1]", 17, -1, 0, 0, Chirality::Unspecified);
}

#[test]
fn atom_parse_atom_cl_minus_minus() {
    do_test_parse_atom("[Cl--]", 17, -2, 0, 0, Chirality::Unspecified);
}

#[test]
fn atom_parse_atom_13_c_h3_minus() {
    do_test_parse_atom("[13CH3-]", 6, -1, 3, 13, Chirality::Unspecified);
}

#[test]
fn atom_parse_atom_13_c_h3_minus_incorrect_closing() {
    assert!(parse_atom("[13CH3-C").is_err())
}
