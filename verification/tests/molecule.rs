use ringo::model::{BondOrder, Chirality};
use ringo::smiles::molecule::parse_molecule;

#[test]
fn parse_molecule_empty() {
    let m = parse_molecule("").unwrap().1;
    assert_eq!(m.count_atoms(), 0);
    assert_eq!(m.count_bonds(), 0);
}

#[test]
fn parse_molecule_c() {
    let m = parse_molecule("C").unwrap().1;
    assert_eq!(m.count_atoms(), 1);
    assert_eq!(m.count_bonds(), 0);
    assert_eq!(m.get_atom(0).unwrap().element.atomic_number, 6);
}

#[test]
fn parse_molecule_cc() {
    let m = parse_molecule("CN").unwrap().1;
    assert_eq!(m.count_atoms(), 2);
    assert_eq!(m.count_bonds(), 1);
    assert_eq!(m.get_atom(0).unwrap().element.atomic_number, 6);
    assert_eq!(m.get_atom(1).unwrap().element.atomic_number, 7);
    assert_eq!(m.get_bond(0).unwrap().order, BondOrder::Single);
}

#[test]
fn parse_molecule_branch() {
    let m = parse_molecule("C(O)N").unwrap().1;
    assert_eq!(m.count_atoms(), 3);
    assert_eq!(m.count_bonds(), 2);
    assert_eq!(m.get_atom(0).unwrap().element.atomic_number, 6);
    assert_eq!(m.get_atom(1).unwrap().element.atomic_number, 8);
    assert_eq!(m.get_atom(2).unwrap().element.atomic_number, 7);
    assert_eq!(m.get_bond(0).unwrap().order, BondOrder::Single);
    assert_eq!(m.get_bond(1).unwrap().order, BondOrder::Single);
}

#[test]
fn parse_molecule_c1cc1() {
    let m = parse_molecule("C1P=N#1").unwrap().1;
    assert_eq!(m.count_atoms(), 3);
    assert_eq!(m.count_bonds(), 3);
    assert_eq!(m.get_bond(0).unwrap().order, BondOrder::Single);
    assert_eq!(m.get_bond(1).unwrap().order, BondOrder::Double);
    assert_eq!(m.get_bond(2).unwrap().order, BondOrder::Triple);
    let atom_0_bonds = m.get_bonds_for_atom(0);
    assert_eq!(atom_0_bonds.len(), 2);
    assert_eq!(m.get_bond(atom_0_bonds[0]).unwrap().order, BondOrder::Single);
    assert_eq!(m.get_bond(atom_0_bonds[1]).unwrap().order, BondOrder::Triple);

    let atom_0_neighbors = m.get_neighbors_for_atom(0);
    assert_eq!(atom_0_neighbors.len(), 2);
    assert_eq!(
        m.get_atom(atom_0_neighbors[0]).unwrap().element.atomic_number,
        15
    );
    assert_eq!(
        m.get_atom(atom_0_neighbors[1]).unwrap().element.atomic_number,
        7
    );
}

#[test]
fn parse_molecule_branch_double_bond() {
    let m = parse_molecule("C(=O)N").unwrap().1;
    assert_eq!(m.count_atoms(), 3);
    assert_eq!(m.count_bonds(), 2);
    assert_eq!(m.get_atom(0).unwrap().element.atomic_number, 6);
    assert_eq!(m.get_atom(1).unwrap().element.atomic_number, 8);
    assert_eq!(m.get_atom(2).unwrap().element.atomic_number, 7);
    assert_eq!(m.get_bond_by_atoms(0, 1).unwrap().order, BondOrder::Double);
    assert_eq!(m.get_bond_by_atoms(0, 2).unwrap().order, BondOrder::Single);
}

#[test]
fn parse_molecule_branch_double_bonds() {
    let m = parse_molecule("C(=O)=N").unwrap().1;
    assert_eq!(m.count_atoms(), 3);
    assert_eq!(m.count_bonds(), 2);
    assert_eq!(m.get_atom(0).unwrap().element.atomic_number, 6);
    assert_eq!(m.get_atom(1).unwrap().element.atomic_number, 8);
    assert_eq!(m.get_atom(2).unwrap().element.atomic_number, 7);
    assert_eq!(m.get_bond_by_atoms(0, 1).unwrap().order, BondOrder::Double);
    assert_eq!(m.get_bond_by_atoms(0, 2).unwrap().order, BondOrder::Double);
}

#[test]
fn parse_molecule_branch_recursive() {
    let m = parse_molecule("C(=S(=O)P)N").unwrap().1;
    assert_eq!(m.count_atoms(), 5);
    assert_eq!(m.count_bonds(), 4);
    assert_eq!(m.get_atom(0).unwrap().element.atomic_number, 6);
    assert_eq!(m.get_atom(1).unwrap().element.atomic_number, 16);
    assert_eq!(m.get_atom(2).unwrap().element.atomic_number, 8);
    assert_eq!(m.get_atom(3).unwrap().element.atomic_number, 15);
    assert_eq!(m.get_atom(4).unwrap().element.atomic_number, 7);
    assert_eq!(m.get_bond_by_atoms(0, 1).unwrap().order, BondOrder::Double);
    assert_eq!(m.get_bond_by_atoms(1, 2).unwrap().order, BondOrder::Double);
    assert_eq!(m.get_bond_by_atoms(1, 3).unwrap().order, BondOrder::Single);
    assert_eq!(m.get_bond_by_atoms(0, 4).unwrap().order, BondOrder::Single);
}

#[test]
fn parse_molecule_cycle_double() {
    let m = parse_molecule("N1OC=1S").unwrap().1;
    assert_eq!(m.count_atoms(), 4);
    assert_eq!(m.count_bonds(), 4);
    assert_eq!(m.get_atom(0).unwrap().element.atomic_number, 7);
    assert_eq!(m.get_atom(1).unwrap().element.atomic_number, 8);
    assert_eq!(m.get_atom(2).unwrap().element.atomic_number, 6);
    assert_eq!(m.get_atom(3).unwrap().element.atomic_number, 16);
    assert!(m.has_bond(0, 1));
    assert!(m.get_bond_by_atoms(0, 1).unwrap().order == BondOrder::Single);
    assert!(m.has_bond(1, 2));
    assert!(m.get_bond_by_atoms(1, 2).unwrap().order == BondOrder::Single);
    assert!(m.has_bond(0, 2));
    assert!(m.get_bond_by_atoms(0, 2).unwrap().order == BondOrder::Double);
    assert!(m.has_bond(2, 3));
    assert!(m.get_bond_by_atoms(2, 3).unwrap().order == BondOrder::Single);
}

#[test]
fn parse_molecule_cycle_branch() {
    let m = parse_molecule("N1C(=P)S=1O").unwrap().1;
    assert_eq!(m.count_atoms(), 5);
    assert_eq!(m.count_bonds(), 5);
    assert_eq!(m.get_atom(0).unwrap().element.atomic_number, 7);
    assert_eq!(m.get_atom(1).unwrap().element.atomic_number, 6);
    assert_eq!(m.get_atom(2).unwrap().element.atomic_number, 15);
    assert_eq!(m.get_atom(3).unwrap().element.atomic_number, 16);
    assert_eq!(m.get_atom(4).unwrap().element.atomic_number, 8);
    assert!(m.has_bond(0, 1));
    assert_eq!(m.get_bond_by_atoms(0, 1).unwrap().order, BondOrder::Single);
    assert!(m.has_bond(1, 2));
    assert_eq!(m.get_bond_by_atoms(1, 2).unwrap().order, BondOrder::Double);
    assert!(m.has_bond(1, 3));
    assert_eq!(m.get_bond_by_atoms(1, 3).unwrap().order, BondOrder::Single);
    assert!(m.has_bond(3, 4));
    assert_eq!(m.get_bond_by_atoms(3, 4).unwrap().order, BondOrder::Single);
    assert!(m.has_bond(3, 0));
    assert_eq!(m.get_bond_by_atoms(3, 0).unwrap().order, BondOrder::Double);
}

#[test]
fn test_parse_molecule_c1cc() {
    assert!(parse_molecule("C1CC").is_err())
}

#[test]
fn test_parse_molecule_chiral_anticlockwise() {
    assert!(!parse_molecule("N[C@H](C)C(=O)O").is_err());
}

#[test]
fn test_parse_molecule_chiral_clockwise() {
    assert!(!parse_molecule("N[C@@](F)(C)C(=O)O").is_err());
}

#[test]
fn test_molecule_chiral() {
    let m = parse_molecule("N[C@H](C)C(=O)O").unwrap().1;
    assert_eq!(m.get_atom(1).unwrap().chirality, Chirality::Anticlockwise);
}

#[test]
fn molecule_parse_molecule_empty() {
    let m = parse_molecule("").unwrap().1;
    assert_eq!(m.count_atoms(), 0);
    assert_eq!(m.count_bonds(), 0);
}

#[test]
fn molecule_parse_molecule_c() {
    let m = parse_molecule("C").unwrap().1;
    assert_eq!(m.count_atoms(), 1);
    assert_eq!(m.count_bonds(), 0);
    assert_eq!(m.get_atom(0).unwrap().element.atomic_number, 6);
}

#[test]
fn molecule_parse_molecule_cc() {
    let m = parse_molecule("CN").unwrap().1;
    assert_eq!(m.count_atoms(), 2);
    assert_eq!(m.count_bonds(), 1);
    assert_eq!(m.get_atom(0).unwrap().element.atomic_number, 6);
    assert_eq!(m.get_atom(1).unwrap().element.atomic_number, 7);
    assert_eq!(m.get_bond(0).unwrap().order, BondOrder::Single);
}

#[test]
fn molecule_parse_molecule_c1cc1() {
    let m = parse_molecule("C1P=N#1").unwrap().1;
    assert_eq!(m.count_atoms(), 3);
    assert_eq!(m.count_bonds(), 3);
    assert_eq!(m.get_bond(0).unwrap().order, BondOrder::Single);
    assert_eq!(m.get_bond(1).unwrap().order, BondOrder::Double);
    assert_eq!(m.get_bond(2).unwrap().order, BondOrder::Triple);
}

#[test]
fn molecule_parse_molecule_c1cc() {
    assert!(parse_molecule("C1CC").is_err())
}

#[test]
fn molecule_parse_molecule_branch() {
    let m = parse_molecule("C(O)N").unwrap().1;
    assert_eq!(m.count_atoms(), 3);
    assert_eq!(m.count_bonds(), 2);
}

#[test]
fn molecule_parse_molecule_branch_double_bond() {
    let m = parse_molecule("C(=O)N").unwrap().1;
    assert_eq!(m.get_bond_by_atoms(0, 1).unwrap().order, BondOrder::Double);
    assert_eq!(m.get_bond_by_atoms(0, 2).unwrap().order, BondOrder::Single);
}

#[test]
fn molecule_parse_molecule_branch_double_bonds() {
    let m = parse_molecule("C(=O)=N").unwrap().1;
    assert_eq!(m.get_bond_by_atoms(0, 1).unwrap().order, BondOrder::Double);
    assert_eq!(m.get_bond_by_atoms(0, 2).unwrap().order, BondOrder::Double);
}

#[test]
fn molecule_parse_molecule_branch_recursive() {
    let m = parse_molecule("C(=S(=O)P)N").unwrap().1;
    assert_eq!(m.count_atoms(), 5);
    assert_eq!(m.count_bonds(), 4);
}

#[test]
fn molecule_parse_molecule_cycle_double() {
    let m = parse_molecule("N1OC=1S").unwrap().1;
    assert_eq!(m.count_atoms(), 4);
    assert_eq!(m.count_bonds(), 4);
}

#[test]
fn molecule_parse_molecule_cycle_branch() {
    let m = parse_molecule("N1C(=P)S=1O").unwrap().1;
    assert_eq!(m.count_atoms(), 5);
    assert_eq!(m.count_bonds(), 5);
}
