use ringo::model::{Atom, Bond, BondDirection, BondOrder, Chirality, Element};

#[test]
fn test_bond_order() {
    let bond = Bond {
        order: BondOrder::Single,
        direction: BondDirection::Unspecified,
    };
    assert_eq!(bond.order, BondOrder::Single);
    assert_eq!(bond.direction, BondDirection::Unspecified);
}

#[test]
fn test_atom() {
    let atom = Atom {
        element: Element { atomic_number: 6 },
        isotope: 12,
        charge: 0,
        hs: 0,
        chirality: Chirality::Unspecified,
    };
    assert_eq!(atom.element, Element { atomic_number: 6 });
    assert_eq!(atom.isotope, 12);
    assert_eq!(atom.charge, 0);
    assert_eq!(atom.hs, 0);
}
