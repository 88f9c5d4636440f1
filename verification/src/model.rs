use vstd::prelude::*;

verus! {

/// An atomic species, identified by its atomic number.
#[derive(Debug, Eq, PartialEq, Hash, Clone, Copy)]
pub struct Element {
    pub atomic_number: u8,
}

/// Stereo configuration tag of an atom, as written in the line notation.
#[derive(Debug, Eq, PartialEq, Clone, Copy)]
pub enum Chirality {
    Unspecified,
    Clockwise,
    Anticlockwise,
}

/// Bond multiplicity.
#[derive(Debug, Eq, PartialEq, Clone, Copy)]
pub enum BondOrder {
    Single,
    Double,
    Triple,
    Aromatic,
}

/// Directional marker on a single bond, used for cis-trans notation.
#[derive(Debug, Eq, PartialEq, Clone, Copy)]
pub enum BondDirection {
    Unspecified,
    Up,
    Down,
    Either,
}

/// A bond label: order plus an optional directional marker.
#[derive(Debug, Eq, PartialEq, Clone, Copy)]
pub struct Bond {
    pub order: BondOrder,
    pub direction: BondDirection,
}

/// An atom label: element, isotope (0 = natural abundance), formal charge,
/// explicit hydrogen count and stereo tag.
#[derive(Debug, Eq, PartialEq, Clone, Copy)]
pub struct Atom {
    pub element: Element,
    pub isotope: u8,
    pub charge: i8,
    pub hs: u8,
    pub chirality: Chirality,
}

/// The byte that a bond order contributes to the fingerprint hash stream.
pub open spec fn spec_bond_order_code(o: BondOrder) -> u8 {
    match o {
        BondOrder::Single => 0,
        BondOrder::Double => 1,
        BondOrder::Triple => 2,
        BondOrder::Aromatic => 3,
    }
}

pub fn bond_order_code(o: BondOrder) -> (r: u8)
    ensures
        r == spec_bond_order_code(o),
{
    match o {
        BondOrder::Single => 0,
        BondOrder::Double => 1,
        BondOrder::Triple => 2,
        BondOrder::Aromatic => 3,
    }
}

} // verus!
