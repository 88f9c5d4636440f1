pub mod scan;
pub mod element;
pub mod isotope;
pub mod chirality;
pub mod bond;
pub mod charge;
pub mod hydrogens;
pub mod atom;
pub mod molecule;
