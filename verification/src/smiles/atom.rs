use vstd::prelude::*;
use vstd::string::StrSliceExecFns;
use crate::errors::ParseError;
use crate::model::{Atom, Element, Chirality};
use crate::smiles::element::{spec_parse_element, parse_element_at};
use crate::smiles::isotope::{spec_parse_isotope, parse_isotope_at};
use crate::smiles::chirality::{spec_parse_chirality, parse_chirality_at};
use crate::smiles::hydrogens::{spec_parse_hydrogens, parse_hydrogens_at};
use crate::smiles::charge::{spec_parse_charge, parse_charge_at};

verus! {

/// An atom token at position `i`.  A bare element symbol is a plain atom; a
/// `[` opens a bracket atom holding, in order, an optional isotope number,
/// the element symbol, an optional stereo tag, an optional hydrogen count,
/// an optional charge, and a mandatory closing `]`.  A missing element is no
/// match (`Ok(None)`, nothing consumed); an opened bracket that is not
/// closed is a hard structural error.
pub open spec fn spec_parse_atom(s: Seq<char>, i: int) -> Result<Option<(int, Atom)>, ParseError> {
    let bracket = i < s.len() && s[i] == '[';
    let j0 = if bracket {
        i + 1
    } else {
        i
    };
    let iso_r = if bracket {
        spec_parse_isotope(s, j0)
    } else {
        Option::None
    };
    let j1 = if iso_r is Some {
        iso_r->Some_0.0
    } else {
        j0
    };
    let isotope: u8 = if iso_r is Some {
        iso_r->Some_0.1
    } else {
        0
    };
    match spec_parse_element(s, j1) {
        Option::None => Ok(Option::None),
        Option::Some((j2, an)) => {
            if !bracket {
                Ok(Option::Some((j2, Atom {
                    element: Element { atomic_number: an },
                    isotope: 0,
                    charge: 0,
                    hs: 0,
                    chirality: Chirality::Unspecified,
                })))
            } else {
                let (j3, chi) = spec_parse_chirality(s, j2);
                let hs_r = spec_parse_hydrogens(s, j3);
                let j4 = if hs_r is Some {
                    hs_r->Some_0.0
                } else {
                    j3
                };
                let hs: u8 = if hs_r is Some {
                    hs_r->Some_0.1
                } else {
                    0
                };
                let chg_r = spec_parse_charge(s, j4);
                let j5 = if chg_r is Some {
                    chg_r->Some_0.0
                } else {
                    j4
                };
                let charge: i8 = if chg_r is Some {
                    chg_r->Some_0.1
                } else {
                    0
                };
                if j5 < s.len() && s[j5] == ']' {
                    Ok(Option::Some((j5 + 1, Atom {
                        element: Element { atomic_number: an },
                        isotope,
                        charge,
                        hs,
                        chirality: chi,
                    })))
                } else {
                    Err(ParseError::MismatchedBracket)
                }
            }
        },
    }
}

pub(crate) fn parse_atom_at(s: &str, n: usize, i: usize) -> (r: Result<
    Option<(usize, Atom)>,
    ParseError,
>)
    requires
        n == s@.len(),
        i <= n,
    ensures
        match r {
            Ok(Option::Some((j, a))) => spec_parse_atom(s@, i as int) == Ok::<_, ParseError>(
                Option::Some((j as int, a)),
            ) && i < j <= n,
            Ok(Option::None) => spec_parse_atom(s@, i as int) == Ok::<Option<(int, Atom)>,
                ParseError,
            >(Option::None),
            Err(e) => spec_parse_atom(s@, i as int) == Err::<Option<(int, Atom)>, ParseError>(e),
        },
{
    let bracket = i < n && s.get_char(i) == '[';
    let j0 = if bracket {
        i + 1
    } else {
        i
    };
    let mut isotope: u8 = 0;
    let mut j1 = j0;
    if bracket {
        match parse_isotope_at(s, n, j0) {
            Some((j, v)) => {
                j1 = j;
                isotope = v;
            },
            None => {},
        }
    }
    match parse_element_at(s, n, j1) {
        None => Ok(None),
        Some((j2, an)) => {
            if !bracket {
                Ok(Some((j2, Atom {
                    element: Element { atomic_number: an },
                    isotope: 0,
                    charge: 0,
                    hs: 0,
                    chirality: Chirality::Unspecified,
                })))
            } else {
                let (j3, chi) = parse_chirality_at(s, n, j2);
                let mut hs: u8 = 0;
                let mut j4 = j3;
                match parse_hydrogens_at(s, n, j3) {
                    Some((j, v)) => {
                        j4 = j;
                        hs = v;
                    },
                    None => {},
                }
                let mut charge: i8 = 0;
                let mut j5 = j4;
                match parse_charge_at(s, n, j4) {
                    Some((j, v)) => {
                        j5 = j;
                        charge = v;
                    },
                    None => {},
                }
                if j5 < n && s.get_char(j5) == ']' {
                    Ok(Some((j5 + 1, Atom {
                        element: Element { atomic_number: an },
                        isotope,
                        charge,
                        hs,
                        chirality: chi,
                    })))
                } else {
                    Err(ParseError::MismatchedBracket)
                }
            }
        },
    }
}

/// Parses an atom token at the start of the input, returning the remaining
/// input and the atom.
pub fn parse_atom(input: &str) -> (r: Result<(&str, Atom), ParseError>)
    ensures
        match r {
            Ok((rest, a)) => {
                &&& spec_parse_atom(input@, 0) matches Ok(ao) && ao matches Some((j, a2)) && a2
                    == a && rest@ == input@.subrange(j, input@.len() as int)
            },
            Err(e) => (spec_parse_atom(input@, 0) == Ok::<Option<(int, Atom)>, ParseError>(
                Option::None,
            ) && e == ParseError::ExpectedElement) || spec_parse_atom(input@, 0) == Err::<
                Option<(int, Atom)>,
                ParseError,
            >(e),
        },
{
    let n = input.unicode_len();
    match parse_atom_at(input, n, 0) {
        Ok(Some((j, a))) => Ok((input.substring_char(j, n), a)),
        Ok(None) => Err(ParseError::ExpectedElement),
        Err(e) => Err(e),
    }
}

} // verus!
