use vstd::prelude::*;
use vstd::string::StrSliceExecFns;
use crate::errors::ParseError;
use crate::model::{Bond, BondOrder, BondDirection};

verus! {

/// A bond token at position `i`: one of `= # : - / \`, where the two slash
/// forms carry a cis-trans direction on a single bond.
pub open spec fn spec_parse_bond(s: Seq<char>, i: int) -> Option<(int, Bond)> {
    if i >= s.len() {
        None
    } else if s[i] == '=' {
        Some((i + 1, Bond { order: BondOrder::Double, direction: BondDirection::Unspecified }))
    } else if s[i] == '#' {
        Some((i + 1, Bond { order: BondOrder::Triple, direction: BondDirection::Unspecified }))
    } else if s[i] == ':' {
        Some((i + 1, Bond { order: BondOrder::Aromatic, direction: BondDirection::Unspecified }))
    } else if s[i] == '-' {
        Some((i + 1, Bond { order: BondOrder::Single, direction: BondDirection::Unspecified }))
    } else if s[i] == '/' {
        Some((i + 1, Bond { order: BondOrder::Single, direction: BondDirection::Up }))
    } else if s[i] == '\\' {
        Some((i + 1, Bond { order: BondOrder::Single, direction: BondDirection::Down }))
    } else {
        None
    }
}

pub(crate) fn parse_bond_at(s: &str, n: usize, i: usize) -> (r: Option<(usize, Bond)>)
    requires
        n == s@.len(),
        i <= n,
    ensures
        match r {
            Some((j, b)) => spec_parse_bond(s@, i as int) == Some((j as int, b)) && i < j <= n,
            None => spec_parse_bond(s@, i as int) is None,
        },
{
    if i >= n {
        return None;
    }
    let c = s.get_char(i);
    if c == '=' {
        Some((i + 1, Bond { order: BondOrder::Double, direction: BondDirection::Unspecified }))
    } else if c == '#' {
        Some((i + 1, Bond { order: BondOrder::Triple, direction: BondDirection::Unspecified }))
    } else if c == ':' {
        Some((i + 1, Bond { order: BondOrder::Aromatic, direction: BondDirection::Unspecified }))
    } else if c == '-' {
        Some((i + 1, Bond { order: BondOrder::Single, direction: BondDirection::Unspecified }))
    } else if c == '/' {
        Some((i + 1, Bond { order: BondOrder::Single, direction: BondDirection::Up }))
    } else if c == '\\' {
        Some((i + 1, Bond { order: BondOrder::Single, direction: BondDirection::Down }))
    } else {
        None
    }
}

/// Parses a bond token at the start of the input.
pub fn parse_bond(input: &str) -> (r: Result<(&str, Bond), ParseError>)
    ensures
        match r {
            Ok((rest, b)) => {
                &&& spec_parse_bond(input@, 0) matches Some((j, b2)) && b2 == b && rest@
                    == input@.subrange(j, input@.len() as int)
            },
            Err(e) => spec_parse_bond(input@, 0) is None && e == ParseError::ExpectedBond,
        },
{
    let n = input.unicode_len();
    match parse_bond_at(input, n, 0) {
        Some((j, b)) => Ok((input.substring_char(j, n), b)),
        None => Err(ParseError::ExpectedBond),
    }
}

} // verus!
