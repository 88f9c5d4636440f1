use vstd::prelude::*;
use vstd::string::StrSliceExecFns;
use crate::errors::ParseError;

verus! {

/// An element symbol at position `i`: two-letter symbols are tried before
/// one-letter ones, greedily.  On a match, the position after the symbol and
/// the atomic number.
pub open spec fn spec_parse_element(s: Seq<char>, i: int) -> Option<(int, u8)> {
    if i + 2 <= s.len() && s[i] == 'C' && s[i + 1] == 'l' {
        Some((i + 2, 17u8))
    } else if i + 2 <= s.len() && s[i] == 'B' && s[i + 1] == 'r' {
        Some((i + 2, 35u8))
    } else if i < s.len() && s[i] == 'C' {
        Some((i + 1, 6u8))
    } else if i < s.len() && s[i] == 'N' {
        Some((i + 1, 7u8))
    } else if i < s.len() && s[i] == 'O' {
        Some((i + 1, 8u8))
    } else if i < s.len() && s[i] == 'F' {
        Some((i + 1, 9u8))
    } else if i < s.len() && s[i] == 'P' {
        Some((i + 1, 15u8))
    } else if i < s.len() && s[i] == 'S' {
        Some((i + 1, 16u8))
    } else if i < s.len() && s[i] == 'I' {
        Some((i + 1, 53u8))
    } else if i < s.len() && s[i] == 'H' {
        Some((i + 1, 1u8))
    } else {
        None
    }
}

pub(crate) fn parse_element_at(s: &str, n: usize, i: usize) -> (r: Option<(usize, u8)>)
    requires
        n == s@.len(),
        i <= n,
    ensures
        match r {
            Some((j, an)) => spec_parse_element(s@, i as int) == Some((j as int, an)) && i < j
                <= n,
            None => spec_parse_element(s@, i as int) is None,
        },
{
    if i >= n {
        return None;
    }
    let c = s.get_char(i);
    if n - i >= 2 {
        let c2 = s.get_char(i + 1);
        if c == 'C' && c2 == 'l' {
            return Some((i + 2, 17));
        }
        if c == 'B' && c2 == 'r' {
            return Some((i + 2, 35));
        }
    }
    if c == 'C' {
        Some((i + 1, 6))
    } else if c == 'N' {
        Some((i + 1, 7))
    } else if c == 'O' {
        Some((i + 1, 8))
    } else if c == 'F' {
        Some((i + 1, 9))
    } else if c == 'P' {
        Some((i + 1, 15))
    } else if c == 'S' {
        Some((i + 1, 16))
    } else if c == 'I' {
        Some((i + 1, 53))
    } else if c == 'H' {
        Some((i + 1, 1))
    } else {
        None
    }
}

/// Parses an element symbol at the start of the input, returning the
/// remaining input and the atomic number.
pub fn parse_element(input: &str) -> (r: Result<(&str, u8), ParseError>)
    ensures
        match r {
            Ok((rest, an)) => {
                &&& spec_parse_element(input@, 0) matches Some((j, an2)) && an2 == an && rest@
                    == input@.subrange(j, input@.len() as int)
            },
            Err(e) => spec_parse_element(input@, 0) is None && e == ParseError::ExpectedElement,
        },
{
    let n = input.unicode_len();
    match parse_element_at(input, n, 0) {
        Some((j, an)) => Ok((input.substring_char(j, n), an)),
        None => Err(ParseError::ExpectedElement),
    }
}

} // verus!
