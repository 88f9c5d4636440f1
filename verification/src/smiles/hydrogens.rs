use vstd::prelude::*;
use vstd::string::StrSliceExecFns;
use crate::errors::ParseError;
use crate::smiles::scan::{digit_run_len, digit_run_value, scan_digit_run, digit_run_value_capped,
    lemma_digit_run_len_bounds};

verus! {

/// A hydrogen count at position `i`: `H` followed by a decimal number that
/// fits eight bits means that many hydrogens; a bare `H` (or one whose
/// number does not fit, which stays unconsumed) means one.
pub open spec fn spec_parse_hydrogens(s: Seq<char>, i: int) -> Option<(int, u8)> {
    if i >= s.len() || s[i] != 'H' {
        None
    } else {
        let j = i + 1;
        let dk = digit_run_len(s, j);
        if dk >= 1 && digit_run_value(s, j, dk) <= 255 {
            Some((j + dk, digit_run_value(s, j, dk) as u8))
        } else {
            Some((j, 1u8))
        }
    }
}

pub(crate) fn parse_hydrogens_at(s: &str, n: usize, i: usize) -> (r: Option<(usize, u8)>)
    requires
        n == s@.len(),
        i <= n,
    ensures
        match r {
            Some((j, v)) => spec_parse_hydrogens(s@, i as int) == Some((j as int, v)) && i < j
                <= n,
            None => spec_parse_hydrogens(s@, i as int) is None,
        },
{
    if i >= n {
        return None;
    }
    if s.get_char(i) != 'H' {
        return None;
    }
    let j = i + 1;
    let dk = scan_digit_run(s, n, j);
    if dk >= 1 {
        proof {
            lemma_digit_run_len_bounds(s@, j as int);
        }
        let v = digit_run_value_capped(s, n, j, dk);
        if v <= 255 {
            return Some((j + dk, v as u8));
        }
    }
    Some((j, 1))
}

/// Parses a hydrogen count at the start of the input: `H` alone is one
/// hydrogen, `H` followed by a number is that many.
pub fn parse_hydrogens(input: &str) -> (r: Result<(&str, u8), ParseError>)
    ensures
        match r {
            Ok((rest, v)) => {
                &&& spec_parse_hydrogens(input@, 0) matches Some((j, v2)) && v2 == v && rest@
                    == input@.subrange(j, input@.len() as int)
            },
            Err(e) => spec_parse_hydrogens(input@, 0) is None && e == ParseError::ExpectedHydrogen,
        },
{
    let n = input.unicode_len();
    match parse_hydrogens_at(input, n, 0) {
        Some((j, v)) => Ok((input.substring_char(j, n), v)),
        None => Err(ParseError::ExpectedHydrogen),
    }
}

} // verus!
