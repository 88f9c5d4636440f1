use vstd::prelude::*;
use vstd::string::StrSliceExecFns;
use crate::errors::ParseError;
use crate::smiles::scan::{digit_run_len, digit_run_value, scan_digit_run, digit_run_value_capped,
    lemma_digit_run_len_bounds};

verus! {

/// An isotope mass number at position `i`: a nonempty digit run whose value
/// fits eight bits.  A run that does not fit, or no digit at all, is no
/// match.
pub open spec fn spec_parse_isotope(s: Seq<char>, i: int) -> Option<(int, u8)> {
    let k = digit_run_len(s, i);
    if k >= 1 && digit_run_value(s, i, k) <= 255 {
        Some((i + k, digit_run_value(s, i, k) as u8))
    } else {
        None
    }
}

pub(crate) fn parse_isotope_at(s: &str, n: usize, i: usize) -> (r: Option<(usize, u8)>)
    requires
        n == s@.len(),
        i <= n,
    ensures
        match r {
            Some((j, v)) => spec_parse_isotope(s@, i as int) == Some((j as int, v)) && i < j <= n,
            None => spec_parse_isotope(s@, i as int) is None,
        },
{
    let k = scan_digit_run(s, n, i);
    if k == 0 {
        return None;
    }
    proof {
        lemma_digit_run_len_bounds(s@, i as int);
    }
    let v = digit_run_value_capped(s, n, i, k);
    if v <= 255 {
        Some((i + k, v as u8))
    } else {
        None
    }
}

/// Parses an isotope number at the start of the input.
pub fn parse_isotope(input: &str) -> (r: Result<(&str, u8), ParseError>)
    ensures
        match r {
            Ok((rest, v)) => {
                &&& spec_parse_isotope(input@, 0) matches Some((j, v2)) && v2 == v && rest@
                    == input@.subrange(j, input@.len() as int)
            },
            Err(e) => spec_parse_isotope(input@, 0) is None && e == ParseError::ExpectedDigit,
        },
{
    let n = input.unicode_len();
    match parse_isotope_at(input, n, 0) {
        Some((j, v)) => Ok((input.substring_char(j, n), v)),
        None => Err(ParseError::ExpectedDigit),
    }
}

} // verus!
