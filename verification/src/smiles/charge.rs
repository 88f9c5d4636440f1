use vstd::prelude::*;
use vstd::string::StrSliceExecFns;
use crate::errors::ParseError;
use crate::smiles::scan::{digit_run_len, digit_run_value, char_run_len, scan_digit_run,
    scan_char_run, digit_run_value_capped, lemma_digit_run_len_bounds};

verus! {

/// The signed charge value as an eight-bit two's-complement wrap of
/// `magnitude` (negated when the sign is `-`), exactly as narrowing the
/// count to a signed byte computes it.
pub open spec fn spec_signed_charge(magnitude: int, positive: bool) -> i8 {
    let m = magnitude % 256;
    let mm = if positive {
        m
    } else {
        (256 - m) % 256
    };
    if mm >= 128 {
        (mm - 256) as i8
    } else {
        mm as i8
    }
}

/// A charge at position `i`: a sign character, then either a run of further
/// identical signs (magnitude: total count of signs), a decimal number that
/// fits eight bits (magnitude: the number), or nothing (magnitude one).  A
/// number that does not fit eight bits is ignored and left unconsumed.
pub open spec fn spec_parse_charge(s: Seq<char>, i: int) -> Option<(int, i8)> {
    if i >= s.len() || (s[i] != '+' && s[i] != '-') {
        None
    } else {
        let positive = s[i] == '+';
        let j = i + 1;
        let run = char_run_len(s, j, s[i]);
        if run >= 1 {
            Some((j + run, spec_signed_charge(run + 1, positive)))
        } else {
            let dk = digit_run_len(s, j);
            if dk >= 1 && digit_run_value(s, j, dk) <= 255 {
                Some((j + dk, spec_signed_charge(digit_run_value(s, j, dk), positive)))
            } else {
                Some((j, spec_signed_charge(1, positive)))
            }
        }
    }
}

fn signed_charge(magnitude: u32, positive: bool) -> (r: i8)
    ensures
        r == spec_signed_charge(magnitude as int, positive),
{
    let m: u32 = magnitude % 256;
    let mm: u32 = if positive {
        m
    } else {
        (256 - m) % 256
    };
    if mm >= 128 {
        ((mm as i32) - 256) as i8
    } else {
        mm as i8
    }
}

pub(crate) fn parse_charge_at(s: &str, n: usize, i: usize) -> (r: Option<(usize, i8)>)
    requires
        n == s@.len(),
        i <= n,
    ensures
        match r {
            Some((j, v)) => spec_parse_charge(s@, i as int) == Some((j as int, v)) && i < j <= n,
            None => spec_parse_charge(s@, i as int) is None,
        },
{
    if i >= n {
        return None;
    }
    let c = s.get_char(i);
    if c != '+' && c != '-' {
        return None;
    }
    let positive = c == '+';
    let j = i + 1;
    let run = scan_char_run(s, n, j, c);
    if run >= 1 {
        // The sign count only matters modulo 256, since the value is an
        // eight-bit wrap of it.
        let mag: u32 = ((run % 256) as u32 + 1) % 256;
        proof {
            vstd::arithmetic::div_mod::lemma_add_mod_noop(run as int, 1, 256);
            assert(mag == ((run as int) + 1) % 256);
            assert(spec_signed_charge(mag as int, positive) == spec_signed_charge(
                (run as int) + 1,
                positive,
            ));
        }
        Some((j + run, signed_charge(mag, positive)))
    } else {
        let dk = scan_digit_run(s, n, j);
        if dk >= 1 {
            proof {
                lemma_digit_run_len_bounds(s@, j as int);
            }
            let v = digit_run_value_capped(s, n, j, dk);
            if v <= 255 {
                return Some((j + dk, signed_charge(v, positive)));
            }
        }
        Some((j, signed_charge(1, positive)))
    }
}

/// Parses a charge at the start of the input: a lone sign is one unit,
/// repeated signs count one unit each, and a sign followed by a number uses
/// the number as magnitude.
pub fn parse_charge(input: &str) -> (r: Result<(&str, i8), ParseError>)
    ensures
        match r {
            Ok((rest, v)) => {
                &&& spec_parse_charge(input@, 0) matches Some((j, v2)) && v2 == v && rest@
                    == input@.subrange(j, input@.len() as int)
            },
            Err(e) => spec_parse_charge(input@, 0) is None && e == ParseError::ExpectedSign,
        },
{
    let n = input.unicode_len();
    match parse_charge_at(input, n, 0) {
        Some((j, v)) => Ok((input.substring_char(j, n), v)),
        None => Err(ParseError::ExpectedSign),
    }
}

/// Charge magnitudes that fit a signed byte come out exactly: repeated
/// sign characters yield plus or minus the character count, a sign
/// followed by digits yields that signed magnitude, and a bare sign yields
/// plus or minus one.
pub proof fn lemma_charge_value(magnitude: int, positive: bool)
    requires
        0 <= magnitude <= 127,
    ensures
        spec_signed_charge(magnitude, positive) as int == if positive {
            magnitude
        } else {
            -magnitude
        },
{
}

} // verus!
