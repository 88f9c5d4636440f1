use vstd::prelude::*;
use vstd::string::StrSliceExecFns;
use crate::model::Chirality;

verus! {

/// A stereocenter tag at position `i`: `@@` is clockwise, `@` is
/// anticlockwise, and anything else is the unspecified tag with nothing
/// consumed.  This parser never fails.
pub open spec fn spec_parse_chirality(s: Seq<char>, i: int) -> (int, Chirality) {
    if i + 2 <= s.len() && s[i] == '@' && s[i + 1] == '@' {
        (i + 2, Chirality::Clockwise)
    } else if i < s.len() && s[i] == '@' {
        (i + 1, Chirality::Anticlockwise)
    } else {
        (i, Chirality::Unspecified)
    }
}

pub(crate) fn parse_chirality_at(s: &str, n: usize, i: usize) -> (r: (usize, Chirality))
    requires
        n == s@.len(),
        i <= n,
    ensures
        spec_parse_chirality(s@, i as int) == (r.0 as int, r.1),
        i <= r.0 <= n,
{
    if n - i >= 2 && s.get_char(i) == '@' && s.get_char(i + 1) == '@' {
        (i + 2, Chirality::Clockwise)
    } else if i < n && s.get_char(i) == '@' {
        (i + 1, Chirality::Anticlockwise)
    } else {
        (i, Chirality::Unspecified)
    }
}

/// Parses a stereocenter tag at the start of the input; consumes nothing
/// when no tag is present.
pub fn parse_chirality(input: &str) -> (r: (&str, Chirality))
    ensures
        ({
            let (j, c) = spec_parse_chirality(input@, 0);
            r.1 == c && r.0@ == input@.subrange(j, input@.len() as int)
        }),
{
    let n = input.unicode_len();
    let (j, c) = parse_chirality_at(input, n, 0);
    (input.substring_char(j, n), c)
}

} // verus!
