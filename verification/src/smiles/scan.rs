use vstd::prelude::*;
use vstd::string::StrSliceExecFns;

verus! {

pub open spec fn is_digit(c: char) -> bool {
    48 <= c as u32 <= 57
}

pub open spec fn digit_val(c: char) -> int {
    c as u32 - 48
}

/// Length of the maximal run of decimal digits starting at `i`.
pub open spec fn digit_run_len(s: Seq<char>, i: int) -> int
    decreases s.len() - i,
{
    if i < 0 || i >= s.len() || !is_digit(s[i]) {
        0
    } else {
        1 + digit_run_len(s, i + 1)
    }
}

/// Length of the maximal run of copies of `c` starting at `i`.
pub open spec fn char_run_len(s: Seq<char>, i: int, c: char) -> int
    decreases s.len() - i,
{
    if i < 0 || i >= s.len() || s[i] != c {
        0
    } else {
        1 + char_run_len(s, i + 1, c)
    }
}

/// The numeric value of the `k` digits starting at `i`.
pub open spec fn digit_run_value(s: Seq<char>, i: int, k: int) -> int
    decreases k,
{
    if k <= 0 {
        0
    } else {
        digit_run_value(s, i, k - 1) * 10 + digit_val(s[i + k - 1])
    }
}

pub proof fn lemma_digit_run_len_bounds(s: Seq<char>, i: int)
    ensures
        0 <= digit_run_len(s, i),
        0 <= i <= s.len() ==> i + digit_run_len(s, i) <= s.len(),
        forall|t: int| i <= t < i + digit_run_len(s, i) ==> is_digit(s[t]),
        i + digit_run_len(s, i) < s.len() && 0 <= i ==> !is_digit(s[i + digit_run_len(s, i)]),
    decreases s.len() - i,
{
    if 0 <= i < s.len() && is_digit(s[i]) {
        lemma_digit_run_len_bounds(s, i + 1);
    }
}

/// The digit run grows one digit at a time from the left.
proof fn lemma_digit_run_extends(s: Seq<char>, i: int, j: int)
    requires
        0 <= i <= j <= s.len(),
        forall|t: int| i <= t < j ==> is_digit(s[t]),
        j == s.len() || !is_digit(s[j]),
    ensures
        digit_run_len(s, i) == j - i,
    decreases j - i,
{
    if i < j {
        lemma_digit_run_extends(s, i + 1, j);
    }
}

proof fn lemma_char_run_extends(s: Seq<char>, i: int, j: int, c: char)
    requires
        0 <= i <= j <= s.len(),
        forall|t: int| i <= t < j ==> s[t] == c,
        j == s.len() || s[j] != c,
    ensures
        char_run_len(s, i, c) == j - i,
    decreases j - i,
{
    if i < j {
        lemma_char_run_extends(s, i + 1, j, c);
    }
}

fn is_digit_char(c: char) -> (r: bool)
    ensures
        r == is_digit(c),
{
    let u = c as u32;
    48 <= u && u <= 57
}

/// Scans the maximal digit run starting at `i`; returns its length.
pub fn scan_digit_run(s: &str, n: usize, i: usize) -> (r: usize)
    requires
        n == s@.len(),
        i <= n,
    ensures
        r == digit_run_len(s@, i as int),
        i + r <= n,
{
    let mut j = i;
    while j < n && is_digit_char(s.get_char(j))
        invariant
            i <= j <= n,
            n == s@.len(),
            forall|t: int| i <= t < j ==> is_digit(s@[t]),
        decreases n - j,
    {
        j += 1;
    }
    proof {
        lemma_digit_run_extends(s@, i as int, j as int);
    }
    j - i
}

/// Scans the maximal run of copies of `c` starting at `i`; returns its length.
pub fn scan_char_run(s: &str, n: usize, i: usize, c: char) -> (r: usize)
    requires
        n == s@.len(),
        i <= n,
    ensures
        r == char_run_len(s@, i as int, c),
        i + r <= n,
{
    let mut j = i;
    while j < n && s.get_char(j) == c
        invariant
            i <= j <= n,
            n == s@.len(),
            forall|t: int| i <= t < j ==> s@[t] == c,
        decreases n - j,
    {
        j += 1;
    }
    proof {
        lemma_char_run_extends(s@, i as int, j as int, c);
    }
    j - i
}

/// Computes the value of the `k` digits starting at `i`, saturating once it
/// can no longer fit an eight-bit number: the result is the exact value when
/// that value is at most 255, and some value above 255 otherwise.
pub fn digit_run_value_capped(s: &str, n: usize, i: usize, k: usize) -> (r: u32)
    requires
        n == s@.len(),
        i + k <= n,
        forall|t: int| i <= t < i + k ==> is_digit(s@[t]),
    ensures
        digit_run_value(s@, i as int, k as int) <= 255 ==> r == digit_run_value(
            s@,
            i as int,
            k as int,
        ),
        digit_run_value(s@, i as int, k as int) > 255 ==> r > 255,
{
    let mut val: u32 = 0;
    let mut t: usize = 0;
    while t < k
        invariant
            t <= k,
            i + k <= n,
            n == s@.len(),
            forall|q: int| i <= q < i + k ==> is_digit(s@[q]),
            val <= 2559,
            digit_run_value(s@, i as int, t as int) <= 255 ==> val == digit_run_value(
                s@,
                i as int,
                t as int,
            ),
            digit_run_value(s@, i as int, t as int) > 255 ==> val > 255,
            0 <= digit_run_value(s@, i as int, t as int),
        decreases k - t,
    {
        let c = s.get_char(i + t);
        let d = (c as u32) - 48;
        if val <= 255 {
            val = val * 10 + d;
        }
        t += 1;
    }
    val
}

} // verus!
