use vstd::prelude::*;
use vstd::string::StrSliceExecFns;
use crate::errors::ParseError;
use crate::model::{Atom, Bond, BondOrder, BondDirection};
use crate::molecule::{Molecule, BondSlot};
use crate::smiles::scan::{digit_run_len, digit_run_value, scan_digit_run, digit_run_value_capped,
    lemma_digit_run_len_bounds};
use crate::smiles::atom::{spec_parse_atom, parse_atom_at};
use crate::smiles::bond::{spec_parse_bond, parse_bond_at};

verus! {

/// One token of a molecule description.
#[derive(Debug, Eq, PartialEq, Clone, Copy)]
pub enum Token {
    /// An atom, possibly bracketed.
    Atom(Atom),
    /// An explicit bond for the next connection.
    Bond(Bond),
    /// A ring-closure digit.
    Digit(u8),
    /// A branch opening marker.
    Open,
    /// A branch closing marker.
    Close,
}

/// The next token at position `i`, tried greedily in order: atom, bond,
/// ring-closure digit, branch markers.  `Ok(None)` means no token starts
/// here and the scan stops; a hard atom error aborts the parse.
pub open spec fn spec_next_token(s: Seq<char>, i: int) -> Result<Option<(int, Token)>, ParseError> {
    match spec_parse_atom(s, i) {
        Err(e) => Err(e),
        Ok(Some((j, a))) => Ok(Some((j, Token::Atom(a)))),
        Ok(None) => match spec_parse_bond(s, i) {
            Some((j, b)) => Ok(Some((j, Token::Bond(b)))),
            None => {
                let dk = digit_run_len(s, i);
                if dk >= 1 && digit_run_value(s, i, dk) <= 255 {
                    Ok(Some((i + dk, Token::Digit(digit_run_value(s, i, dk) as u8))))
                } else if i < s.len() && s[i] == '(' {
                    Ok(Some((i + 1, Token::Open)))
                } else if i < s.len() && s[i] == ')' {
                    Ok(Some((i + 1, Token::Close)))
                } else {
                    Ok(None)
                }
            },
        },
    }
}

/// The token sequence read from position `i` until no token matches, with
/// the position where the scan stopped.
pub open spec fn spec_tokenize(s: Seq<char>, i: int) -> Result<(int, Seq<Token>), ParseError>
    decreases s.len() - i,
{
    match spec_next_token(s, i) {
        Err(e) => Err(e),
        Ok(None) => Ok((i, Seq::empty())),
        Ok(Some((j, t))) => {
            if i < j <= s.len() {
                match spec_tokenize(s, j) {
                    Err(e) => Err(e),
                    Ok((end, ts)) => Ok((end, seq![t] + ts)),
                }
            } else {
                Ok((i, Seq::empty()))
            }
        },
    }
}

pub(crate) fn next_token_at(s: &str, n: usize, i: usize) -> (r: Result<
    Option<(usize, Token)>,
    ParseError,
>)
    requires
        n == s@.len(),
        i <= n,
    ensures
        match r {
            Ok(Some((j, t))) => spec_next_token(s@, i as int) == Ok::<_, ParseError>(
                Some((j as int, t)),
            ) && i < j <= n,
            Ok(None) => spec_next_token(s@, i as int) == Ok::<Option<(int, Token)>, ParseError>(
                None,
            ),
            Err(e) => spec_next_token(s@, i as int) == Err::<Option<(int, Token)>, ParseError>(e),
        },
{
    match parse_atom_at(s, n, i) {
        Err(e) => Err(e),
        Ok(Some((j, a))) => Ok(Some((j, Token::Atom(a)))),
        Ok(None) => match parse_bond_at(s, n, i) {
            Some((j, b)) => Ok(Some((j, Token::Bond(b)))),
            None => {
                let dk = scan_digit_run(s, n, i);
                if dk >= 1 {
                    proof {
                        lemma_digit_run_len_bounds(s@, i as int);
                    }
                    let v = digit_run_value_capped(s, n, i, dk);
                    if v <= 255 {
                        return Ok(Some((i + dk, Token::Digit(v as u8))));
                    }
                }
                if i < n && s.get_char(i) == '(' {
                    Ok(Some((i + 1, Token::Open)))
                } else if i < n && s.get_char(i) == ')' {
                    Ok(Some((i + 1, Token::Close)))
                } else {
                    Ok(None)
                }
            },
        },
    }
}

fn tokenize_at(s: &str, n: usize, i: usize) -> (r: Result<(usize, Vec<Token>), ParseError>)
    requires
        n == s@.len(),
        i <= n,
    ensures
        match r {
            Ok((end, ts)) => spec_tokenize(s@, i as int) == Ok::<_, ParseError>(
                (end as int, ts@),
            ) && i <= end <= n,
            Err(e) => spec_tokenize(s@, i as int) == Err::<(int, Seq<Token>), ParseError>(e),
        },
    decreases n - i,
{
    match next_token_at(s, n, i) {
        Err(e) => Err(e),
        Ok(None) => Ok((i, Vec::new())),
        Ok(Some((j, t))) => {
            match tokenize_at(s, n, j) {
                Err(e) => Err(e),
                Ok((end, mut ts)) => {
                    let ghost tail = ts@;
                    ts.insert(0, t);
                    proof {
                        assert(ts@ =~= seq![t] + tail);
                    }
                    Ok((end, ts))
                },
            }
        },
    }
}

pub open spec fn opt_int(o: Option<usize>) -> Option<int> {
    match o {
        Option::Some(v) => Option::Some(v as int),
        Option::None => Option::None,
    }
}

/// The parser's running state over the token stream: the atom arena built so
/// far, the most recently placed atom, the pending bond order for the next
/// connection, the branch stack, the open ring closures, and the scheduled
/// bonds (committed to the graph only after the whole stream succeeds).
#[verifier::ext_equal]
pub struct BuildState {
    pub atoms: Seq<Atom>,
    pub prev: Option<int>,
    pub pend: BondOrder,
    pub stack: Seq<(Option<int>, BondOrder)>,
    pub open: Map<u8, Option<int>>,
    pub pending: Seq<(Option<int>, Option<int>, Bond)>,
}

pub open spec fn initial_state() -> BuildState {
    BuildState {
        atoms: Seq::empty(),
        prev: Option::None,
        pend: BondOrder::Single,
        stack: Seq::empty(),
        open: Map::empty(),
        pending: Seq::empty(),
    }
}

/// One token applied to the state.  Branch markers push and pop the stack;
/// a ring digit either opens a closure on itself or schedules the ring bond
/// and resets the pending order; an atom is placed and, when an atom
/// precedes it, connected with the pending order, which then resets; an
/// explicit bond only sets the pending order.
pub open spec fn build_step(st: BuildState, t: Token) -> Result<BuildState, ParseError> {
    match t {
        Token::Open => Ok(BuildState {
            atoms: st.atoms,
            prev: st.prev,
            pend: st.pend,
            stack: st.stack.push((st.prev, st.pend)),
            open: st.open,
            pending: st.pending,
        }),
        Token::Close => {
            if st.stack.len() == 0 {
                Err(ParseError::UnbalancedBranch)
            } else {
                Ok(BuildState {
                    atoms: st.atoms,
                    prev: st.stack.last().0,
                    pend: st.stack.last().1,
                    stack: st.stack.drop_last(),
                    open: st.open,
                    pending: st.pending,
                })
            }
        },
        Token::Digit(d) => {
            if st.open.contains_key(d) {
                Ok(BuildState {
                    atoms: st.atoms,
                    prev: st.prev,
                    pend: BondOrder::Single,
                    stack: st.stack,
                    open: st.open.remove(d),
                    pending: st.pending.push((st.prev, st.open[d], Bond {
                        order: st.pend,
                        direction: BondDirection::Unspecified,
                    })),
                })
            } else {
                Ok(BuildState {
                    atoms: st.atoms,
                    prev: st.prev,
                    pend: st.pend,
                    stack: st.stack,
                    open: st.open.insert(d, st.prev),
                    pending: st.pending,
                })
            }
        },
        Token::Atom(a) => {
            let n = st.atoms.len() as int;
            let pending1 = if st.prev is Some {
                st.pending.push((st.prev, Option::Some(n), Bond {
                    order: st.pend,
                    direction: BondDirection::Unspecified,
                }))
            } else {
                st.pending
            };
            Ok(BuildState {
                atoms: st.atoms.push(a),
                prev: Option::Some(n),
                pend: BondOrder::Single,
                stack: st.stack,
                open: st.open,
                pending: pending1,
            })
        },
        Token::Bond(b) => Ok(BuildState {
            atoms: st.atoms,
            prev: st.prev,
            pend: b.order,
            stack: st.stack,
            open: st.open,
            pending: st.pending,
        }),
    }
}

/// The state after folding the tokens from position `k` on.
pub open spec fn build_fold(st: BuildState, ts: Seq<Token>, k: int) -> Result<
    BuildState,
    ParseError,
>
    decreases ts.len() - k,
{
    if k < 0 || k >= ts.len() {
        Ok(st)
    } else {
        match build_step(st, ts[k]) {
            Err(e) => Err(e),
            Ok(st2) => build_fold(st2, ts, k + 1),
        }
    }
}

/// Committing the scheduled bonds from position `j` on: every endpoint must
/// name an atom that exists, else the description referred back to a point
/// before the first atom.
pub open spec fn spec_commit(
    atoms: Seq<Atom>,
    pending: Seq<(Option<int>, Option<int>, Bond)>,
    j: int,
) -> Result<Seq<BondSlot>, ParseError>
    decreases pending.len() - j,
{
    if j < 0 || j >= pending.len() {
        Ok(Seq::empty())
    } else {
        let (o1, o2, b) = pending[j];
        if o1 is Some && o2 is Some && 0 <= o1->Some_0 < atoms.len() && 0 <= o2->Some_0
            < atoms.len() {
            match spec_commit(atoms, pending, j + 1) {
                Err(e) => Err(e),
                Ok(rest) => Ok(
                    seq![
                        BondSlot {
                            from: o1->Some_0 as usize,
                            to: o2->Some_0 as usize,
                            bond: b,
                        },
                    ] + rest,
                ),
            }
        } else {
            Err(ParseError::DanglingRingBond)
        }
    }
}

/// The termination check and the bond commitment: after the whole stream,
/// any open ring closure or any open branch is a structural error; then the
/// scheduled bonds are applied in order.
pub open spec fn spec_finish_state(st: BuildState) -> Result<
    (Seq<Atom>, Seq<BondSlot>),
    ParseError,
> {
    if exists|d: u8| st.open.contains_key(d) {
        Err(ParseError::UnclosedRing)
    } else if st.stack.len() > 0 {
        Err(ParseError::UnbalancedBranch)
    } else {
        match spec_commit(st.atoms, st.pending, 0) {
            Err(e) => Err(e),
            Ok(bonds) => Ok((st.atoms, bonds)),
        }
    }
}

/// The molecule built from a token stream.
pub open spec fn spec_build(ts: Seq<Token>) -> Result<(Seq<Atom>, Seq<BondSlot>), ParseError> {
    match build_fold(initial_state(), ts, 0) {
        Err(e) => Err(e),
        Ok(st) => spec_finish_state(st),
    }
}

/// The whole parse: tokenize greedily from the start, then build.  On
/// success: the position where the token scan stopped, the atom arena and
/// the bond arena.
pub open spec fn spec_parse_molecule(s: Seq<char>) -> Result<
    (int, Seq<Atom>, Seq<BondSlot>),
    ParseError,
> {
    match spec_tokenize(s, 0) {
        Err(e) => Err(e),
        Ok((end, ts)) => match spec_build(ts) {
            Err(e) => Err(e),
            Ok((atoms, bonds)) => Ok((end, atoms, bonds)),
        },
    }
}

/// The view of the executable parser state as a `BuildState`.
pub open spec fn st_view(
    mol: Molecule,
    prev: Option<usize>,
    pend: BondOrder,
    stack: Seq<(Option<usize>, BondOrder)>,
    open: Seq<Option<Option<usize>>>,
    pending: Seq<(Option<usize>, Option<usize>, Bond)>,
) -> BuildState {
    BuildState {
        atoms: mol@.atoms,
        prev: opt_int(prev),
        pend: pend,
        stack: stack.map_values(|p: (Option<usize>, BondOrder)| (opt_int(p.0), p.1)),
        open: Map::new(
            |d: u8| open[d as int] is Some,
            |d: u8| opt_int(open[d as int]->Some_0),
        ),
        pending: pending.map_values(
            |p: (Option<usize>, Option<usize>, Bond)| (opt_int(p.0), opt_int(p.1), p.2),
        ),
    }
}

/// Parses a whole molecule description.  Tokens are read greedily from the
/// left until none matches; the remaining input is returned beside the
/// molecule.  Atoms are placed as they are read; bonds are scheduled during
/// the scan and committed only after the stream and the termination checks
/// succeed, so failure never returns a partially built graph.
#[verifier::loop_isolation(false)]
#[verifier::rlimit(60)]
pub fn parse_molecule(input: &str) -> (r: Result<(&str, Molecule), ParseError>)
    ensures
        match r {
            Ok((rest, m)) => {
                &&& spec_parse_molecule(input@) matches Ok(pr) && m@.atoms == pr.1 && m@.bonds
                    == pr.2 && rest@ == input@.subrange(pr.0, input@.len() as int)
                &&& m@.wf()
            },
            Err(e) => spec_parse_molecule(input@) == Err::<(int, Seq<Atom>, Seq<BondSlot>),
                ParseError,
            >(e),
        },
{
    let n = input.unicode_len();
    let (end, tokens) = match tokenize_at(input, n, 0) {
        Err(e) => {
            return Err(e);
        },
        Ok(p) => p,
    };
    let mut mol = Molecule::new();
    let mut prev: Option<usize> = None;
    let mut pend: BondOrder = BondOrder::Single;
    let mut stack: Vec<(Option<usize>, BondOrder)> = Vec::new();
    let mut open: Vec<Option<Option<usize>>> = vec![None;256];
    let mut pending: Vec<(Option<usize>, Option<usize>, Bond)> = Vec::new();
    proof {
        assert(st_view(mol, prev, pend, stack@, open@, pending@) =~= initial_state());
    }
    let nt = tokens.len();
    let mut k: usize = 0;
    while k < nt
        invariant
            k <= nt,
            nt == tokens@.len(),
            open@.len() == 256,
            mol@.bonds.len() == 0,
            mol@.wf(),
            build_fold(initial_state(), tokens@, 0) == build_fold(
                st_view(mol, prev, pend, stack@, open@, pending@),
                tokens@,
                k as int,
            ),
            prev matches Some(v) ==> v < mol@.atoms.len(),
            forall|q: int|
                0 <= q < stack@.len() ==> ((#[trigger] stack@[q]).0 matches Some(v) ==> v
                    < mol@.atoms.len()),
            forall|q: int|
                0 <= q < 256 ==> ((#[trigger] open@[q]) matches Some(ov) ==> (ov matches Some(v)
                    ==> v < mol@.atoms.len())),
            forall|q: int|
                0 <= q < pending@.len() ==> (((#[trigger] pending@[q]).0 matches Some(v) ==> v
                    < mol.atoms@.len()) && (pending@[q].1 matches Some(v2) ==> v2
                    < mol@.atoms.len())),
        decreases nt - k,
    {
        let ghost st_old = st_view(mol, prev, pend, stack@, open@, pending@);
        let t = tokens[k];
        match t {
            Token::Open => {
                stack.push((prev, pend));
                proof {
                    assert(st_view(mol, prev, pend, stack@, open@, pending@) =~= build_step(
                        st_old,
                        t,
                    )->Ok_0);
                }
            },
            Token::Close => {
                if stack.len() == 0 {
                    proof {
                        assert(build_step(st_old, t) == Err::<BuildState, ParseError>(
                            ParseError::UnbalancedBranch,
                        ));
                        assert(build_fold(st_old, tokens@, k as int) == Err::<
                            BuildState,
                            ParseError,
                        >(ParseError::UnbalancedBranch));
                        assert(spec_build(tokens@) == Err::<(Seq<Atom>, Seq<BondSlot>), ParseError>(
                            ParseError::UnbalancedBranch,
                        ));
                        assert(spec_parse_molecule(input@) == Err::<
                            (int, Seq<Atom>, Seq<BondSlot>),
                            ParseError,
                        >(ParseError::UnbalancedBranch));
                    }
                    return Err(ParseError::UnbalancedBranch);
                }
                let popped = stack.pop();
                match popped {
                    Some((p, b)) => {
                        prev = p;
                        pend = b;
                    },
                    None => {
                        assert(false);
                    },
                }
                proof {
                    assert(st_view(mol, prev, pend, stack@, open@, pending@) =~= build_step(
                        st_old,
                        t,
                    )->Ok_0);
                }
            },
            Token::Digit(d) => {
                let du = d as usize;
                let cur = open[du];
                match cur {
                    Some(stored) => {
                        pending.push(
                            (prev, stored, Bond {
                                order: pend,
                                direction: BondDirection::Unspecified,
                            }),
                        );
                        open.set(du, None);
                        pend = BondOrder::Single;
                        proof {
                            assert(st_old.open.contains_key(d));
                            assert(st_old.open[d] == opt_int(stored));
                            assert(st_view(mol, prev, pend, stack@, open@, pending@) =~= build_step(
                                st_old,
                                t,
                            )->Ok_0);
                        }
                    },
                    None => {
                        open.set(du, Some(prev));
                        proof {
                            assert(!st_old.open.contains_key(d));
                            assert(st_view(mol, prev, pend, stack@, open@, pending@) =~= build_step(
                                st_old,
                                t,
                            )->Ok_0);
                        }
                    },
                }
            },
            Token::Atom(a) => {
                let idx = mol.add_atom(a);
                match prev {
                    Some(p) => {
                        pending.push(
                            (Some(p), Some(idx), Bond {
                                order: pend,
                                direction: BondDirection::Unspecified,
                            }),
                        );
                    },
                    None => {},
                }
                prev = Some(idx);
                pend = BondOrder::Single;
                proof {
                    assert(st_view(mol, prev, pend, stack@, open@, pending@) =~= build_step(
                        st_old,
                        t,
                    )->Ok_0);
                }
            },
            Token::Bond(b) => {
                pend = b.order;
                proof {
                    assert(st_view(mol, prev, pend, stack@, open@, pending@) =~= build_step(
                        st_old,
                        t,
                    )->Ok_0);
                }
            },
        }
        k += 1;
    }
    let ghost stv = st_view(mol, prev, pend, stack@, open@, pending@);
    proof {
        assert(build_fold(initial_state(), tokens@, 0) == Ok::<BuildState, ParseError>(stv));
    }
    // Termination checks: no ring closure may stay open, no branch unclosed.
    let mut d: usize = 0;
    let mut any_open = false;
    while d < 256
        invariant
            d <= 256,
            open@.len() == 256,
            any_open == exists|q: int| 0 <= q < d && open@[q] is Some,
        decreases 256 - d,
    {
        if open[d].is_some() {
            any_open = true;
            proof {
                assert(open@[d as int] is Some);
            }
        }
        d += 1;
    }
    if any_open {
        proof {
            let q = choose|q: int| 0 <= q < 256 && open@[q] is Some;
            assert(stv.open.contains_key(q as u8));
        }
        return Err(ParseError::UnclosedRing);
    }
    if stack.len() > 0 {
        proof {
            assert forall|dd: u8| !stv.open.contains_key(dd) by {
                assert(!(open@[dd as int] is Some));
            }
        }
        return Err(ParseError::UnbalancedBranch);
    }
    proof {
        assert forall|dd: u8| !stv.open.contains_key(dd) by {
            assert(!(open@[dd as int] is Some));
        }
        assert(stv.stack.len() == 0);
    }
    // Commit the scheduled bonds.
    let np = pending.len();
    let mut j: usize = 0;
    while j < np
        invariant
            j <= np,
            np == pending@.len(),
            stv.atoms == mol@.atoms,
            stv.pending == pending@.map_values(
                |p: (Option<usize>, Option<usize>, Bond)| (opt_int(p.0), opt_int(p.1), p.2),
            ),
            mol@.wf(),
            spec_commit(stv.atoms, stv.pending, 0) == match spec_commit(
                stv.atoms,
                stv.pending,
                j as int,
            ) {
                Result::<Seq<BondSlot>, ParseError>::Err(e) => Err(e),
                Result::<Seq<BondSlot>, ParseError>::Ok(tail) => Ok(mol@.bonds + tail),
            },
        decreases np - j,
    {
        let (o1, o2, b) = pending[j];
        let ghost bonds_before = mol@.bonds;
        proof {
            assert(stv.pending[j as int] == (opt_int(o1), opt_int(o2), b));
        }
        match (o1, o2) {
            (Some(v1), Some(v2)) => {
                if v1 < mol.count_atoms() && v2 < mol.count_atoms() {
                    mol.add_bond(v1, v2, b);
                    proof {
                        let slot = BondSlot { from: v1, to: v2, bond: b };
                        assert(mol@.bonds =~= bonds_before + seq![slot]);
                        match spec_commit(stv.atoms, stv.pending, j as int + 1) {
                            Result::<Seq<BondSlot>, ParseError>::Err(e) => {
                                assert(spec_commit(stv.atoms, stv.pending, j as int)
                                    == Err::<Seq<BondSlot>, ParseError>(e));
                            },
                            Result::<Seq<BondSlot>, ParseError>::Ok(tail) => {
                                assert(spec_commit(stv.atoms, stv.pending, j as int)
                                    == Ok::<Seq<BondSlot>, ParseError>(seq![slot] + tail));
                                assert(bonds_before + (seq![slot] + tail) =~= (bonds_before
                                    + seq![slot]) + tail);
                            },
                        }
                    }
                } else {
                    proof {
                        assert(spec_commit(stv.atoms, stv.pending, j as int)
                            == Err::<Seq<BondSlot>, ParseError>(ParseError::DanglingRingBond));
                        assert(spec_commit(stv.atoms, stv.pending, 0) == Err::<
                            Seq<BondSlot>,
                            ParseError,
                        >(ParseError::DanglingRingBond));
                        assert(spec_finish_state(stv) == Err::<(Seq<Atom>, Seq<BondSlot>), ParseError>(
                            ParseError::DanglingRingBond,
                        ));
                        assert(spec_parse_molecule(input@) == Err::<
                            (int, Seq<Atom>, Seq<BondSlot>),
                            ParseError,
                        >(ParseError::DanglingRingBond));
                    }
                    return Err(ParseError::DanglingRingBond);
                }
            },
            _ => {
                proof {
                    assert(spec_commit(stv.atoms, stv.pending, j as int) == Err::<
                        Seq<BondSlot>,
                        ParseError,
                    >(ParseError::DanglingRingBond));
                    assert(spec_commit(stv.atoms, stv.pending, 0) == Err::<
                        Seq<BondSlot>,
                        ParseError,
                    >(ParseError::DanglingRingBond));
                    assert(spec_finish_state(stv) == Err::<(Seq<Atom>, Seq<BondSlot>), ParseError>(
                        ParseError::DanglingRingBond,
                    ));
                    assert(spec_parse_molecule(input@) == Err::<
                        (int, Seq<Atom>, Seq<BondSlot>),
                        ParseError,
                    >(ParseError::DanglingRingBond));
                }
                return Err(ParseError::DanglingRingBond);
            },
        }
        j += 1;
    }
    proof {
        assert(spec_commit(stv.atoms, stv.pending, np as int) == Ok::<Seq<BondSlot>, ParseError>(
            Seq::empty(),
        ));
        assert(mol@.bonds + Seq::<BondSlot>::empty() =~= mol@.bonds);
    }
    Ok((input.substring_char(end, n), mol))
}

/// Parsing is deterministic: the result, and with it the number of atoms
/// and bonds, is a function of the description text alone, so repeated
/// parses of the same text agree.
pub proof fn lemma_parse_deterministic(s1: Seq<char>, s2: Seq<char>)
    requires
        s1 == s2,
    ensures
        spec_parse_molecule(s1) == spec_parse_molecule(s2),
{
}

/// Opens minus closes among the branch-marker tokens in `[lo, hi)`.
pub open spec fn paren_balance(ts: Seq<Token>, lo: int, hi: int) -> int
    decreases hi - lo,
{
    if hi <= lo {
        0
    } else {
        paren_balance(ts, lo, hi - 1) + match ts[hi - 1] {
            Token::Open => 1int,
            Token::Close => -1int,
            _ => 0int,
        }
    }
}

proof fn lemma_paren_balance_peel_lo(ts: Seq<Token>, lo: int, hi: int)
    requires
        lo < hi,
    ensures
        paren_balance(ts, lo, hi) == (match ts[lo] {
            Token::Open => 1int,
            Token::Close => -1int,
            _ => 0int,
        }) + paren_balance(ts, lo + 1, hi),
    decreases hi - lo,
{
    if lo + 1 < hi {
        lemma_paren_balance_peel_lo(ts, lo, hi - 1);
    } else {
        assert(paren_balance(ts, lo, lo) == 0);
        assert(paren_balance(ts, lo + 1, hi) == 0);
    }
}

proof fn lemma_fold_stack(st: BuildState, ts: Seq<Token>, k: int)
    requires
        0 <= k <= ts.len(),
    ensures
        (exists|p: int|
            k <= p < ts.len() && ts[p] is Close && st.stack.len() + paren_balance(ts, k, p)
                <= 0) ==> build_fold(st, ts, k) is Err,
        build_fold(st, ts, k) matches Ok(st2) ==> st2.stack.len() as int == st.stack.len()
            + paren_balance(ts, k, ts.len() as int),
    decreases ts.len() - k,
{
    if k == ts.len() {
    } else {
        match build_step(st, ts[k]) {
            Result::<BuildState, ParseError>::Err(e) => {},
            Result::<BuildState, ParseError>::Ok(st2) => {
                lemma_fold_stack(st2, ts, k + 1);
                lemma_paren_balance_peel_lo(ts, k, ts.len() as int);
                let delta: int = match ts[k] {
                    Token::Open => 1int,
                    Token::Close => -1int,
                    _ => 0int,
                };
                assert(st2.stack.len() as int == st.stack.len() + delta);
                if exists|p: int|
                    k <= p < ts.len() && ts[p] is Close && st.stack.len() + paren_balance(
                        ts,
                        k,
                        p,
                    ) <= 0 {
                    let p = choose|p: int|
                        k <= p < ts.len() && ts[p] is Close && st.stack.len() + paren_balance(
                            ts,
                            k,
                            p,
                        ) <= 0;
                    if p == k {
                        assert(paren_balance(ts, k, k) == 0);
                        assert(st.stack.len() == 0);
                        assert(false);
                    } else {
                        lemma_paren_balance_peel_lo(ts, k, p);
                        assert(st2.stack.len() + paren_balance(ts, k + 1, p) <= 0);
                        assert(build_fold(st2, ts, k + 1) is Err);
                    }
                }
            },
        }
    }
}

/// A description with an unmatched closing branch marker never parses: at
/// the first close that no open precedes, the branch stack is empty.
pub proof fn lemma_unmatched_close_fails(ts: Seq<Token>, p: int)
    requires
        0 <= p < ts.len(),
        ts[p] is Close,
        paren_balance(ts, 0, p) <= 0,
    ensures
        spec_build(ts) is Err,
{
    lemma_fold_stack(initial_state(), ts, 0);
}

/// A description that leaves a branch open at the end of input never
/// parses: the branch stack is nonempty at the termination check.
pub proof fn lemma_unclosed_open_fails(ts: Seq<Token>)
    requires
        paren_balance(ts, 0, ts.len() as int) > 0,
    ensures
        spec_build(ts) is Err,
{
    lemma_fold_stack(initial_state(), ts, 0);
    match build_fold(initial_state(), ts, 0) {
        Result::<BuildState, ParseError>::Err(e) => {},
        Result::<BuildState, ParseError>::Ok(st2) => {
            assert(st2.stack.len() > 0);
        },
    }
}

/// Occurrences of the ring-closure digit `d` among the tokens in `[lo, hi)`.
pub open spec fn digit_count(ts: Seq<Token>, lo: int, hi: int, d: u8) -> int
    decreases hi - lo,
{
    if hi <= lo {
        0
    } else {
        digit_count(ts, lo, hi - 1, d) + if ts[hi - 1] == Token::Digit(d) {
            1int
        } else {
            0int
        }
    }
}

proof fn lemma_digit_count_peel_lo(ts: Seq<Token>, lo: int, hi: int, d: u8)
    requires
        lo < hi,
    ensures
        digit_count(ts, lo, hi, d) == (if ts[lo] == Token::Digit(d) {
            1int
        } else {
            0int
        }) + digit_count(ts, lo + 1, hi, d),
    decreases hi - lo,
{
    if lo + 1 < hi {
        lemma_digit_count_peel_lo(ts, lo, hi - 1, d);
    } else {
        assert(digit_count(ts, lo, lo, d) == 0);
        assert(digit_count(ts, lo + 1, hi, d) == 0);
    }
}

proof fn lemma_fold_rings(st: BuildState, ts: Seq<Token>, k: int, d: u8)
    requires
        0 <= k <= ts.len(),
    ensures
        build_fold(st, ts, k) matches Ok(st2) ==> (st2.open.contains_key(d) <==> (
        st.open.contains_key(d) <==> digit_count(ts, k, ts.len() as int, d) % 2 == 0)),
    decreases ts.len() - k,
{
    if k == ts.len() {
    } else {
        match build_step(st, ts[k]) {
            Result::<BuildState, ParseError>::Err(e) => {},
            Result::<BuildState, ParseError>::Ok(st2) => {
                lemma_fold_rings(st2, ts, k + 1, d);
                lemma_digit_count_peel_lo(ts, k, ts.len() as int, d);
                vstd::arithmetic::div_mod::lemma_add_mod_noop(
                    (if ts[k] == Token::Digit(d) {
                        1int
                    } else {
                        0int
                    }),
                    digit_count(ts, k + 1, ts.len() as int, d),
                    2,
                );
            },
        }
    }
}

/// A ring-closure digit seen an odd number of times — in particular a digit
/// seen exactly once — leaves its closure open, and the parse always fails.
pub proof fn lemma_ring_digit_odd_fails(ts: Seq<Token>, d: u8)
    requires
        digit_count(ts, 0, ts.len() as int, d) % 2 == 1,
    ensures
        spec_build(ts) is Err,
{
    lemma_fold_rings(initial_state(), ts, 0, d);
    match build_fold(initial_state(), ts, 0) {
        Result::<BuildState, ParseError>::Err(e) => {},
        Result::<BuildState, ParseError>::Ok(st2) => {
            assert(st2.open.contains_key(d));
        },
    }
}

/// A ring-closure digit with no open closure — its first occurrence —
/// schedules no bond: it only stores the atom current at that point under
/// the digit.
pub proof fn lemma_ring_opening_adds_no_bond(st: BuildState, d: u8)
    requires
        !st.open.contains_key(d),
    ensures
        build_step(st, Token::Digit(d)) matches Ok(st2) && st2.pending == st.pending && st2.open
            == st.open.insert(d, st.prev) && st2.atoms == st.atoms,
{
}

/// A ring-closure digit seen the second time schedules exactly one
/// additional bond, joining the atom stored at its first occurrence to the
/// atom current at the second, with the pending bond order; the closure is
/// then spent and the atoms are untouched.
pub proof fn lemma_ring_closure_adds_bond(st: BuildState, d: u8)
    requires
        st.open.contains_key(d),
    ensures
        build_step(st, Token::Digit(d)) matches Ok(st2) && st2.pending == st.pending.push(
            (st.prev, st.open[d], Bond {
                order: st.pend,
                direction: BondDirection::Unspecified,
            }),
        ) && st2.atoms == st.atoms && !st2.open.contains_key(d),
{
}

} // verus!
