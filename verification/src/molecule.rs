use vstd::prelude::*;
use crate::model::{Atom, Bond};

verus! {

/// One slot of the bond arena: the two endpoint atom indices and the bond label.
#[derive(Debug, Eq, PartialEq, Clone, Copy)]
pub struct BondSlot {
    pub from: usize,
    pub to: usize,
    pub bond: Bond,
}

/// An undirected multigraph of atoms and bonds, stored as two arenas with
/// stable integer identifiers: atom `k` is `atoms[k]`, bond `k` is `bonds[k]`.
/// Neighbor lookup is an adjacency query over the bond arena filtered by
/// endpoint index.
#[derive(Debug)]
pub struct Molecule {
    pub atoms: Vec<Atom>,
    pub bonds: Vec<BondSlot>,
}

/// The mathematical view of a molecule: the two arenas as sequences.
#[verifier::ext_equal]
pub struct GraphV {
    pub atoms: Seq<Atom>,
    pub bonds: Seq<BondSlot>,
}

impl View for Molecule {
    type V = GraphV;

    open spec fn view(&self) -> GraphV {
        GraphV { atoms: self.atoms@, bonds: self.bonds@ }
    }
}

impl GraphV {
    /// Every bond references existing atom slots.
    pub open spec fn wf(self) -> bool {
        forall|k: int|
            0 <= k < self.bonds.len() ==> (#[trigger] self.bonds[k]).from < self.atoms.len()
                && self.bonds[k].to < self.atoms.len()
    }

    /// Whether bond slot `k` joins atoms `a` and `b` (in either direction).
    pub open spec fn spec_joins(self, k: int, a: usize, b: usize) -> bool {
        &&& 0 <= k < self.bonds.len()
        &&& ((self.bonds[k].from == a && self.bonds[k].to == b) || (self.bonds[k].from == b
            && self.bonds[k].to == a))
    }

    /// Whether some bond joins atoms `a` and `b`.
    pub open spec fn spec_connected(self, a: usize, b: usize) -> bool {
        exists|k: int| self.spec_joins(k, a, b)
    }

    /// Whether bond slot `k` belongs to the `out` (first) or `in` (second)
    /// half of atom `a`'s adjacency list.  Bonds whose `from` endpoint is `a`
    /// form the first half; bonds whose `to` endpoint is `a` (self-loops
    /// excluded) form the second.
    pub open spec fn spec_adj_side(self, a: usize, out: bool, k: int) -> bool {
        if out {
            self.bonds[k].from == a
        } else {
            self.bonds[k].to == a && self.bonds[k].from != a
        }
    }

    /// The bond indices in `[lo, hi)` on the given side of atom `a`'s
    /// adjacency, in decreasing index order (most recently added first).
    pub open spec fn spec_adj_range(self, a: usize, out: bool, lo: int, hi: int) -> Seq<usize>
        decreases hi - lo,
    {
        if hi <= lo {
            Seq::empty()
        } else if self.spec_adj_side(a, out, hi - 1) {
            seq![(hi - 1) as usize] + self.spec_adj_range(a, out, lo, hi - 1)
        } else {
            self.spec_adj_range(a, out, lo, hi - 1)
        }
    }

    /// The full adjacency order of atom `a`: bonds leaving `a`, most recent
    /// first, then bonds arriving at `a`, most recent first.
    pub open spec fn spec_adjacent(self, a: usize) -> Seq<usize> {
        self.spec_adj_range(a, true, 0, self.bonds.len() as int) + self.spec_adj_range(
            a,
            false,
            0,
            self.bonds.len() as int,
        )
    }

    /// The endpoint of bond `k` opposite to atom `a`, as the neighborhood
    /// walk picks it.
    pub open spec fn spec_other_end(self, k: int, a: usize) -> usize {
        if self.bonds[k].from == a {
            self.bonds[k].to
        } else {
            self.bonds[k].from
        }
    }

    /// Splitting an adjacency range at its low end.
    pub proof fn lemma_adj_range_peel_lo(self, a: usize, out: bool, lo: int, hi: int)
        requires
            lo < hi,
        ensures
            self.spec_adj_range(a, out, lo, hi) == self.spec_adj_range(a, out, lo + 1, hi) + (
            if self.spec_adj_side(a, out, lo) {
                seq![lo as usize]
            } else {
                Seq::<usize>::empty()
            }),
        decreases hi - lo,
    {
        if lo + 1 == hi {
            assert(self.spec_adj_range(a, out, lo + 1, hi) =~= Seq::<usize>::empty());
            assert(self.spec_adj_range(a, out, lo, lo) =~= Seq::<usize>::empty());
            if self.spec_adj_side(a, out, lo) {
                assert(self.spec_adj_range(a, out, lo, hi) =~= self.spec_adj_range(a, out, lo + 1, hi)
                    + seq![lo as usize]);
            } else {
                assert(self.spec_adj_range(a, out, lo, hi) =~= self.spec_adj_range(a, out, lo + 1, hi));
            }
        } else {
            self.lemma_adj_range_peel_lo(a, out, lo, hi - 1);
            if self.spec_adj_side(a, out, hi - 1) {
                assert(self.spec_adj_range(a, out, lo, hi) =~= self.spec_adj_range(a, out, lo + 1, hi)
                    + (if self.spec_adj_side(a, out, lo) {
                    seq![lo as usize]
                } else {
                    Seq::<usize>::empty()
                }));
            } else {
                assert(self.spec_adj_range(a, out, lo, hi) =~= self.spec_adj_range(a, out, lo + 1, hi)
                    + (if self.spec_adj_side(a, out, lo) {
                    seq![lo as usize]
                } else {
                    Seq::<usize>::empty()
                }));
            }
        }
    }

    /// Every index in an adjacency range lies in `[lo, hi)` and is on the
    /// requested side.
    pub proof fn lemma_adj_range_elems(self, a: usize, out: bool, lo: int, hi: int)
        requires
            0 <= lo,
            hi <= usize::MAX,
        ensures
            forall|j: int|
                0 <= j < self.spec_adj_range(a, out, lo, hi).len() ==> {
                    let e = #[trigger] self.spec_adj_range(a, out, lo, hi)[j];
                    lo <= e < hi && self.spec_adj_side(a, out, e as int)
                },
        decreases hi - lo,
    {
        if hi <= lo {
        } else {
            self.lemma_adj_range_elems(a, out, lo, hi - 1);
            let rec = self.spec_adj_range(a, out, lo, hi - 1);
            if self.spec_adj_side(a, out, hi - 1) {
                assert(self.spec_adj_range(a, out, lo, hi) == seq![(hi - 1) as usize] + rec);
            } else {
                assert(self.spec_adj_range(a, out, lo, hi) == rec);
            }
            assert forall|j: int| 0 <= j < self.spec_adj_range(a, out, lo, hi).len() implies {
                let e = #[trigger] self.spec_adj_range(a, out, lo, hi)[j];
                lo <= e < hi && self.spec_adj_side(a, out, e as int)
            } by {
                if self.spec_adj_side(a, out, hi - 1) {
                    if j == 0 {
                        assert(self.spec_adj_range(a, out, lo, hi)[0] == (hi - 1) as usize);
                        assert(lo <= hi - 1 < hi);
                    } else {
                        assert(self.spec_adj_range(a, out, lo, hi)[j] == rec[j - 1]);
                        assert(lo <= rec[j - 1] < hi - 1);
                        assert(self.spec_adj_side(a, out, rec[j - 1] as int));
                    }
                } else {
                    assert(self.spec_adj_range(a, out, lo, hi)[j] == rec[j]);
                    assert(lo <= rec[j] < hi - 1);
                    assert(self.spec_adj_side(a, out, rec[j] as int));
                }
            }
        }
    }

    /// Every index in the full adjacency order is a valid bond slot incident
    /// to `a`.
    pub proof fn lemma_adjacent_elems(self, a: usize)
        requires
            self.bonds.len() <= usize::MAX,
        ensures
            forall|j: int|
                0 <= j < self.spec_adjacent(a).len() ==> {
                    let e = #[trigger] self.spec_adjacent(a)[j];
                    e < self.bonds.len() && (self.bonds[e as int].from == a
                        || self.bonds[e as int].to == a)
                },
    {
        let n = self.bonds.len() as int;
        self.lemma_adj_range_elems(a, true, 0, n);
        self.lemma_adj_range_elems(a, false, 0, n);
    }


    /// The label of the first bond in `ni1`'s adjacency order whose opposite
    /// endpoint is `ni2`, if any.
    pub open spec fn spec_bond_between_from(self, ni1: usize, ni2: usize, adj: Seq<usize>, j: int) -> Option<
        Bond,
    >
        decreases adj.len() - j,
    {
        if j < 0 || j >= adj.len() {
            Option::None
        } else if self.spec_other_end(adj[j] as int, ni1) == ni2 {
            Option::Some(self.bonds[adj[j] as int].bond)
        } else {
            self.spec_bond_between_from(ni1, ni2, adj, j + 1)
        }
    }

    pub open spec fn spec_bond_between(self, ni1: usize, ni2: usize) -> Option<Bond> {
        self.spec_bond_between_from(ni1, ni2, self.spec_adjacent(ni1), 0)
    }

    /// Whether `v` is a neighbor of `a`: a different atom sharing some bond.
    pub open spec fn spec_is_neighbor(self, a: usize, v: usize) -> bool {
        v != a && self.spec_connected(a, v)
    }
}

impl Molecule {
    pub fn new() -> (r: Molecule)
        ensures
            r@.atoms == Seq::<Atom>::empty(),
            r@.bonds == Seq::<BondSlot>::empty(),
            r@.wf(),
    {
        Molecule { atoms: Vec::new(), bonds: Vec::new() }
    }

    /// Adds an atom slot and returns its stable index.
    pub fn add_atom(&mut self, atom: Atom) -> (r: usize)
        ensures
            final(self)@.atoms == old(self)@.atoms.push(atom),
            final(self)@.bonds == old(self)@.bonds,
            r == old(self)@.atoms.len(),
            old(self)@.wf() ==> final(self)@.wf(),
    {
        let r = self.atoms.len();
        self.atoms.push(atom);
        r
    }

    /// Adds a bond slot between two existing atoms and returns its stable index.
    pub fn add_bond(&mut self, atom1: usize, atom2: usize, bond: Bond) -> (r: usize)
        requires
            atom1 < old(self)@.atoms.len(),
            atom2 < old(self)@.atoms.len(),
        ensures
            final(self)@.atoms == old(self)@.atoms,
            final(self)@.bonds == old(self)@.bonds.push(BondSlot { from: atom1, to: atom2, bond }),
            r == old(self)@.bonds.len(),
            old(self)@.wf() ==> final(self)@.wf(),
    {
        let r = self.bonds.len();
        self.bonds.push(BondSlot { from: atom1, to: atom2, bond });
        r
    }

    pub fn get_atom(&self, node: usize) -> (r: Option<&Atom>)
        ensures
            match r {
                Some(a) => node < self@.atoms.len() && *a == self@.atoms[node as int],
                None => node >= self@.atoms.len(),
            },
    {
        if node < self.atoms.len() {
            Some(&self.atoms[node])
        } else {
            None
        }
    }

    pub fn get_bond(&self, edge: usize) -> (r: Option<&Bond>)
        ensures
            match r {
                Some(b) => edge < self@.bonds.len() && *b == self@.bonds[edge as int].bond,
                None => edge >= self@.bonds.len(),
            },
    {
        if edge < self.bonds.len() {
            Some(&self.bonds[edge].bond)
        } else {
            None
        }
    }

    pub fn count_atoms(&self) -> (r: usize)
        ensures
            r == self@.atoms.len(),
    {
        self.atoms.len()
    }

    pub fn count_bonds(&self) -> (r: usize)
        ensures
            r == self@.bonds.len(),
    {
        self.bonds.len()
    }

    /// Whether any bond joins the two atoms.
    pub fn has_bond(&self, ni1: usize, ni2: usize) -> (r: bool)
        ensures
            r == self@.spec_connected(ni1, ni2),
    {
        let n = self.bonds.len();
        let mut k: usize = 0;
        while k < n
            invariant
                k <= n,
                n == self@.bonds.len(),
                forall|j: int| 0 <= j < k ==> !self@.spec_joins(j, ni1, ni2),
            decreases n - k,
        {
            let s = self.bonds[k];
            if (s.from == ni1 && s.to == ni2) || (s.from == ni2 && s.to == ni1) {
                assert(self@.spec_joins(k as int, ni1, ni2));
                return true;
            }
            k += 1;
        }
        false
    }

    /// The bond indices incident to `atom`, in adjacency order.
    pub fn get_bonds_for_atom(&self, atom: usize) -> (r: Vec<usize>)
        ensures
            r@ == self@.spec_adjacent(atom),
    {
        let n = self.bonds.len();
        let mut r: Vec<usize> = Vec::new();
        let mut k = n;
        while k > 0
            invariant
                k <= n,
                n == self@.bonds.len(),
                r@ == self@.spec_adj_range(atom, true, k as int, n as int),
            decreases k,
        {
            k -= 1;
            proof {
                self@.lemma_adj_range_peel_lo(atom, true, k as int, n as int);
            }
            if self.bonds[k].from == atom {
                r.push(k);
            }
        }
        let ghost out_part = r@;
        let mut k2 = n;
        while k2 > 0
            invariant
                k2 <= n,
                n == self@.bonds.len(),
                out_part == self@.spec_adj_range(atom, true, 0, n as int),
                r@ == out_part + self@.spec_adj_range(atom, false, k2 as int, n as int),
            decreases k2,
        {
            k2 -= 1;
            proof {
                self@.lemma_adj_range_peel_lo(atom, false, k2 as int, n as int);
            }
            if self.bonds[k2].to == atom && self.bonds[k2].from != atom {
                r.push(k2);
            }
        }
        proof {
            assert(r@ =~= self@.spec_adjacent(atom));
        }
        r
    }

    pub fn get_bond_by_atoms(&self, ni1: usize, ni2: usize) -> (r: Option<&Bond>)
        ensures
            match r {
                Some(b) => self@.spec_bond_between(ni1, ni2) == Option::Some(*b),
                None => self@.spec_bond_between(ni1, ni2) is None,
            },
    {
        let bond_count = self.bonds.len();
        let adj = self.get_bonds_for_atom(ni1);
        proof {
            assert(self@.bonds.len() == bond_count);
            self@.lemma_adjacent_elems(ni1);
        }
        let m = adj.len();
        let mut j: usize = 0;
        while j < m
            invariant
                j <= m,
                m == adj@.len(),
                adj@ == self@.spec_adjacent(ni1),
                forall|i: int|
                    0 <= i < adj@.len() ==> (#[trigger] adj@[i]) < self@.bonds.len(),
                self@.spec_bond_between(ni1, ni2) == self@.spec_bond_between_from(
                    ni1,
                    ni2,
                    adj@,
                    j as int,
                ),
            decreases m - j,
        {
            let e = adj[j];
            let s = self.bonds[e];
            let other = if s.from == ni1 {
                s.to
            } else {
                s.from
            };
            if other == ni2 {
                return Some(&self.bonds[e].bond);
            }
            j += 1;
        }
        None
    }

    /// The neighbors of `atom`, as a strictly ascending list of atom indices.
    pub fn get_neighbors_for_atom(&self, atom: usize) -> (r: Vec<usize>)
        requires
            self@.wf(),
        ensures
            forall|i: int, j: int| 0 <= i < j < r@.len() ==> r@[i] < r@[j],
            forall|v: usize| r@.contains(v) <==> self@.spec_is_neighbor(atom, v),
    {
        let n = self.atoms.len();
        let mut r: Vec<usize> = Vec::new();
        let mut v: usize = 0;
        while v < n
            invariant
                v <= n,
                n == self@.atoms.len(),
                forall|i: int, j: int| 0 <= i < j < r@.len() ==> r@[i] < r@[j],
                forall|i: int| 0 <= i < r@.len() ==> r@[i] < v,
                forall|w: usize| #[trigger] r@.contains(w) ==> (w < v && self@.spec_is_neighbor(atom, w)),
                forall|w: usize| w < v && #[trigger] self@.spec_is_neighbor(atom, w) ==> r@.contains(w),
            decreases n - v,
        {
            let ghost prev = r@;
            if v != atom && self.has_bond(atom, v) {
                proof {
                    assert(self@.spec_is_neighbor(atom, v));
                }
                r.push(v);
                proof {
                    assert forall|w: usize| prev.contains(w) implies r@.contains(w) by {
                        let i = choose|i: int| 0 <= i < prev.len() && prev[i] == w;
                        assert(r@[i] == w);
                    }
                    assert(r@.contains(v)) by {
                        assert(r@[r@.len() - 1] == v);
                    }
                    assert forall|w: usize| #[trigger] r@.contains(w) implies prev.contains(w) || w
                        == v by {
                        let i = choose|i: int| 0 <= i < r@.len() && r@[i] == w;
                        if i < prev.len() {
                            assert(prev[i] == w);
                        }
                    }
                }
            } else {
                proof {
                    assert(!self@.spec_is_neighbor(atom, v));
                }
            }
            v += 1;
        }
        proof {
            assert forall|w: usize| r@.contains(w) <==> self@.spec_is_neighbor(atom, w) by {
                if self@.spec_is_neighbor(atom, w) {
                    let k = choose|k: int| self@.spec_joins(k, atom, w);
                    assert(w < self@.atoms.len());
                }
            }
        }
        r
    }
}

} // verus!
