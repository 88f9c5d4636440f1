use vstd::prelude::*;
use vstd::std_specs::hash::DefaultHasherAdditionalSpecFns;
use std::collections::hash_map::DefaultHasher;
use std::hash::Hasher;
use crate::model::{Atom, spec_bond_order_code, bond_order_code};
use crate::molecule::{Molecule, GraphV};
use crate::fingerprint::Fingerprint;

verus! {

/// The two's-complement byte that a signed charge contributes to the hash
/// stream.
pub open spec fn spec_charge_byte(c: i8) -> u8 {
    if c >= 0 {
        c as u8
    } else {
        (c + 256) as u8
    }
}

fn charge_byte(c: i8) -> (r: u8)
    ensures
        r == spec_charge_byte(c),
{
    if c >= 0 {
        c as u8
    } else {
        let t: i16 = c as i16 + 256;
        t as u8
    }
}

/// The four single-byte write calls that an atom folds into the hash state:
/// atomic number, isotope, charge, hydrogen count.
pub open spec fn spec_atom_writes(a: Atom) -> Seq<Seq<u8>> {
    seq![
        seq![a.element.atomic_number],
        seq![a.isotope],
        seq![spec_charge_byte(a.charge)],
        seq![a.hs],
    ]
}

/// Appends one single-byte write call to the hash state.
fn write_byte(h: &mut DefaultHasher, b: u8)
    ensures
        final(h)@ == old(h)@.push(seq![b]),
{
    let mut buf: Vec<u8> = Vec::new();
    buf.push(b);
    h.write(buf.as_slice());
}

/// One step of the neighborhood walk from `node` at `depth`: nothing happens
/// past the radius; otherwise the atom's bytes are folded into the hash
/// state, the bit at the accumulated hash value (reduced modulo `w`) is set,
/// and the walk descends through the adjacent bonds in adjacency order.
/// The hash state is cumulative: it is never restored on return.
pub open spec fn spec_walk(
    m: GraphV,
    radius: int,
    depth: int,
    node: usize,
    h: Seq<Seq<u8>>,
    fp: Seq<u64>,
    w: int,
) -> (Seq<Seq<u8>>, Seq<u64>)
    decreases radius + 1 - depth, 1int, 0int,
{
    if depth > radius {
        (h, fp)
    } else {
        let a = m.atoms[node as int];
        let h1 = h + spec_atom_writes(a);
        let v = DefaultHasher::spec_finish(h1);
        let idx = v as int % w;
        let fp1 = fp.update(idx / 64, fp[idx / 64] | (1u64 << ((idx % 64) as u64)));
        spec_walk_edges(m, radius, depth, node, m.spec_adjacent(node), 0, h1, fp1, w)
    }
}

/// The walk over the adjacency list of `node` from position `k` on: each
/// step folds the bond's order byte into the hash state and recurses into
/// the opposite endpoint one level deeper.
pub open spec fn spec_walk_edges(
    m: GraphV,
    radius: int,
    depth: int,
    node: usize,
    adj: Seq<usize>,
    k: int,
    h: Seq<Seq<u8>>,
    fp: Seq<u64>,
    w: int,
) -> (Seq<Seq<u8>>, Seq<u64>)
    decreases radius + 1 - depth, 0int, adj.len() - k,
    when depth <= radius
{
    if k < 0 || k >= adj.len() {
        (h, fp)
    } else {
        let e = adj[k] as int;
        let h1 = h.push(seq![spec_bond_order_code(m.bonds[e].bond.order)]);
        let other = m.spec_other_end(e, node);
        let r1 = spec_walk(m, radius, depth + 1, other, h1, fp, w);
        spec_walk_edges(m, radius, depth, node, adj, k + 1, r1.0, r1.1, w)
    }
}

/// The fingerprint accumulated by walking from each of the first `n` atoms
/// in turn, each walk starting with a fresh hash state.
pub open spec fn spec_ecfp_from(m: GraphV, radius: int, w: int, n: int) -> Seq<u64>
    decreases n,
{
    if n <= 0 {
        Seq::new(8, |i: int| 0u64)
    } else {
        spec_walk(m, radius, 1, (n - 1) as usize, Seq::empty(), spec_ecfp_from(m, radius, w, n - 1), w).1
    }
}

/// The circular fingerprint of a molecule at the given radius and bit width.
pub open spec fn spec_ecfp(m: GraphV, radius: int, w: int) -> Seq<u64> {
    spec_ecfp_from(m, radius, w, m.atoms.len() as int)
}

fn ecfp_walk(
    m: &Molecule,
    radius: usize,
    depth: usize,
    node: usize,
    h: &mut DefaultHasher,
    fp: &mut Fingerprint,
    w: usize,
)
    requires
        m@.wf(),
        node < m@.atoms.len(),
        0 < w <= 512,
        old(fp).wf(),
        radius < usize::MAX,
        depth <= radius + 1,
    ensures
        final(fp).wf(),
        (final(h)@, final(fp).0@) == spec_walk(
            m@,
            radius as int,
            depth as int,
            node,
            old(h)@,
            old(fp).0@,
            w as int,
        ),
    decreases radius + 1 - depth, 1int, 0int,
{
    if depth > radius {
        return ;
    }
    let ghost h0 = h@;
    let a = m.atoms[node];
    write_byte(h, a.element.atomic_number);
    write_byte(h, a.isotope);
    write_byte(h, charge_byte(a.charge));
    write_byte(h, a.hs);
    proof {
        assert(h@ =~= h0 + spec_atom_writes(a));
    }
    let v = (*h).finish();
    let idx = (v % (w as u64)) as usize;
    fp.set_bit(idx);
    proof {
        assert(idx as int == DefaultHasher::spec_finish(h0 + spec_atom_writes(a)) as int % (
        w as int));
    }
    let bond_count = m.count_bonds();
    let adj = m.get_bonds_for_atom(node);
    proof {
        assert(m@.bonds.len() == bond_count);
        m@.lemma_adjacent_elems(node);
    }
    ecfp_walk_edges(m, radius, depth, node, &adj, 0, h, fp, w);
}

fn ecfp_walk_edges(
    m: &Molecule,
    radius: usize,
    depth: usize,
    node: usize,
    adj: &Vec<usize>,
    k: usize,
    h: &mut DefaultHasher,
    fp: &mut Fingerprint,
    w: usize,
)
    requires
        m@.wf(),
        node < m@.atoms.len(),
        0 < w <= 512,
        old(fp).wf(),
        radius < usize::MAX,
        depth <= radius,
        adj@ == m@.spec_adjacent(node),
        k <= adj@.len(),
        forall|j: int| 0 <= j < adj@.len() ==> (#[trigger] adj@[j]) < m@.bonds.len(),
    ensures
        final(fp).wf(),
        (final(h)@, final(fp).0@) == spec_walk_edges(
            m@,
            radius as int,
            depth as int,
            node,
            adj@,
            k as int,
            old(h)@,
            old(fp).0@,
            w as int,
        ),
    decreases radius + 1 - depth, 0int, adj@.len() - k,
{
    if k >= adj.len() {
        return ;
    }
    let e = adj[k];
    let slot = m.bonds[e];
    write_byte(h, bond_order_code(slot.bond.order));
    let other = if slot.from == node {
        slot.to
    } else {
        slot.from
    };
    ecfp_walk(m, radius, depth + 1, other, h, fp, w);
    ecfp_walk_edges(m, radius, depth, node, adj, k + 1, h, fp, w);
}

impl Molecule {
    /// The circular fingerprint: every atom seeds a depth-bounded walk whose
    /// cumulative hash values select the bits to set, reduced modulo
    /// `fp_length`.  The same molecule, radius and width always produce an
    /// identical fingerprint, since the result is a function of exactly
    /// those three values.
    pub fn ecfp(&self, radius: usize, fp_length: usize) -> (r: Fingerprint)
        requires
            self@.wf(),
            0 < fp_length <= 512,
            radius < usize::MAX,
        ensures
            r.wf(),
            r.0@ == spec_ecfp(self@, radius as int, fp_length as int),
    {
        let mut fp = Fingerprint::new();
        let n = self.count_atoms();
        let mut node: usize = 0;
        while node < n
            invariant
                node <= n,
                n == self@.atoms.len(),
                self@.wf(),
                0 < fp_length <= 512,
                radius < usize::MAX,
                fp.wf(),
                fp.0@ == spec_ecfp_from(self@, radius as int, fp_length as int, node as int),
            decreases n - node,
        {
            let mut h = DefaultHasher::new();
            ecfp_walk(self, radius, 1, node, &mut h, &mut fp, fp_length);
            node += 1;
        }
        fp
    }
}

/// Fingerprint determinism: the fingerprint is a function of the molecule,
/// the radius and the width alone, so computing it twice over the same
/// graph yields bit-identical results.
pub proof fn lemma_fingerprint_deterministic(
    m: GraphV,
    radius: int,
    w: int,
    fp1: Seq<u64>,
    fp2: Seq<u64>,
)
    requires
        fp1 == spec_ecfp(m, radius, w),
        fp2 == spec_ecfp(m, radius, w),
    ensures
        fp1 == fp2,
{
}

} // verus!
