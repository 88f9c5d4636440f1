use petgraph::stable_graph::{EdgeIndex, NodeIndex, StableGraph};
use petgraph::visit::EdgeRef;
use petgraph::Undirected;
use ringo::errors::ParseError;
use ringo::model::{Atom, Bond, BondDirection, BondOrder, Chirality, Element};
use ringo::molecule::Molecule;
use ringo::smiles::molecule::parse_molecule;

fn plain_atom(atomic_number: u8) -> Atom {
    Atom {
        element: Element { atomic_number },
        isotope: 0,
        charge: 0,
        hs: 0,
        chirality: Chirality::Unspecified,
    }
}

fn single_bond() -> Bond {
    Bond {
        order: BondOrder::Single,
        direction: BondDirection::Unspecified,
    }
}

/// The arena graph reports incident bonds in the same order as a reference
/// stable-graph adjacency structure built from the same additions.
#[test]
fn adjacency_order_matches_stable_graph() {
    let edge_sets: Vec<Vec<(usize, usize)>> = vec![
        vec![(0, 1), (1, 2), (2, 0)],
        vec![(0, 1), (0, 2), (0, 3), (2, 3), (3, 1)],
        vec![(1, 0), (2, 0), (0, 3), (3, 3)],
    ];
    for edges in edge_sets {
        let n = 4;
        let mut mine = Molecule::new();
        let mut reference: StableGraph<u8, u8, Undirected> = StableGraph::default();
        for i in 0..n {
            mine.add_atom(plain_atom(6));
            reference.add_node(i as u8);
        }
        for &(a, b) in &edges {
            mine.add_bond(a, b, single_bond());
            reference.add_edge(NodeIndex::new(a), NodeIndex::new(b), 0);
        }
        for v in 0..n {
            let mine_order = mine.get_bonds_for_atom(v);
            let ref_order: Vec<usize> = reference
                .edges(NodeIndex::new(v))
                .map(|e| e.id().index())
                .collect();
            assert_eq!(mine_order, ref_order);
        }
    }
}

/// The walk's "opposite endpoint" choice agrees with the reference
/// structure's edge reporting.
#[test]
fn opposite_endpoints_match_stable_graph() {
    let mut mine = Molecule::new();
    let mut reference: StableGraph<u8, u8, Undirected> = StableGraph::default();
    for i in 0..3 {
        mine.add_atom(plain_atom(6));
        reference.add_node(i as u8);
    }
    for &(a, b) in &[(0usize, 1usize), (2, 0), (1, 2)] {
        mine.add_bond(a, b, single_bond());
        reference.add_edge(NodeIndex::new(a), NodeIndex::new(b), 0);
    }
    for v in 0..3usize {
        let mine_bonds = mine.get_bonds_for_atom(v);
        let ref_others: Vec<usize> = reference
            .edges(NodeIndex::new(v))
            .map(|e| {
                if e.source() == NodeIndex::new(v) {
                    e.target().index()
                } else {
                    e.source().index()
                }
            })
            .collect();
        let mine_others: Vec<usize> = mine_bonds
            .iter()
            .map(|&k| {
                let slot = &mine.bonds[k];
                if slot.from == v {
                    slot.to
                } else {
                    slot.from
                }
            })
            .collect();
        assert_eq!(mine_others, ref_others);
        // Exercise the reference edge lookup for parity.
        assert_eq!(
            reference.edge_weight(EdgeIndex::new(mine_bonds[0])).is_some(),
            mine.get_bond(mine_bonds[0]).is_some()
        );
    }
}

#[test]
fn neighbors_are_sorted_and_deduplicated() {
    let m = parse_molecule("C1P=N#1").unwrap().1;
    let neighbors = m.get_neighbors_for_atom(0);
    assert_eq!(neighbors, vec![1, 2]);
}

#[test]
fn ring_digit_twice_adds_exactly_one_bond() {
    let chain = parse_molecule("CCCC").unwrap().1;
    let ring = parse_molecule("C1CCC1").unwrap().1;
    assert_eq!(chain.count_atoms(), 4);
    assert_eq!(ring.count_atoms(), 4);
    assert_eq!(chain.count_bonds(), 3);
    assert_eq!(ring.count_bonds(), 4);
    assert!(ring.has_bond(0, 3));
    assert!(!chain.has_bond(0, 3));
}

#[test]
fn ring_digit_once_fails() {
    assert_eq!(
        parse_molecule("C1CC").unwrap_err(),
        ParseError::UnclosedRing
    );
}

#[test]
fn unmatched_close_fails() {
    assert_eq!(
        parse_molecule("C)C").unwrap_err(),
        ParseError::UnbalancedBranch
    );
}

#[test]
fn unclosed_open_fails() {
    assert_eq!(
        parse_molecule("C(C").unwrap_err(),
        ParseError::UnbalancedBranch
    );
}

#[test]
fn mismatched_bracket_fails() {
    assert_eq!(
        parse_molecule("[13CH3-C").unwrap_err(),
        ParseError::MismatchedBracket
    );
}

#[test]
fn ring_closure_before_any_atom_fails() {
    assert_eq!(
        parse_molecule("1C1").unwrap_err(),
        ParseError::DanglingRingBond
    );
}

#[test]
fn parse_is_deterministic_over_repeated_calls() {
    let text = "CC(C1=CC2=C(C=C1)C=C(C=C2)OC)C(=O)O";
    let m1 = parse_molecule(text).unwrap().1;
    let m2 = parse_molecule(text).unwrap().1;
    assert_eq!(m1.count_atoms(), m2.count_atoms());
    assert_eq!(m1.count_bonds(), m2.count_bonds());
}

#[test]
fn trailing_garbage_is_returned_unconsumed() {
    let (rest, m) = parse_molecule("Cx").unwrap();
    assert_eq!(rest, "x");
    assert_eq!(m.count_atoms(), 1);
}
