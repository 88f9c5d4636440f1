use ringo::similarity::tanimoto_counts;
use ringo::smiles::molecule::parse_molecule;

#[test]
fn test_ecfp() {
    let ecfp_ibuprofen = parse_molecule("CC(C)CC1=CC=C(C=C1)C(C)C(=O)O")
        .unwrap()
        .1
        .ecfp(2, 128);
    let ecfp_naproxen = parse_molecule("CC(C1=CC2=C(C=C1)C=C(C=C2)OC)C(=O)O")
        .unwrap()
        .1
        .ecfp(2, 128);
    let (both, either) = tanimoto_counts(&ecfp_ibuprofen, &ecfp_naproxen);
    let sim = both as f32 / either as f32;
    assert!(0.53 < sim && sim < 0.54);
}

#[test]
fn ecfp_test_ecfp() {
    let ecfp_ibuprofen = parse_molecule("CC(C)CC1=CC=C(C=C1)C(C)C(=O)O")
        .unwrap()
        .1
        .ecfp(2, 128);
    let ecfp_naproxen = parse_molecule("CC(C1=CC2=C(C=C1)C=C(C=C2)OC)C(=O)O")
        .unwrap()
        .1
        .ecfp(2, 128);
    let (both, either) = tanimoto_counts(&ecfp_ibuprofen, &ecfp_naproxen);
    let sim = both as f32 / either as f32;
    assert!(0.53 < sim && sim < 0.54);
}

#[test]
fn molecule_test_ecfp() {
    let ecfp_ibuprofen = parse_molecule("CC(C)CC1=CC=C(C=C1)C(C)C(=O)O")
        .unwrap()
        .1
        .ecfp(2, 128);
    let ecfp_naproxen = parse_molecule("CC(C1=CC2=C(C=C1)C=C(C=C2)OC)C(=O)O")
        .unwrap()
        .1
        .ecfp(2, 128);
    let (both, either) = tanimoto_counts(&ecfp_ibuprofen, &ecfp_naproxen);
    let sim = both as f32 / either as f32;
    assert!(0.53 < sim && sim < 0.54);
}

#[test]
fn molecule_ecfp() {
    for smiles in ["C", "CC", "C1COCNC1", "CN1C=NC2=C1C(=O)N(C(=O)N2C)C"] {
        let m = parse_molecule(smiles).unwrap().1;
        let result = m.ecfp(2, 128);
        let mut bits = String::new();
        for i in 0..128 {
            bits.push(if result.get_bit(i) { '1' } else { '0' });
        }
        println!("{}: {}", smiles, bits);
    }
}

#[test]
fn ecfp_deterministic() {
    let text = "CC(C)CC1=CC=C(C=C1)C(C)C(=O)O";
    let m1 = parse_molecule(text).unwrap().1;
    let m2 = parse_molecule(text).unwrap().1;
    let fp1 = m1.ecfp(2, 512);
    let fp2 = m2.ecfp(2, 512);
    assert_eq!(fp1.0, fp2.0);
    let fp3 = m1.ecfp(2, 512);
    assert_eq!(fp1.0, fp3.0);
}

#[test]
fn ecfp_records_nothing_at_radius_zero_width_edge() {
    // A one-atom molecule sets exactly one bit.
    let m = parse_molecule("C").unwrap().1;
    let fp = m.ecfp(2, 512);
    assert_eq!(fp.ones().len(), 1);
}
