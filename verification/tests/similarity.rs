use ringo::fingerprint::Fingerprint;
use ringo::similarity::tanimoto_counts;
use ringo::smiles::molecule::parse_molecule;

#[test]
fn tanimoto_counts_unequal_fingerprints() {
    let mut a = Fingerprint::new();
    a.set_bit(0);
    a.set_bit(2);
    let mut b = Fingerprint::new();
    b.set_bit(0);
    b.set_bit(1);
    let (both, either) = tanimoto_counts(&a, &b);
    assert_eq!(both, 1);
    assert_eq!(either, 3);
    assert_eq!(both as f32 / either as f32, 0.33333334);
}

#[test]
fn tanimoto_counts_half() {
    let mut a = Fingerprint::new();
    a.set_bit(0);
    let mut b = Fingerprint::new();
    b.set_bit(0);
    b.set_bit(1);
    let (both, either) = tanimoto_counts(&a, &b);
    assert_eq!(both as f32 / either as f32, 0.5);
}

#[test]
fn similarity_score_lies_between_zero_and_one() {
    let a = parse_molecule("CCO").unwrap().1.ecfp(2, 512);
    let b = parse_molecule("CCN").unwrap().1.ecfp(2, 512);
    let (both, either) = tanimoto_counts(&a, &b);
    assert!(both <= either);
    let s = both as f32 / either as f32;
    assert!(0.0 <= s && s <= 1.0);
}

#[test]
fn self_similarity_is_one() {
    let fp = parse_molecule("CC(C)CC1=CC=C(C=C1)C(C)C(=O)O")
        .unwrap()
        .1
        .ecfp(2, 512);
    let (both, either) = tanimoto_counts(&fp, &fp);
    assert_eq!(both, either);
    assert!(either > 0);
    assert_eq!(both as f32 / either as f32, 1.0);
}
