use ringo::codec::{decode_fingerprint, decode_index_item, encode_fingerprint, encode_index_item,
    IndexItem, INDEX_ITEM_BYTES};
use ringo::fingerprint::{Fingerprint, FINGERPRINT_SIZE};

#[test]
fn test_fingerprint_encode_decode() {
    let mut fp = Fingerprint::new();
    fp.set_bit(1);
    fp.set_bit(17);

    let buf = encode_fingerprint(&fp);
    assert_eq!(buf.len(), FINGERPRINT_SIZE / 8);

    let decoded = decode_fingerprint(&buf, 0);
    assert_eq!(decoded.ones(), vec![1, 17]);
}

#[test]
fn test_index_item_encode_decode() {
    let mut fp = Fingerprint::new();
    let mut ii = IndexItem {
        position: 0,
        fingerprint: fp,
    };
    ii.position = 0;
    ii.fingerprint.set_bit(1);
    ii.fingerprint.set_bit(17);

    let encoded = encode_index_item(&ii);
    let decoded = decode_index_item(&encoded, 0).unwrap();
    assert_eq!(decoded.fingerprint.ones(), vec![1, 17]);

    fp = decoded.fingerprint;
    assert_eq!(fp.get_bit(1), true);
}

#[test]
fn index_item_test_index_item_encode_decode() {
    let mut ii = IndexItem {
        position: 0,
        fingerprint: Fingerprint::new(),
    };
    ii.position = 0;
    ii.fingerprint.set_bit(1);
    ii.fingerprint.set_bit(17);

    let encoded = encode_index_item(&ii);
    let decoded = decode_index_item(&encoded, 0).unwrap();
    assert_eq!(decoded.fingerprint.ones(), vec![1, 17]);
}

#[test]
fn index_item_round_trips_offset_and_bits() {
    let mut fp = Fingerprint::new();
    fp.set_bit(0);
    fp.set_bit(63);
    fp.set_bit(64);
    fp.set_bit(511);
    let ii = IndexItem {
        position: 123456789,
        fingerprint: fp,
    };
    let encoded = encode_index_item(&ii);
    assert_eq!(encoded.len(), INDEX_ITEM_BYTES);
    let decoded = decode_index_item(&encoded, 0).unwrap();
    assert_eq!(decoded.position, 123456789);
    assert_eq!(decoded.fingerprint.ones(), vec![0, 63, 64, 511]);
}
