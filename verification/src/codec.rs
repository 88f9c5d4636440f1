use vstd::prelude::*;
use vstd::bytes::{spec_u64_to_le_bytes, spec_u64_from_le_bytes, u64_to_le_bytes, u64_from_le_bytes,
    lemma_auto_spec_u64_to_from_le_bytes};
use crate::fingerprint::Fingerprint;
use crate::errors::SearchError;

verus! {

/// Size in bytes of one persisted index record: an eight-byte offset
/// followed by the fingerprint's eight storage blocks, little endian.
pub const INDEX_ITEM_BYTES: usize = 72;

/// A persisted pair of a byte offset into the source file and the
/// fingerprint of the molecule on the line at that offset.
#[derive(Debug)]
pub struct IndexItem {
    pub position: usize,
    pub fingerprint: Fingerprint,
}

impl IndexItem {
    pub open spec fn wf(self) -> bool {
        self.fingerprint.wf()
    }
}

/// The first `k` blocks, each encoded as eight little-endian bytes, in
/// order.
pub open spec fn spec_encode_blocks(bs: Seq<u64>, k: int) -> Seq<u8>
    decreases k,
{
    if k <= 0 {
        Seq::empty()
    } else {
        spec_encode_blocks(bs, k - 1) + spec_u64_to_le_bytes(bs[k - 1])
    }
}

pub proof fn lemma_encode_blocks_len(bs: Seq<u64>, k: int)
    requires
        0 <= k,
    ensures
        spec_encode_blocks(bs, k).len() == 8 * k,
    decreases k,
{
    if k > 0 {
        lemma_encode_blocks_len(bs, k - 1);
        lemma_auto_spec_u64_to_from_le_bytes();
    }
}

/// The `k` blocks read from eight-byte little-endian groups at the start of
/// `bytes`.
pub open spec fn spec_decode_blocks(bytes: Seq<u8>, k: int) -> Seq<u64>
    decreases k,
{
    if k <= 0 {
        Seq::empty()
    } else {
        spec_decode_blocks(bytes, k - 1).push(
            spec_u64_from_le_bytes(bytes.subrange(8 * (k - 1), 8 * k)),
        )
    }
}

/// Reading back an encoded block sequence yields the original blocks.
pub proof fn lemma_blocks_round_trip(bs: Seq<u64>, k: int, bytes: Seq<u8>)
    requires
        0 <= k <= bs.len(),
        spec_encode_blocks(bs, k).is_prefix_of(bytes),
    ensures
        spec_decode_blocks(bytes, k) =~= bs.subrange(0, k),
    decreases k,
{
    if k > 0 {
        lemma_encode_blocks_len(bs, k);
        lemma_encode_blocks_len(bs, k - 1);
        lemma_auto_spec_u64_to_from_le_bytes();
        assert(spec_encode_blocks(bs, k - 1).is_prefix_of(bytes)) by {
            assert(spec_encode_blocks(bs, k) == spec_encode_blocks(bs, k - 1)
                + spec_u64_to_le_bytes(bs[k - 1]));
            assert forall|i: int| 0 <= i < 8 * (k - 1) implies #[trigger] spec_encode_blocks(
                bs,
                k - 1,
            )[i] == bytes[i] by {
                assert(spec_encode_blocks(bs, k)[i] == spec_encode_blocks(bs, k - 1)[i]);
            }
            assert(spec_encode_blocks(bs, k - 1) =~= bytes.subrange(0, 8 * (k - 1)));
        }
        lemma_blocks_round_trip(bs, k - 1, bytes);
        assert(bytes.subrange(8 * (k - 1), 8 * k) =~= spec_u64_to_le_bytes(bs[k - 1])) by {
            assert forall|i: int| 0 <= i < 8 implies #[trigger] bytes.subrange(
                8 * (k - 1),
                8 * k,
            )[i] == spec_u64_to_le_bytes(bs[k - 1])[i] by {
                assert(spec_encode_blocks(bs, k)[8 * (k - 1) + i] == spec_u64_to_le_bytes(
                    bs[k - 1],
                )[i]);
                assert(bytes[8 * (k - 1) + i] == spec_encode_blocks(bs, k)[8 * (k - 1) + i]);
            }
        }
    }
}

/// One whole record: the offset as eight little-endian bytes, then the
/// blocks.
pub open spec fn spec_encode_item(position: int, bs: Seq<u64>) -> Seq<u8> {
    spec_u64_to_le_bytes(position as u64) + spec_encode_blocks(bs, 8)
}

/// A record read back: the offset (which must fit the platform word) and
/// the eight blocks.
pub open spec fn spec_decode_item(bytes: Seq<u8>) -> Option<(int, Seq<u64>)> {
    let pos = spec_u64_from_le_bytes(bytes.subrange(0, 8));
    if pos <= usize::MAX {
        Some((pos as int, spec_decode_blocks(bytes.skip(8), 8)))
    } else {
        None
    }
}

/// Serializes one index record into its fixed 72-byte form.
pub fn encode_index_item(item: &IndexItem) -> (r: Vec<u8>)
    requires
        item.wf(),
    ensures
        r@ == spec_encode_item(item.position as int, item.fingerprint.0@),
        r@.len() == 72,
{
    let mut out = u64_to_le_bytes(item.position as u64);
    let mut k: usize = 0;
    while k < 8
        invariant
            k <= 8,
            item.wf(),
            out@ == spec_u64_to_le_bytes(item.position as u64) + spec_encode_blocks(
                item.fingerprint.0@,
                k as int,
            ),
        decreases 8 - k,
    {
        let mut block = u64_to_le_bytes(item.fingerprint.0[k]);
        out.append(&mut block);
        proof {
            assert(out@ =~= spec_u64_to_le_bytes(item.position as u64) + spec_encode_blocks(
                item.fingerprint.0@,
                k as int + 1,
            ));
        }
        k += 1;
    }
    proof {
        lemma_auto_spec_u64_to_from_le_bytes();
        lemma_encode_blocks_len(item.fingerprint.0@, 8);
    }
    out
}

/// Reads back one index record from the 72 bytes at `start`.  The only
/// defect a fixed-size record can carry is an offset too large for the
/// platform word.
#[verifier::loop_isolation(false)]
pub fn decode_index_item(buf: &Vec<u8>, start: usize) -> (r: Result<IndexItem, SearchError>)
    requires
        start + 72 <= buf@.len(),
    ensures
        match r {
            Ok(item) => spec_decode_item(buf@.subrange(start as int, start as int + 72))
                == Some((item.position as int, item.fingerprint.0@)) && item.wf(),
            Err(e) => spec_decode_item(buf@.subrange(start as int, start as int + 72)) is None
                && e == SearchError::CorruptIndex,
        },
{
    let total = buf.len();
    let ghost record = buf@.subrange(start as int, start as int + 72);
    let pos64 = read_u64_le(buf, start);
    proof {
        assert(buf@.subrange(start as int, start as int + 8) =~= record.subrange(0, 8));
    }
    if pos64 > usize::MAX as u64 {
        proof {
            assert(spec_u64_from_le_bytes(record.subrange(0, 8)) > usize::MAX);
        }
        return Err(SearchError::CorruptIndex);
    }
    let position = pos64 as usize;
    let mut blocks: Vec<u64> = Vec::new();
    let mut k: usize = 0;
    while k < 8
        invariant
            k <= 8,
            start + 72 <= total,
            total == buf@.len(),
            record == buf@.subrange(start as int, start as int + 72),
            blocks@ == spec_decode_blocks(record.skip(8), k as int),
            blocks@.len() == k,
        decreases 8 - k,
    {
        let b = read_u64_le(buf, start + 8 + 8 * k);
        proof {
            assert(buf@.subrange(
                start as int + 8 + 8 * (k as int),
                start as int + 8 + 8 * (k as int) + 8,
            ) =~= record.skip(8).subrange(8 * (k as int), 8 * (k as int) + 8));
        }
        blocks.push(b);
        k += 1;
    }
    Ok(IndexItem { position, fingerprint: Fingerprint(blocks) })
}

/// Serializes a fingerprint's bit storage alone: eight blocks, 64 bytes.
pub fn encode_fingerprint(fp: &Fingerprint) -> (r: Vec<u8>)
    requires
        fp.wf(),
    ensures
        r@ == spec_encode_blocks(fp.0@, 8),
        r@.len() == 64,
{
    let mut out: Vec<u8> = Vec::new();
    let mut k: usize = 0;
    while k < 8
        invariant
            k <= 8,
            fp.wf(),
            out@ == spec_encode_blocks(fp.0@, k as int),
        decreases 8 - k,
    {
        let mut block = u64_to_le_bytes(fp.0[k]);
        out.append(&mut block);
        proof {
            assert(out@ =~= spec_encode_blocks(fp.0@, k as int + 1));
        }
        k += 1;
    }
    proof {
        lemma_encode_blocks_len(fp.0@, 8);
    }
    out
}

/// Reads back a fingerprint's bit storage from the 64 bytes at `start`.
#[verifier::loop_isolation(false)]
pub fn decode_fingerprint(buf: &Vec<u8>, start: usize) -> (r: Fingerprint)
    requires
        start + 64 <= buf@.len(),
    ensures
        r.0@ == spec_decode_blocks(buf@.subrange(start as int, start as int + 64), 8),
        r.wf(),
{
    let total = buf.len();
    let ghost record = buf@.subrange(start as int, start as int + 64);
    let mut blocks: Vec<u64> = Vec::new();
    let mut k: usize = 0;
    while k < 8
        invariant
            k <= 8,
            blocks@ == spec_decode_blocks(record, k as int),
            blocks@.len() == k,
        decreases 8 - k,
    {
        let b = read_u64_le(buf, start + 8 * k);
        proof {
            assert(buf@.subrange(
                start as int + 8 * (k as int),
                start as int + 8 * (k as int) + 8,
            ) =~= record.subrange(8 * (k as int), 8 * (k as int) + 8));
        }
        blocks.push(b);
        k += 1;
    }
    Fingerprint(blocks)
}

/// Reads eight little-endian bytes at `pos` as one unsigned number.
fn read_u64_le(buf: &Vec<u8>, pos: usize) -> (r: u64)
    requires
        pos + 8 <= buf@.len(),
    ensures
        r == spec_u64_from_le_bytes(buf@.subrange(pos as int, pos as int + 8)),
{
    let total = buf.len();
    let mut tmp: Vec<u8> = Vec::new();
    let mut i: usize = 0;
    while i < 8
        invariant
            i <= 8,
            pos + 8 <= total,
            total == buf@.len(),
            tmp@ == buf@.subrange(pos as int, pos as int + i as int),
        decreases 8 - i,
    {
        tmp.push(buf[pos + i]);
        proof {
            assert(tmp@ =~= buf@.subrange(pos as int, pos as int + i as int + 1));
        }
        i += 1;
    }
    u64_from_le_bytes(tmp.as_slice())
}

/// The record format round-trips exactly: decoding an encoded record gives
/// back the same offset and the same bit storage.
pub proof fn lemma_record_round_trip(position: usize, bs: Seq<u64>)
    requires
        bs.len() == 8,
    ensures
        spec_decode_item(spec_encode_item(position as int, bs)) == Some((position as int, bs)),
{
    lemma_auto_spec_u64_to_from_le_bytes();
    lemma_encode_blocks_len(bs, 8);
    let bytes = spec_encode_item(position as int, bs);
    assert(bytes.subrange(0, 8) =~= spec_u64_to_le_bytes(position as u64));
    assert(bytes.skip(8) =~= spec_encode_blocks(bs, 8));
    assert(spec_encode_blocks(bs, 8).is_prefix_of(bytes.skip(8)));
    lemma_blocks_round_trip(bs, 8, bytes.skip(8));
    assert(spec_decode_blocks(bytes.skip(8), 8) =~= bs.subrange(0, 8));
    assert(bs.subrange(0, 8) =~= bs);
}

} // verus!
