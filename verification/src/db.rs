use vstd::prelude::*;
use vstd::string::StrSliceExecFns;
use crate::errors::{ParseError, IndexError, SearchError};
use crate::model::Atom;
use crate::molecule::{GraphV, BondSlot};
use crate::fingerprint::spec_bits_of;
use crate::ecfp::spec_ecfp;
use crate::similarity::{count_and, count_or, tanimoto_counts, lemma_similarity_bounds};
use crate::codec::{IndexItem, spec_encode_item, spec_decode_item, encode_index_item,
    decode_index_item};
use crate::smiles::molecule::{spec_parse_molecule, parse_molecule};

verus! {

/// The sidecar bytes for the lines from `k` on, with the running byte
/// offset `offset`: one fixed-size record per line, holding the line's
/// offset and the fingerprint (radius two, width 512) of its molecule.  A
/// line that fails to parse aborts the whole build, and so does an offset
/// that outgrows the platform word.  Each line is charged its byte length
/// plus one for the line terminator.
pub open spec fn spec_index_lines(lines: Seq<Seq<char>>, k: int, offset: int) -> Result<
    Seq<u8>,
    IndexError,
>
    decreases lines.len() - k,
{
    if k < 0 || k >= lines.len() {
        Ok(Seq::empty())
    } else {
        match spec_parse_molecule(lines[k]) {
            Err(e) => Err(IndexError::Line(e)),
            Ok(pr) => {
                let bs = spec_ecfp(GraphV { atoms: pr.1, bonds: pr.2 }, 2, 512);
                let rec = spec_encode_item(offset, bs);
                let next_off = offset + (vstd::utf8::encode_utf8(lines[k]).len() as usize) + 1;
                if next_off > usize::MAX {
                    Err(IndexError::OffsetOverflow)
                } else {
                    match spec_index_lines(lines, k + 1, next_off) {
                        Err(e) => Err(e),
                        Ok(rest) => Ok(rec + rest),
                    }
                }
            },
        }
    }
}

/// Builds the sidecar index for the given source lines: for each line, in
/// order, a record of the line's byte offset and its molecule's
/// fingerprint.
#[verifier::loop_isolation(false)]
#[verifier::rlimit(30)]
pub fn index_lines(lines: &Vec<String>) -> (r: Result<Vec<u8>, IndexError>)
    ensures
        match r {
            Ok(bytes) => spec_index_lines(lines@.map_values(|l: String| l@), 0, 0) == Ok::<
                _,
                IndexError,
            >(bytes@),
            Err(e) => spec_index_lines(lines@.map_values(|l: String| l@), 0, 0) == Err::<
                Seq<u8>,
                IndexError,
            >(e),
        },
{
    let ghost lv = lines@.map_values(|l: String| l@);
    let mut out: Vec<u8> = Vec::new();
    let mut offset: usize = 0;
    let n = lines.len();
    let mut k: usize = 0;
    while k < n
        invariant
            k <= n,
            n == lines@.len(),
            spec_index_lines(lv, 0, 0) == (match spec_index_lines(lv, k as int, offset as int) {
                Result::<Seq<u8>, IndexError>::Err(e) => Err(e),
                Result::<Seq<u8>, IndexError>::Ok(rest) => Ok(out@ + rest),
            }),
        decreases n - k,
    {
        let lstr = lines[k].as_str();
        proof {
            assert(lstr@ == lv[k as int]);
        }
        match parse_molecule(lstr) {
            Err(e) => {
                proof {
                    assert(spec_index_lines(lv, k as int, offset as int) == Err::<
                        Seq<u8>,
                        IndexError,
                    >(IndexError::Line(e)));
                }
                return Err(IndexError::Line(e));
            },
            Ok((_rest, m)) => {
                proof {
                    let pr = spec_parse_molecule(lv[k as int])->Ok_0;
                    assert(m@ =~= GraphV { atoms: pr.1, bonds: pr.2 });
                }
                let fp = m.ecfp(2, 512);
                let item = IndexItem { position: offset, fingerprint: fp };
                let mut rec = encode_index_item(&item);
                let ghost out_before = out@;
                let ghost rec_bytes = rec@;
                out.append(&mut rec);
                let blen = lstr.len();
                if offset == usize::MAX || blen > usize::MAX - 1 - offset {
                    proof {
                        assert(spec_index_lines(lv, k as int, offset as int) == Err::<
                            Seq<u8>,
                            IndexError,
                        >(IndexError::OffsetOverflow));
                    }
                    return Err(IndexError::OffsetOverflow);
                }
                let ghost offset_before = offset as int;
                offset = offset + blen + 1;
                proof {
                    match spec_index_lines(lv, k as int + 1, offset as int) {
                        Result::<Seq<u8>, IndexError>::Err(e) => {
                            assert(spec_index_lines(lv, k as int, offset_before) == Err::<
                                Seq<u8>,
                                IndexError,
                            >(e));
                        },
                        Result::<Seq<u8>, IndexError>::Ok(rest) => {
                            assert(spec_index_lines(lv, k as int, offset_before) == Ok::<
                                Seq<u8>,
                                IndexError,
                            >(rec_bytes + rest));
                            assert(out_before + (rec_bytes + rest) =~= (out_before + rec_bytes)
                                + rest);
                        },
                    }
                }
                k += 1;
            },
        }
    }
    proof {
        assert(spec_index_lines(lv, n as int, offset as int) == Ok::<Seq<u8>, IndexError>(
            Seq::empty(),
        ));
        assert(out@ + Seq::<u8>::empty() =~= out@);
    }
    Ok(out)
}

/// The position just past the line starting at `p`: after the first
/// newline byte at or after `p`, or the end of the source.
pub open spec fn spec_line_end(src: Seq<u8>, p: int) -> int
    decreases src.len() - p,
{
    if p < 0 || p >= src.len() {
        p
    } else if src[p] == 10 {
        p + 1
    } else {
        spec_line_end(src, p + 1)
    }
}

/// The line starting at byte offset `p`, including its terminating newline
/// when present; empty when the offset lies outside the source.
pub open spec fn spec_line_at(src: Seq<u8>, p: int) -> Seq<u8> {
    if 0 <= p <= src.len() {
        src.subrange(p, spec_line_end(src, p))
    } else {
        Seq::empty()
    }
}

proof fn lemma_line_end_scan(src: Seq<u8>, p: int, e: int)
    requires
        0 <= p <= e <= src.len(),
        forall|t: int| p <= t < e ==> src[t] != 10,
        e == src.len() || src[e] == 10,
    ensures
        spec_line_end(src, p) == if e < src.len() {
            e + 1
        } else {
            e
        },
    decreases e - p,
{
    if p < e {
        lemma_line_end_scan(src, p + 1, e);
    }
}

/// Recovers the source line at byte offset `pos`.
#[verifier::loop_isolation(false)]
pub fn line_at(src: &Vec<u8>, pos: usize) -> (r: Vec<u8>)
    ensures
        r@ == spec_line_at(src@, pos as int),
{
    let n = src.len();
    if pos >= n {
        let r: Vec<u8> = Vec::new();
        proof {
            if pos == n {
                assert(spec_line_at(src@, pos as int) =~= Seq::<u8>::empty());
            }
        }
        return r;
    }
    let mut e = pos;
    while e < n && src[e] != 10
        invariant
            pos <= e <= n,
            forall|t: int| pos <= t < e ==> src@[t] != 10,
        decreases n - e,
    {
        e += 1;
    }
    let end = if e < n {
        e + 1
    } else {
        e
    };
    proof {
        lemma_line_end_scan(src@, pos as int, e as int);
    }
    let mut r: Vec<u8> = Vec::new();
    let mut t = pos;
    while t < end
        invariant
            pos <= t <= end <= n,
            r@ == src@.subrange(pos as int, t as int),
        decreases end - t,
    {
        r.push(src[t]);
        proof {
            assert(r@ =~= src@.subrange(pos as int, t as int + 1));
        }
        t += 1;
    }
    r
}

/// Whether a record with the given intersection and union counts meets the
/// similarity threshold `num / den`: the score is `and / or`, compared
/// exactly as rationals, and a record whose union count is zero never
/// qualifies (its score is undefined).
pub open spec fn spec_qualifies(and: int, or: int, num: int, den: int) -> bool {
    or > 0 && and * den >= num * or
}

/// The scan over the index records from record `k` on, with `room` result
/// slots left: each record is decoded, scored against the query
/// fingerprint, and, when it qualifies, resolved to its source line; the
/// scan stops once the room is exhausted, so results come in index order.
pub open spec fn spec_scan(
    src: Seq<u8>,
    idx: Seq<u8>,
    q: Seq<u64>,
    num: int,
    den: int,
    k: int,
    nrec: int,
    room: int,
) -> Result<Seq<(Seq<u8>, int, int)>, SearchError>
    decreases nrec - k,
{
    if k < 0 || k >= nrec || room <= 0 {
        Ok(Seq::empty())
    } else {
        match spec_decode_item(idx.subrange(72 * k, 72 * k + 72)) {
            None => Err(SearchError::CorruptIndex),
            Some((pos, bs)) => {
                let and = count_and(spec_bits_of(bs), spec_bits_of(q), 512);
                let or = count_or(spec_bits_of(bs), spec_bits_of(q), 512);
                if spec_qualifies(and, or, num, den) {
                    match spec_scan(src, idx, q, num, den, k + 1, nrec, room - 1) {
                        Err(e) => Err(e),
                        Ok(rest) => Ok(seq![(spec_line_at(src, pos), and, or)] + rest),
                    }
                } else {
                    spec_scan(src, idx, q, num, den, k + 1, nrec, room)
                }
            },
        }
    }
}

/// The whole search: parse the query, fingerprint it, check that the index
/// is a whole number of records, then scan.
pub open spec fn spec_search(
    src: Seq<u8>,
    idx: Seq<u8>,
    query: Seq<char>,
    num: int,
    den: int,
    limit: int,
) -> Result<Seq<(Seq<u8>, int, int)>, SearchError> {
    match spec_parse_molecule(query) {
        Err(e) => Err(SearchError::Query(e)),
        Ok(pr) => {
            let q = spec_ecfp(GraphV { atoms: pr.1, bonds: pr.2 }, 2, 512);
            if idx.len() % 72 != 0 {
                Err(SearchError::CorruptIndex)
            } else {
                spec_scan(src, idx, q, num, den, 0, idx.len() as int / 72, limit)
            }
        },
    }
}

/// One search result: the matched source line and the two population
/// counts whose ratio is the similarity score.
#[derive(Debug, PartialEq, Eq)]
pub struct SearchHit {
    pub line: Vec<u8>,
    pub count_both: u32,
    pub count_either: u32,
}

pub open spec fn spec_hit_view(h: SearchHit) -> (Seq<u8>, int, int) {
    (h.line@, h.count_both as int, h.count_either as int)
}

/// Scans the sidecar index against a query, returning up to `limit` hits
/// whose similarity is at least `min_num / min_den`, in index order, each
/// with its source line.
#[verifier::loop_isolation(false)]
#[verifier::rlimit(60)]
pub fn search_index(
    source: &Vec<u8>,
    index: &Vec<u8>,
    query: &str,
    min_num: u64,
    min_den: u64,
    limit: usize,
) -> (r: Result<Vec<SearchHit>, SearchError>)
    requires
        min_den > 0,
    ensures
        match r {
            Ok(hits) => {
                &&& spec_search(
                    source@,
                    index@,
                    query@,
                    min_num as int,
                    min_den as int,
                    limit as int,
                ) matches Ok(hs) && hits@.map_values(|h: SearchHit| spec_hit_view(h)) == hs
            },
            Err(e) => spec_search(
                source@,
                index@,
                query@,
                min_num as int,
                min_den as int,
                limit as int,
            ) == Err::<Seq<(Seq<u8>, int, int)>, SearchError>(e),
        },
{
    let q_mol = match parse_molecule(query) {
        Err(e) => {
            return Err(SearchError::Query(e));
        },
        Ok(p) => p.1,
    };
    proof {
        let pr = spec_parse_molecule(query@)->Ok_0;
        assert(q_mol@ =~= GraphV { atoms: pr.1, bonds: pr.2 });
    }
    let qfp = q_mol.ecfp(2, 512);
    let ilen = index.len();
    if ilen % 72 != 0 {
        return Err(SearchError::CorruptIndex);
    }
    let nrec = ilen / 72;
    proof {
        vstd::arithmetic::div_mod::lemma_fundamental_div_mod(ilen as int, 72);
    }
    let mut hits: Vec<SearchHit> = Vec::new();
    let mut k: usize = 0;
    while k < nrec && hits.len() < limit
        invariant
            k <= nrec,
            hits@.len() <= limit,
            spec_scan(
                source@,
                index@,
                qfp.0@,
                min_num as int,
                min_den as int,
                0,
                nrec as int,
                limit as int,
            ) == (match spec_scan(
                source@,
                index@,
                qfp.0@,
                min_num as int,
                min_den as int,
                k as int,
                nrec as int,
                limit as int - hits@.len(),
            ) {
                Result::<Seq<(Seq<u8>, int, int)>, SearchError>::Err(e) => Err(e),
                Result::<Seq<(Seq<u8>, int, int)>, SearchError>::Ok(rest) => Ok(
                    hits@.map_values(|h: SearchHit| spec_hit_view(h)) + rest,
                ),
            }),
        decreases nrec - k,
    {
        let ghost room = limit as int - hits@.len();
        let ghost hv_before = hits@.map_values(|h: SearchHit| spec_hit_view(h));
        let item = match decode_index_item(index, 72 * k) {
            Err(e) => {
                proof {
                    assert(index@.subrange(72 * (k as int), 72 * (k as int) + 72)
                        == index@.subrange(
                        (72 * k) as int,
                        (72 * k) as int + 72,
                    ));
                }
                return Err(SearchError::CorruptIndex);
            },
            Ok(it) => it,
        };
        proof {
            assert(index@.subrange(72 * (k as int), 72 * (k as int) + 72) == index@.subrange(
                (72 * k) as int,
                (72 * k) as int + 72,
            ));
        }
        let counts = tanimoto_counts(&item.fingerprint, &qfp);
        let and = counts.0;
        let or = counts.1;
        proof {
            vstd::arithmetic::mul::lemma_mul_upper_bound(
                and as int,
                0xFFFFFFFF,
                min_den as int,
                0xFFFFFFFFFFFFFFFF,
            );
            vstd::arithmetic::mul::lemma_mul_upper_bound(
                min_num as int,
                0xFFFFFFFFFFFFFFFF,
                or as int,
                0xFFFFFFFF,
            );
        }
        let qualifies = or > 0 && (and as u128) * (min_den as u128) >= (min_num as u128) * (
        or as u128);
        proof {
            assert(qualifies == spec_qualifies(
                and as int,
                or as int,
                min_num as int,
                min_den as int,
            ));
        }
        if qualifies {
            let line = line_at(source, item.position);
            hits.push(SearchHit { line, count_both: and, count_either: or });
            proof {
                assert(hits@.map_values(|h: SearchHit| spec_hit_view(h)) =~= hv_before.push(
                    (spec_line_at(source@, item.position as int), and as int, or as int),
                ));
                match spec_scan(
                    source@,
                    index@,
                    qfp.0@,
                    min_num as int,
                    min_den as int,
                    k as int + 1,
                    nrec as int,
                    room - 1,
                ) {
                    Result::<Seq<(Seq<u8>, int, int)>, SearchError>::Err(e) => {},
                    Result::<Seq<(Seq<u8>, int, int)>, SearchError>::Ok(rest) => {
                        assert(hv_before + (seq![
                            (spec_line_at(source@, item.position as int), and as int, or as int),
                        ] + rest) =~= hits@.map_values(|h: SearchHit| spec_hit_view(h)) + rest);
                    },
                }
            }
        }
        k += 1;
    }
    proof {
        if k == nrec {
        } else {
            assert(hits@.len() == limit);
        }
        assert(hits@.map_values(|h: SearchHit| spec_hit_view(h)) + Seq::<(Seq<u8>, int, int)>::empty()
            =~= hits@.map_values(|h: SearchHit| spec_hit_view(h)));
    }
    Ok(hits)
}

proof fn lemma_scan_len_bound(
    src: Seq<u8>,
    idx: Seq<u8>,
    q: Seq<u64>,
    num: int,
    den: int,
    k: int,
    nrec: int,
    room: int,
)
    ensures
        spec_scan(src, idx, q, num, den, k, nrec, room) matches Ok(h) ==> h.len() <= (if room
            > 0 {
            room
        } else {
            0
        }),
    decreases nrec - k,
{
    if k < 0 || k >= nrec || room <= 0 {
    } else {
        match spec_decode_item(idx.subrange(72 * k, 72 * k + 72)) {
            Option::None => {},
            Option::Some((pos, bs)) => {
                lemma_scan_len_bound(src, idx, q, num, den, k + 1, nrec, room - 1);
                lemma_scan_len_bound(src, idx, q, num, den, k + 1, nrec, room);
            },
        }
    }
}

proof fn lemma_scan_room_mono(
    src: Seq<u8>,
    idx: Seq<u8>,
    q: Seq<u64>,
    num: int,
    den: int,
    k: int,
    nrec: int,
    room: int,
)
    ensures
        spec_scan(src, idx, q, num, den, k, nrec, room) matches Ok(h) ==> (spec_scan(
            src,
            idx,
            q,
            num,
            den,
            k,
            nrec,
            room - 1,
        ) matches Ok(h2) && h.len() <= h2.len() + 1),
    decreases nrec - k,
{
    if k < 0 || k >= nrec || room <= 0 {
    } else if room == 1 {
        lemma_scan_len_bound(src, idx, q, num, den, k, nrec, room);
    } else {
        match spec_decode_item(idx.subrange(72 * k, 72 * k + 72)) {
            Option::None => {},
            Option::Some((pos, bs)) => {
                lemma_scan_room_mono(src, idx, q, num, den, k + 1, nrec, room - 1);
                lemma_scan_room_mono(src, idx, q, num, den, k + 1, nrec, room);
            },
        }
    }
}

proof fn lemma_scan_threshold(
    src: Seq<u8>,
    idx: Seq<u8>,
    q: Seq<u64>,
    n1: int,
    d1: int,
    n2: int,
    d2: int,
    k: int,
    nrec: int,
    room: int,
)
    requires
        d1 > 0,
        d2 > 0,
        0 <= n1,
        0 <= n2,
        n1 * d2 <= n2 * d1,
    ensures
        spec_scan(src, idx, q, n2, d2, k, nrec, room) matches Ok(h2) ==> (spec_scan(
            src,
            idx,
            q,
            n1,
            d1,
            k,
            nrec,
            room,
        ) matches Ok(h1) ==> h2.len() <= h1.len()),
    decreases nrec - k,
{
    if k < 0 || k >= nrec || room <= 0 {
    } else {
        match spec_decode_item(idx.subrange(72 * k, 72 * k + 72)) {
            Option::None => {},
            Option::Some((pos, bs)) => {
                let and = count_and(spec_bits_of(bs), spec_bits_of(q), 512);
                let or = count_or(spec_bits_of(bs), spec_bits_of(q), 512);
                lemma_similarity_bounds(spec_bits_of(bs), spec_bits_of(q), 512);
                if spec_qualifies(and, or, n2, d2) {
                    assert(spec_qualifies(and, or, n1, d1)) by (nonlinear_arith)
                        requires
                            d1 > 0,
                            d2 > 0,
                            0 <= n1,
                            0 <= and,
                            0 < or,
                            n1 * d2 <= n2 * d1,
                            and * d2 >= n2 * or,
                    ;
                    lemma_scan_threshold(src, idx, q, n1, d1, n2, d2, k + 1, nrec, room - 1);
                } else if spec_qualifies(and, or, n1, d1) {
                    lemma_scan_threshold(src, idx, q, n1, d1, n2, d2, k + 1, nrec, room - 1);
                    lemma_scan_room_mono(src, idx, q, n2, d2, k + 1, nrec, room);
                    lemma_scan_threshold(src, idx, q, n1, d1, n2, d2, k + 1, nrec, room);
                } else {
                    lemma_scan_threshold(src, idx, q, n1, d1, n2, d2, k + 1, nrec, room);
                }
            },
        }
    }
}

/// Threshold filtering is monotone: over the same source, index, query and
/// result limit, a search at a strictly higher (or equal) similarity
/// threshold `n2 / d2 >= n1 / d1` never returns more results than the
/// search at the lower threshold.
pub proof fn lemma_threshold_filtering(
    src: Seq<u8>,
    idx: Seq<u8>,
    query: Seq<char>,
    n1: int,
    d1: int,
    n2: int,
    d2: int,
    limit: int,
)
    requires
        d1 > 0,
        d2 > 0,
        0 <= n1,
        0 <= n2,
        n1 * d2 <= n2 * d1,
    ensures
        spec_search(src, idx, query, n2, d2, limit) matches Ok(h2) ==> (spec_search(
            src,
            idx,
            query,
            n1,
            d1,
            limit,
        ) matches Ok(h1) ==> h2.len() <= h1.len()),
{
    match spec_parse_molecule(query) {
        Result::<(int, Seq<Atom>, Seq<BondSlot>), ParseError>::Err(e) => {},
        Result::<(int, Seq<Atom>, Seq<BondSlot>), ParseError>::Ok(pr) => {
            let q = spec_ecfp(GraphV { atoms: pr.1, bonds: pr.2 }, 2, 512);
            if idx.len() % 72 == 0 {
                lemma_scan_threshold(
                    src,
                    idx,
                    q,
                    n1,
                    d1,
                    n2,
                    d2,
                    0,
                    idx.len() as int / 72,
                    limit,
                );
            }
        },
    }
}

} // verus!
